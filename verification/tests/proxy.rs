use semantic_router::config::{Backend, Category, DefaultRoute};
use semantic_router::proxy::{
    completion_outcome, default_target, stream_outcome, Answer, BackendTarget, Backends,
    StreamOutcome,
};
use serde_json::Value;

fn json(text: &str) -> Value {
    serde_json::from_str(text).unwrap()
}

fn target(base_url: &str) -> BackendTarget {
    BackendTarget {
        base_url: base_url.to_string(),
        api_key: Some("key".to_string()),
        model: "backend-model".to_string(),
    }
}

#[test]
fn the_address_ignores_trailing_slashes() {
    let expected = "http://host:1/v1/chat/completions";
    assert_eq!(target("http://host:1").completions_url(), expected);
    assert_eq!(target("http://host:1/").completions_url(), expected);
    assert_eq!(target("http://host:1///").completions_url(), expected);
    assert_eq!(target("/").completions_url(), "/v1/chat/completions");
}

#[test]
fn a_call_carries_the_model_of_the_backend() {
    let call = target("http://h/").prepare(json(r#"{"model": "unused", "stream": true}"#));
    assert_eq!(call.url, "http://h/v1/chat/completions");
    assert_eq!(call.api_key.as_deref(), Some("key"));
    assert_eq!(call.body, json(r#"{"model": "backend-model", "stream": true}"#));
}

#[test]
fn a_missing_model_is_added() {
    let call = target("http://h").prepare(json("{}"));
    assert_eq!(call.body, json(r#"{"model": "backend-model"}"#));
}

#[test]
fn a_body_that_is_no_object_is_sent_as_it_is() {
    let call = target("http://h").prepare(json("[1, 2]"));
    assert_eq!(call.body, json("[1, 2]"));
}

#[test]
fn a_cloned_target_is_the_same() {
    let copy = target("http://h").clone();
    assert_eq!(copy.base_url, "http://h");
    assert_eq!(copy.api_key.as_deref(), Some("key"));
    assert_eq!(copy.model, "backend-model");
}

fn category(name: &str, model: &str) -> Category {
    Category {
        name: name.to_string(),
        examples: vec!["x".to_string()],
        backend: Backend {
            base_url: "http://h".to_string(),
            api_key_env: None,
            model: model.to_string(),
        },
    }
}

#[test]
fn every_category_has_its_backend() {
    let categories = vec![category("a", "m1"), category("b", "m2")];
    let backends = Backends::from_categories(&categories, &vec![None, Some("k".to_string())]);
    assert_eq!(backends.get("a").unwrap().model, "m1");
    assert_eq!(backends.get("a").unwrap().api_key, None);
    assert_eq!(backends.get("b").unwrap().model, "m2");
    assert_eq!(backends.get("b").unwrap().api_key.as_deref(), Some("k"));
    assert!(backends.get("c").is_none());
}

#[test]
fn of_two_categories_with_a_name_the_later_counts() {
    let categories = vec![category("a", "m1"), category("a", "m2")];
    let backends = Backends::from_categories(&categories, &vec![None, None]);
    assert_eq!(backends.get("a").unwrap().model, "m2");
}

#[test]
fn the_default_target_follows_the_default_route() {
    let route = DefaultRoute {
        name: "default".to_string(),
        base_url: "http://d".to_string(),
        api_key_env: Some("VARIABLE".to_string()),
        model: "general".to_string(),
    };
    let target = default_target(&route, Some("k".to_string()));
    assert_eq!(target.base_url, "http://d");
    assert_eq!(target.api_key.as_deref(), Some("k"));
    assert_eq!(target.model, "general");
}

fn answer<P>(status: u16, text: &str, payload: P) -> Result<Answer<P>, String> {
    Ok(Answer { status, status_text: text.to_string(), payload })
}

#[test]
fn a_payload_counts_if_the_status_is_a_success() {
    let payload = json(r#"{"b": [1, null], "a": "x"}"#);
    for status in [200, 201, 299] {
        let sent = answer(status, "fine", Ok(payload.clone()));
        assert_eq!(completion_outcome("http://h", sent), Ok(payload.clone()));
    }
    for status in [0, 199, 300, 500] {
        let sent = answer(status, "bad", Ok(payload.clone()));
        assert!(completion_outcome("http://h", sent).is_err());
    }
    let sent = answer(429, "429 Too Many Requests", Ok(payload));
    assert_eq!(
        completion_outcome("http://h", sent),
        Err(r#"backend http://h returned 429 Too Many Requests: {"a":"x","b":[1,null]}"#.to_string())
    );
}

#[test]
fn an_unreadable_answer_is_reported_whatever_the_status() {
    for status in [200, 500] {
        let sent = answer(status, "text", Err("expected value".to_string()));
        assert_eq!(
            completion_outcome("http://h", sent),
            Err("failed to parse response from backend http://h: expected value".to_string())
        );
    }
}

#[test]
fn a_backend_that_cannot_be_reached_is_reported() {
    let expected = "request to backend http://h failed: timed out".to_string();
    assert_eq!(
        completion_outcome("http://h", Err("timed out".to_string())),
        Err(expected.clone())
    );
    match stream_outcome::<u8>("http://h", Err("timed out".to_string())) {
        StreamOutcome::Failed(message) => assert_eq!(message, expected),
        _ => panic!("there is no answer"),
    }
}

#[test]
fn a_stream_is_piped_as_it_came_if_the_status_is_a_success() {
    for status in [200, 204, 299] {
        match stream_outcome("http://h", answer(status, "fine", 7)) {
            StreamOutcome::Piped(reply) => assert_eq!(reply, 7),
            _ => panic!("the answer is a success"),
        }
    }
}

#[test]
fn a_refused_stream_is_reported_with_its_text() {
    for status in [0, 199, 300, 503] {
        match stream_outcome("http://h", answer(status, "503 Service Unavailable", 7)) {
            StreamOutcome::Refused(reply, refusal) => {
                assert_eq!(reply, 7);
                assert_eq!(
                    refusal.message("try later"),
                    "backend http://h returned 503 Service Unavailable: try later"
                );
            }
            _ => panic!("the answer is no success"),
        }
    }
}
