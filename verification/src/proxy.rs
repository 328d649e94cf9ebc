//! Calls to the backend: what is sent, and what an answer means.
use crate::config::{Category, DefaultRoute};
use crate::json::{compact_text, json_text, json_tree, text_value, Json};
use crate::text::{copy_option, trim_end_slashes, without_trailing_slashes};
use serde_json::Value;
use vstd::hash_map::StringHashMap;
use vstd::prelude::*;

verus! {

/// A backend that requests can be forwarded to.
#[derive(Debug)]
pub struct BackendTarget {
    pub base_url: String,
    pub api_key: Option<String>,
    pub model: String,
}

/// A request to a backend.
pub struct BackendCall {
    pub url: String,
    /// The bearer token to send, if any.
    pub api_key: Option<String>,
    pub body: Value,
}

/// The address of chat completions under a base address.
pub open spec fn completions_url(base_url: Seq<char>) -> Seq<char> {
    without_trailing_slashes(base_url) + "/v1/chat/completions"@
}

/// The request with its `model` set, where it is an object.
pub open spec fn with_model(body: Json, model: Seq<char>) -> Json {
    match body {
        Json::Object(entries) => Json::Object(entries.insert("model"@, Json::Text(model))),
        _ => body,
    }
}

impl Clone for BackendTarget {
    fn clone(&self) -> (copy: BackendTarget)
        ensures
            copy == *self,
    {
        BackendTarget {
            base_url: self.base_url.clone(),
            api_key: copy_option(&self.api_key),
            model: self.model.clone(),
        }
    }
}

impl BackendTarget {
    /// The address of the backend's chat completions.
    pub fn completions_url(&self) -> (url: String)
        ensures
            url@ == completions_url(self.base_url@),
    {
        trim_end_slashes(self.base_url.as_str()).to_string().concat("/v1/chat/completions")
    }

    /// The call that forwards a chat completion to this backend: the `model`
    /// field becomes the backend's model.
    pub fn prepare(&self, body: Value) -> (call: BackendCall)
        ensures
            call.url@ == completions_url(self.base_url@),
            call.api_key == self.api_key,
            json_tree(call.body) == with_model(json_tree(body), self.model@),
    {
        let mut body = body;
        if let Some(entries) = body.as_object_mut() {
            let _ = entries.insert("model".to_string(), text_value(self.model.clone()));
        }
        BackendCall { url: self.completions_url(), api_key: copy_option(&self.api_key), body }
    }
}

/// The backend of a category, with its key.
pub open spec fn category_target(category: Category, api_key: Option<String>) -> BackendTarget {
    BackendTarget { base_url: category.backend.base_url, api_key, model: category.backend.model }
}

/// The backends of categories by name; of two categories with the same name the
/// later one counts.
pub open spec fn category_targets(categories: Seq<Category>, api_keys: Seq<Option<String>>) -> Map<
    Seq<char>,
    BackendTarget,
>
    decreases categories.len(),
{
    if categories.len() == 0 {
        Map::empty()
    } else {
        category_targets(categories.drop_last(), api_keys.drop_last()).insert(
            categories.last().name@,
            category_target(categories.last(), api_keys.last()),
        )
    }
}

/// The backends by the names of their categories.
pub struct Backends {
    targets: StringHashMap<BackendTarget>,
}

impl Backends {
    /// The backends by name.
    pub closed spec fn view(&self) -> Map<Seq<char>, BackendTarget> {
        self.targets@
    }

    /// The backends of the categories, given the key of each.
    pub fn from_categories(categories: &Vec<Category>, api_keys: &Vec<Option<String>>) -> (backends:
        Backends)
        requires
            api_keys@.len() == categories@.len(),
        ensures
            backends@ == category_targets(categories@, api_keys@),
    {
        let mut targets: StringHashMap<BackendTarget> = StringHashMap::new();
        let mut i: usize = 0;
        while i < categories.len()
            invariant
                0 <= i <= categories.len(),
                api_keys@.len() == categories@.len(),
                targets@ == category_targets(
                    categories@.take(i as int),
                    api_keys@.take(i as int),
                ),
            decreases categories.len() - i,
        {
            let category = &categories[i];
            proof {
                assert(categories@.take(i + 1).drop_last() =~= categories@.take(i as int));
                assert(api_keys@.take(i + 1).drop_last() =~= api_keys@.take(i as int));
            }
            targets.insert(
                category.name.clone(),
                BackendTarget {
                    base_url: category.backend.base_url.clone(),
                    api_key: copy_option(&api_keys[i]),
                    model: category.backend.model.clone(),
                },
            );
            i = i + 1;
        }
        assert(categories@.take(i as int) =~= categories@);
        assert(api_keys@.take(i as int) =~= api_keys@);
        Backends { targets }
    }

    /// The backend of a category.
    pub fn get(&self, name: &str) -> (target: Option<&BackendTarget>)
        ensures
            match target {
                Some(t) => self@.contains_key(name@) && *t == self@[name@],
                None => !self@.contains_key(name@),
            },
    {
        self.targets.get(name)
    }
}

/// The default backend, with its key.
pub fn default_target(route: &DefaultRoute, api_key: Option<String>) -> (target: BackendTarget)
    ensures
        target == (BackendTarget { base_url: route.base_url, api_key, model: route.model }),
{
    BackendTarget { base_url: route.base_url.clone(), api_key, model: route.model.clone() }
}

/// What came back from a backend: the status, also in words, and the rest.
pub struct Answer<P> {
    pub status: u16,
    pub status_text: String,
    pub payload: P,
}

/// The complaint about a backend that cannot be reached.
pub open spec fn unreachable(url: Seq<char>, cause: Seq<char>) -> Seq<char> {
    "request to backend "@ + url + " failed: "@ + cause
}

/// The complaint about an answer that is no JSON.
pub open spec fn unreadable(url: Seq<char>, cause: Seq<char>) -> Seq<char> {
    "failed to parse response from backend "@ + url + ": "@ + cause
}

/// The complaint about a status that is no success.
pub open spec fn refusal(url: Seq<char>, status: Seq<char>, payload: Seq<char>) -> Seq<char> {
    "backend "@ + url + " returned "@ + status + ": "@ + payload
}

/// Whether a status is a success.
pub open spec fn is_success_status(status: u16) -> bool {
    200 <= status < 300
}

/// Whether a status is a success.
fn is_success(status: u16) -> (success: bool)
    ensures
        success == is_success_status(status),
{
    200 <= status && status < 300
}

/// The complaint about a backend that cannot be reached.
fn unreachable_message(url: &str, cause: &str) -> (text: String)
    ensures
        text@ == unreachable(url@, cause@),
{
    "request to backend ".to_string().concat(url).concat(" failed: ").concat(cause)
}

/// The complaint about a status that is no success, with what was sent along.
fn refusal_message(url: &str, status: &str, payload: &str) -> (text: String)
    ensures
        text@ == refusal(url@, status@, payload@),
{
    "backend ".to_string().concat(url).concat(" returned ").concat(status).concat(": ").concat(
        payload,
    )
}

/// What it means that a backend has answered with a payload, or why that is no
/// JSON, or that it could not be reached. An answer that is no JSON is
/// unreadable, whatever the status; with a success status the payload counts;
/// else the complaint quotes the status and the payload.
pub fn completion_outcome(
    url: &str,
    sent: Result<Answer<Result<Value, String>>, String>,
) -> (outcome: Result<Value, String>)
    ensures
        outcome is Ok <==> (sent matches Ok(answer) && is_success_status(answer.status)
            && answer.payload is Ok),
        match sent {
            Err(cause) => outcome matches Err(text) && text@ == unreachable(url@, cause@),
            Ok(answer) => match (answer.payload, outcome) {
                (Ok(payload), Ok(value)) => value == payload,
                (Ok(payload), Err(text)) => text@ == refusal(
                    url@,
                    answer.status_text@,
                    json_text(json_tree(payload)),
                ),
                (Err(cause), Err(text)) => text@ == unreadable(url@, cause@),
                (Err(_), Ok(_)) => false,
            },
        },
{
    match sent {
        Err(cause) => Err(unreachable_message(url, cause.as_str())),
        Ok(answer) => match answer.payload {
            Ok(value) => if is_success(answer.status) {
                Ok(value)
            } else {
                Err(
                    refusal_message(
                        url,
                        answer.status_text.as_str(),
                        compact_text(&value).as_str(),
                    ),
                )
            },
            Err(cause) => Err(
                "failed to parse response from backend ".to_string().concat(url).concat(
                    ": ",
                ).concat(cause.as_str()),
            ),
        },
    }
}

/// A complaint that waits for the text of a refused answer.
pub struct Refusal {
    url: String,
    status_text: String,
}

impl Refusal {
    /// The complaint, once the text has been read.
    pub closed spec fn complaint(&self, payload: Seq<char>) -> Seq<char> {
        refusal(self.url@, self.status_text@, payload)
    }

    /// The complaint, with the text that has been read.
    pub fn message(&self, payload: &str) -> (text: String)
        ensures
            text@ == self.complaint(payload@),
    {
        refusal_message(self.url.as_str(), self.status_text.as_str(), payload)
    }
}

/// What becomes of a call whose answer is to be streamed.
pub enum StreamOutcome<R> {
    /// The answer is piped through, unread.
    Piped(R),
    /// The text of the answer is to be read for the complaint.
    Refused(R, Refusal),
    /// The backend could not be reached.
    Failed(String),
}

/// What it means that a backend has sent the head of an answer that is to be
/// streamed, or could not be reached. With a success status the answer is piped
/// through as it came; else the complaint quotes the status and the text of the
/// answer.
pub fn stream_outcome<R>(url: &str, sent: Result<Answer<R>, String>) -> (outcome: StreamOutcome<R>)
    ensures
        outcome is Piped <==> (sent matches Ok(answer) && is_success_status(answer.status)),
        match (sent, outcome) {
            (Ok(answer), StreamOutcome::Piped(reply)) => reply == answer.payload,
            (Ok(answer), StreamOutcome::Refused(reply, refused)) => {
                &&& reply == answer.payload
                &&& forall|text: Seq<char>| #[trigger]
                    refused.complaint(text) == refusal(url@, answer.status_text@, text)
            },
            (Err(cause), StreamOutcome::Failed(text)) => text@ == unreachable(url@, cause@),
            _ => false,
        },
{
    match sent {
        Err(cause) => StreamOutcome::Failed(unreachable_message(url, cause.as_str())),
        Ok(answer) => if is_success(answer.status) {
            StreamOutcome::Piped(answer.payload)
        } else {
            StreamOutcome::Refused(
                answer.payload,
                Refusal { url: url.to_string(), status_text: answer.status_text },
            )
        },
    }
}

/// Every category has a backend: that of the last category of its name.
pub proof fn law_every_category_has_its_backend(
    categories: Seq<Category>,
    api_keys: Seq<Option<String>>,
    i: int,
)
    requires
        api_keys.len() == categories.len(),
        0 <= i < categories.len(),
    ensures
        category_targets(categories, api_keys).contains_key(categories[i].name@),
        (forall|j: int| i < j < categories.len() ==> (#[trigger] categories[j]).name@ != categories[i].name@)
            ==> category_targets(categories, api_keys)[categories[i].name@] == category_target(
            categories[i],
            api_keys[i],
        ),
    decreases categories.len(),
{
    let last = categories.len() - 1;
    if i < last {
        assert(categories.drop_last()[i] == categories[i]);
        assert(forall|j: int| 0 <= j < last ==> categories.drop_last()[j] == categories[j]);
        law_every_category_has_its_backend(categories.drop_last(), api_keys.drop_last(), i);
    }
}

/// Slashes at the end of a base address make no difference.
pub proof fn law_trailing_slashes_make_no_difference(base_url: Seq<char>)
    ensures
        completions_url(base_url.push('/')) == completions_url(base_url),
{
    assert(base_url.push('/').drop_last() =~= base_url);
}

/// The address of chat completions is the base address, where that does not end
/// in a slash, followed by the path.
pub proof fn law_address_follows_the_base(base_url: Seq<char>)
    requires
        base_url.len() == 0 || base_url.last() != '/',
    ensures
        completions_url(base_url) == base_url + "/v1/chat/completions"@,
{
}

/// Categories alone have backends: whatever name has one is that of a category,
/// and the backend has the address, the model and the key of a category of that
/// name.
pub proof fn law_backends_are_those_of_categories(
    categories: Seq<Category>,
    api_keys: Seq<Option<String>>,
    name: Seq<char>,
)
    requires
        api_keys.len() == categories.len(),
    ensures
        category_targets(categories, api_keys).contains_key(name) <==> exists|i: int|
            0 <= i < categories.len() && (#[trigger] categories[i]).name@ == name,
        category_targets(categories, api_keys).contains_key(name) ==> exists|i: int|
            0 <= i < categories.len() && {
                let target = category_targets(categories, api_keys)[name];
                &&& (#[trigger] categories[i]).name@ == name
                &&& target.base_url == categories[i].backend.base_url
                &&& target.model == categories[i].backend.model
                &&& target.api_key == api_keys[i]
                &&& forall|j: int|
                    i < j < categories.len() ==> (#[trigger] categories[j]).name@ != name
            },
    decreases categories.len(),
{
    if categories.len() > 0 {
        let last = categories.len() - 1;
        let rest = categories.drop_last();
        law_backends_are_those_of_categories(rest, api_keys.drop_last(), name);
        assert(forall|j: int| 0 <= j < last ==> rest[j] == categories[j]);
        assert(forall|j: int| 0 <= j < last ==> api_keys.drop_last()[j] == api_keys[j]);
        if categories[last].name@ != name && category_targets(rest, api_keys.drop_last()).contains_key(
            name,
        ) {
            let i = choose|i: int|
                0 <= i < rest.len() && (#[trigger] rest[i]).name@ == name && (forall|j: int|
                    i < j < rest.len() ==> (#[trigger] rest[j]).name@ != name) && category_targets(
                    rest,
                    api_keys.drop_last(),
                )[name].base_url == rest[i].backend.base_url && category_targets(
                    rest,
                    api_keys.drop_last(),
                )[name].model == rest[i].backend.model && category_targets(
                    rest,
                    api_keys.drop_last(),
                )[name].api_key == api_keys.drop_last()[i];
            assert(categories[i].name@ == name);
        }
    }
}

/// A status is a success from 200 to 299, and each complaint quotes all that it
/// is given.
pub proof fn law_complaints_quote_what_they_are_given(
    url: Seq<char>,
    status: Seq<char>,
    code: u16,
    text: Seq<char>,
)
    ensures
        is_success_status(code) <==> code / 100 == 2,
        unreachable(url, text) == "request to backend "@ + url + " failed: "@ + text,
        unreadable(url, text) == "failed to parse response from backend "@ + url + ": "@ + text,
        refusal(url, status, text) == "backend "@ + url + " returned "@ + status + ": "@ + text,
{
}

} // verus!
