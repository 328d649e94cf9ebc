use semantic_router::embeddings::split_model_id;

#[test]
fn a_model_identifier_is_split_at_its_first_slash() {
    let parts = split_model_id("sentence-transformers/all-MiniLM-L6-v2").unwrap();
    assert_eq!(parts, ("sentence-transformers".to_string(), "all-MiniLM-L6-v2".to_string()));
    let parts = split_model_id("a/b/c").unwrap();
    assert_eq!(parts, ("a".to_string(), "b/c".to_string()));
    let parts = split_model_id("/").unwrap();
    assert_eq!(parts, (String::new(), String::new()));
}

#[test]
fn a_model_identifier_without_a_slash_is_refused() {
    let error = split_model_id("minilm").unwrap_err();
    assert_eq!(error.model_id, "minilm");
    assert_eq!(
        error.message(),
        "embedding.model_id must be in 'owner/name' form, got 'minilm'"
    );
}
