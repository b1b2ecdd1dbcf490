use subfeed::{FetchError, Suggestions};

#[test]
fn the_request_address() {
    assert_eq!(
        Suggestions::request_url("rust lang", "https://example.org", "en"),
        "https://example.org/api/v1/search/suggestions?q=rust lang&hl=en"
    );
    assert_eq!(Suggestions::request_url("", "", ""), "/api/v1/search/suggestions?q=&hl=");
}

#[test]
fn character_references_in_suggestions_are_decoded() {
    let body = r#"{"query":"tom &amp; jerry","suggestions":["tom &amp; jerry","rock &#39;n&#39; roll","plain","a &lt; b &unknown; c"]}"#;
    let parsed = Suggestions::from_response(body).unwrap();
    assert_eq!(parsed.query, "tom &amp; jerry");
    assert_eq!(parsed.suggestions, vec!["tom & jerry", "rock 'n' roll", "plain", "a < b &unknown; c"]);
}

#[test]
fn a_response_without_suggestions() {
    let parsed = Suggestions::from_response(r#"{"query":"q","suggestions":[],"more":1}"#);
    assert_eq!(parsed, Ok(Suggestions { query: "q".to_string(), suggestions: vec![] }));
}

#[test]
fn a_response_that_is_no_document() {
    assert_eq!(Suggestions::from_response("<html>"), Err(FetchError::NotJson));
    assert_eq!(Suggestions::from_response(""), Err(FetchError::NotJson));
}

#[test]
fn a_response_of_another_shape() {
    for body in [
        r#"{"suggestions":["a"]}"#,
        r#"{"query":"q"}"#,
        r#"{"query":7,"suggestions":["a"]}"#,
        r#"{"query":"q","suggestions":"a"}"#,
        r#"{"query":"q","suggestions":["a",7,"b"]}"#,
        r#"{"query":"q","suggestions":[null]}"#,
        r#"["q",["a"]]"#,
        "null",
    ] {
        assert_eq!(Suggestions::from_response(body), Err(FetchError::Malformed), "{}", body);
    }
}

#[test]
fn a_document_handed_over_directly() {
    let document: serde_json::Value =
        serde_json::from_str(r#"{"query":"q","suggestions":["&quot;x&quot;"]}"#).unwrap();
    assert_eq!(
        Suggestions::from_document(&document),
        Ok(Suggestions { query: "q".to_string(), suggestions: vec!["\"x\"".to_string()] })
    );
}

#[test]
fn fetching_asks_the_address_and_reads_the_response() {
    let fetch = |url: String| -> Result<String, FetchError> {
        assert_eq!(url, "https://example.org/api/v1/search/suggestions?q=cats&hl=de");
        Ok(r#"{"query":"cats","suggestions":["cats &amp; dogs"]}"#.to_string())
    };
    assert_eq!(
        Suggestions::fetch_suggestions("cats", "https://example.org", "de", &fetch),
        Ok(Suggestions { query: "cats".to_string(), suggestions: vec!["cats & dogs".to_string()] })
    );
}

#[test]
fn a_failed_request_is_passed_on() {
    let error = FetchError::Transport("offline".to_string());
    let fetch = |_url: String| -> Result<String, FetchError> { Err(FetchError::Transport("offline".to_string())) };
    assert_eq!(
        Suggestions::fetch_suggestions("cats", "https://example.org", "de", &fetch),
        Err(error)
    );
}
