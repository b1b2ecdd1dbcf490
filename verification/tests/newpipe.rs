use subfeed::newpipe::{channel_id_of_url, read_newpipe, subscriptions_of_document};
use subfeed::{ParseError, Subscription, Subscriptions};

fn list(entries: &[(&str, &str)]) -> Subscriptions {
    Subscriptions { channels: entries.iter().map(|(id, name)| Subscription::new(id, name)).collect() }
}

#[test]
fn two_entries_of_which_one_has_no_channel_id() {
    let file = r#"{"app_version":"0.21.0","app_version_int":966,"subscriptions":[
        {"service_id":0,"url":"https://www.youtube.com/channel/UC1","name":"First"},
        {"service_id":1,"url":"https://soundcloud.com/someone","name":"Second"}]}"#;
    assert_eq!(read_newpipe(file.as_bytes()), Ok(list(&[("UC1", "First")])));
}

#[test]
fn entries_are_read_in_order() {
    let file = r#"{"subscriptions":[
        {"url":"https://www.youtube.com/channel/UC2","name":"Second"},
        {"url":"https://www.youtube.com/channel/UC1","name":"First"},
        {"url":"https://www.youtube.com/channel/UC3","name":"Third \"quoted\""}]}"#;
    assert_eq!(
        read_newpipe(file.as_bytes()),
        Ok(list(&[("UC2", "Second"), ("UC1", "First"), ("UC3", "Third \"quoted\"")]))
    );
}

#[test]
fn entries_that_stand_for_no_channel_are_left_out() {
    let file = r#"{"subscriptions":[
        {"url":"https://www.youtube.com/channel/","name":"nothing behind the prefix"},
        {"url":"http://www.youtube.com/channel/UC0","name":"another scheme"},
        {"url":17,"name":"address is a number"},
        {"url":"https://www.youtube.com/channel/UC4"},
        {"url":"https://www.youtube.com/channel/UC5","name":null},
        "not an object",
        {"name":"no address"},
        {"url":"https://www.youtube.com/channel/UC6","name":"kept"}]}"#;
    assert_eq!(read_newpipe(file.as_bytes()), Ok(list(&[("UC6", "kept")])));
}

#[test]
fn a_repeated_channel_is_taken_once() {
    let file = r#"{"subscriptions":[
        {"url":"https://www.youtube.com/channel/UC1","name":"First"},
        {"url":"https://www.youtube.com/channel/UC1","name":"Again"}]}"#;
    assert_eq!(read_newpipe(file.as_bytes()), Ok(list(&[("UC1", "First")])));
}

#[test]
fn an_empty_list_holds_no_subscriptions() {
    assert_eq!(read_newpipe(br#"{"subscriptions":[]}"#), Ok(Subscriptions::empty()));
}

#[test]
fn text_that_is_no_document_is_refused() {
    assert_eq!(read_newpipe(b"UC1,u,First\n"), Err(ParseError::NotJson));
    assert_eq!(read_newpipe(br#"{"subscriptions":["#), Err(ParseError::NotJson));
    assert_eq!(read_newpipe(b""), Err(ParseError::NotJson));
}

#[test]
fn a_document_that_is_no_text_is_refused() {
    assert_eq!(read_newpipe(&[b'{', 0xff, b'}']), Err(ParseError::NotText));
}

#[test]
fn a_document_without_a_list_is_refused() {
    assert_eq!(read_newpipe(br#"{"app_version":"0.21.0"}"#), Err(ParseError::NoSubscriptionList));
    assert_eq!(read_newpipe(br#"{"subscriptions":{"url":"x"}}"#), Err(ParseError::NoSubscriptionList));
    assert_eq!(read_newpipe(br#"[{"url":"x","name":"y"}]"#), Err(ParseError::NoSubscriptionList));
    assert_eq!(read_newpipe(b"17"), Err(ParseError::NoSubscriptionList));
}

#[test]
fn the_channel_id_is_what_follows_the_prefix() {
    assert_eq!(channel_id_of_url("https://www.youtube.com/channel/UCabc"), Some("UCabc".to_string()));
    assert_eq!(
        channel_id_of_url("https://www.youtube.com/channel/UCabc/videos"),
        Some("UCabc/videos".to_string())
    );
    assert_eq!(channel_id_of_url("https://www.youtube.com/channel/"), None);
    assert_eq!(channel_id_of_url("https://www.youtube.com/user/someone"), None);
    assert_eq!(channel_id_of_url("https://www.youtube.com/channel"), None);
    assert_eq!(channel_id_of_url(""), None);
    assert_eq!(channel_id_of_url("https://www.youtube.com/channel/ü"), Some("ü".to_string()));
}

#[test]
fn a_document_handed_over_directly_is_read_the_same() {
    let text = r#"{"subscriptions":[{"url":"https://www.youtube.com/channel/UC9","name":"Nine"}]}"#;
    let document: serde_json::Value = serde_json::from_str(text).unwrap();
    assert_eq!(subscriptions_of_document(&document), Ok(list(&[("UC9", "Nine")])));
    let other = serde_json::Value::Array(vec![]);
    assert_eq!(subscriptions_of_document(&other), Err(ParseError::NoSubscriptionList));
}
