use subfeed::{import_selected_file, ImportError, ParseError, Subscription, Subscriptions};

fn list(entries: &[(&str, &str)]) -> Subscriptions {
    Subscriptions { channels: entries.iter().map(|(id, name)| Subscription::new(id, name)).collect() }
}

const TABLE: &str = "Channel Id,Channel Url,Channel Title\nUC1,u,First\nUC2,u,Second\n";
const DOCUMENT: &str = r#"{"subscriptions":[{"url":"https://www.youtube.com/channel/UC7","name":"Seven"}]}"#;

#[test]
fn a_table_announced_as_a_table() {
    assert_eq!(
        Subscriptions::read_subs("text/csv", TABLE.as_bytes()),
        Ok(list(&[("UC1", "First"), ("UC2", "Second")]))
    );
}

#[test]
fn a_document_announced_as_a_document() {
    assert_eq!(
        Subscriptions::read_subs("application/json", DOCUMENT.as_bytes()),
        Ok(list(&[("UC7", "Seven")]))
    );
}

#[test]
fn a_document_announced_as_a_table_is_read_by_the_other_reader() {
    assert_eq!(Subscriptions::read_subs("text/csv", DOCUMENT.as_bytes()), Ok(list(&[("UC7", "Seven")])));
}

#[test]
fn a_table_announced_as_something_else_is_read_by_the_other_reader() {
    assert_eq!(
        Subscriptions::read_subs("", TABLE.as_bytes()),
        Ok(list(&[("UC1", "First"), ("UC2", "Second")]))
    );
    assert_eq!(
        Subscriptions::read_subs("application/octet-stream", TABLE.as_bytes()),
        Ok(list(&[("UC1", "First"), ("UC2", "Second")]))
    );
}

#[test]
fn the_error_is_that_of_the_reader_tried_last() {
    let neither = b"UC1,u,\"open";
    assert_eq!(Subscriptions::read_subs("text/csv", neither), Err(ParseError::NotJson));
    assert_eq!(Subscriptions::read_subs("application/json", neither), Err(ParseError::BrokenTable));
    assert_eq!(Subscriptions::read_subs("text/csv", &[0xff]), Err(ParseError::NotText));
}

#[test]
fn a_document_without_a_list_read_first_as_a_table() {
    // The quotes of a JSON document stand inside plain fields: no table.
    let no_list = br#"{"app_version":"0.21.0"}"#;
    assert_eq!(Subscriptions::read_subs("text/csv", no_list), Err(ParseError::NoSubscriptionList));
}

#[test]
fn reading_the_same_file_twice_gives_the_same_list() {
    let first = Subscriptions::read_subs("text/csv", TABLE.as_bytes());
    let second = Subscriptions::read_subs("text/csv", TABLE.as_bytes());
    assert_eq!(first, second);
    let doubled = format!("{}{}", TABLE, "UC1,u,First\nUC2,u,Second\n");
    assert_eq!(Subscriptions::read_subs("text/csv", doubled.as_bytes()), first);
}

#[test]
fn nothing_selected_is_an_error() {
    assert_eq!(import_selected_file(None), Err(ImportError::NoFileSelected));
}

#[test]
fn an_unreadable_selection_is_a_parse_error() {
    assert_eq!(
        import_selected_file(Some(("text/csv", &b"a\"b"[..]))),
        Err(ImportError::Parse(ParseError::NotJson))
    );
}

#[test]
fn an_import_hands_back_the_list_and_its_stored_text() {
    let imported = import_selected_file(Some(("text/csv", TABLE.as_bytes()))).unwrap();
    assert_eq!(imported.subscriptions, list(&[("UC1", "First"), ("UC2", "Second")]));
    assert_eq!(imported.stored, "v1\nUC1\tFirst\nUC2\tSecond\n");
    assert_eq!(Subscriptions::load(Some(&imported.stored)), Ok(imported.subscriptions));
}
