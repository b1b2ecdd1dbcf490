use subfeed::store::decode;
use subfeed::{StorageError, Subscription, Subscriptions};

fn list(entries: &[(&str, &str)]) -> Subscriptions {
    Subscriptions { channels: entries.iter().map(|(id, name)| Subscription::new(id, name)).collect() }
}

#[test]
fn the_stored_text_of_a_list() {
    assert_eq!(list(&[("UC1", "First"), ("UC2", "Second")]).save(), "v1\nUC1\tFirst\nUC2\tSecond\n");
    assert_eq!(Subscriptions::empty().save(), "v1\n");
}

#[test]
fn backslash_tab_and_line_feed_are_escaped() {
    let subs = list(&[("a\\b", "tab\there"), ("c", "two\nlines"), ("", "")]);
    assert_eq!(subs.save(), "v1\na\\\\b\ttab\\there\nc\ttwo\\nlines\n\t\n");
}

#[test]
fn what_was_saved_is_loaded_back() {
    let subs = list(&[
        ("UC1", "First"),
        ("UC2", "with \\ backslash, \t tab and \n line feed"),
        ("UC3", ""),
        ("", "no id"),
        ("UC4", "Üben 日本語 \r \"quoted\" \\n"),
    ]);
    assert_eq!(Subscriptions::load(Some(&subs.save())), Ok(subs));
    assert_eq!(Subscriptions::load(Some(&Subscriptions::empty().save())), Ok(Subscriptions::empty()));
}

#[test]
fn saving_enforces_unique_ids() {
    let subs = list(&[("a", "1"), ("b", "2"), ("a", "3")]);
    assert_eq!(subs.save(), "v1\na\t1\nb\t2\n");
    assert_eq!(Subscriptions::load(Some(&subs.save())), Ok(list(&[("a", "1"), ("b", "2")])));
}

#[test]
fn loading_enforces_unique_ids() {
    assert_eq!(Subscriptions::load(Some("v1\na\t1\na\t2\nb\t3\n")), Ok(list(&[("a", "1"), ("b", "3")])));
}

#[test]
fn nothing_stored_is_the_empty_list() {
    assert_eq!(Subscriptions::load(None), Ok(Subscriptions::empty()));
}

#[test]
fn text_that_is_no_stored_list_is_corrupt() {
    for text in [
        "",
        "v1",
        "v2\n",
        " v1\n",
        "v1\nUC1\n",
        "v1\nUC1\tFirst",
        "v1\nUC1\tFirst\tmore\n",
        "v1\nUC1\tbad \\x escape\n",
        "v1\nUC1\tFirst\\",
        "v1\nUC1\tFirst\n\n",
        "(channels:[(id:\"UC1\",name:\"First\")])",
    ] {
        assert_eq!(Subscriptions::load(Some(text)), Err(StorageError::Corrupt), "{:?}", text);
    }
}

#[test]
fn decode_reads_the_lines_as_they_are() {
    assert_eq!(
        decode("v1\na\t1\na\t2\n"),
        Some(vec![Subscription::new("a", "1"), Subscription::new("a", "2")])
    );
    assert_eq!(decode("v1\n"), Some(vec![]));
    assert_eq!(decode("v1\nx\\ty\t\\\\\\n\n"), Some(vec![Subscription::new("x\ty", "\\\n")]));
    assert_eq!(decode("nonsense"), None);
}
