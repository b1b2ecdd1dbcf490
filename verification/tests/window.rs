use subfeed::{advance, has_more, initial_window};

#[test]
fn initial_window_is_one_page_at_most() {
    assert_eq!(initial_window(0), 0);
    assert_eq!(initial_window(42), 42);
    assert_eq!(initial_window(100), 100);
    assert_eq!(initial_window(250), 100);
}

#[test]
fn two_steps_reveal_a_feed_of_250() {
    let total = 250;
    let first = initial_window(total);
    assert_eq!(first, 100);
    assert!(has_more(first, total));
    let second = advance(first, total);
    assert_eq!(second, 200);
    assert!(has_more(second, total));
    let third = advance(second, total);
    assert_eq!(third, 250);
    assert!(!has_more(third, total));
    assert_eq!(advance(third, total), 250);
}
