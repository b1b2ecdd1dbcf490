use subfeed::{
    CommonVideo, FeedCache, FeedStatus, FetchError, Subscription, SubscriptionVideos, Subscriptions,
};

fn list(ids: &[&str]) -> Subscriptions {
    Subscriptions { channels: ids.iter().map(|id| Subscription::new(id, id)).collect() }
}

fn video(id: &str, published: u64) -> CommonVideo {
    CommonVideo {
        id: id.to_string(),
        title: String::new(),
        author: String::new(),
        published,
        published_text: String::new(),
        views: 0,
        thumbnails: vec![],
    }
}

fn many(count: u64) -> Vec<CommonVideo> {
    (0..count).map(|k| video(&format!("v{}", k), 1_000_000 - k)).collect()
}

fn shown(cache: &FeedCache) -> Vec<String> {
    cache.visible_videos().iter().map(|v| v.id.clone()).collect()
}

#[test]
fn without_subscriptions_there_is_nothing_to_fetch() {
    let mut cache = FeedCache::new("https://example.org", Subscriptions::empty());
    assert_eq!(cache.status(), FeedStatus::NoSubscriptions);
    assert!(!cache.set_inputs("https://other.example", Subscriptions::empty()));
    assert_eq!(cache.status(), FeedStatus::NoSubscriptions);
    assert!(cache.visible_videos().is_empty());
    assert!(!cache.has_more());
}

#[test]
fn a_round_for_the_current_inputs_is_taken() {
    let subs = list(&["a", "b"]);
    let mut cache = FeedCache::new("https://example.org", subs.clone());
    assert_eq!(cache.status(), FeedStatus::Loading);
    let outcomes: Vec<SubscriptionVideos> = vec![
        Ok(vec![video("a1", 10), video("a2", 5)]),
        Err(FetchError::Transport("d".to_string())),
    ];
    assert!(cache.settle("https://example.org", &subs, outcomes));
    assert_eq!(cache.status(), FeedStatus::Ready);
    assert_eq!(shown(&cache), vec!["a1", "a2"]);
    assert_eq!(cache.failures().len(), 1);
    assert_eq!(cache.failures()[0].channel_id, "b");
    assert!(!cache.has_more());
}

#[test]
fn a_round_for_earlier_inputs_is_discarded() {
    let earlier = list(&["a"]);
    let later = list(&["a", "b"]);
    let mut cache = FeedCache::new("https://example.org", earlier.clone());
    assert!(cache.set_inputs("https://example.org", later.clone()));
    assert!(!cache.settle("https://example.org", &earlier, vec![Ok(vec![video("stale", 1)])]));
    assert_eq!(cache.status(), FeedStatus::Loading);
    assert!(cache.visible_videos().is_empty());
    assert!(cache.settle("https://example.org", &later, vec![Ok(vec![video("fresh", 2)]), Ok(vec![])]));
    assert_eq!(shown(&cache), vec!["fresh"]);
    assert!(!cache.settle("https://example.org", &earlier, vec![Ok(vec![video("stale", 1)])]));
    assert_eq!(shown(&cache), vec!["fresh"]);
}

#[test]
fn a_round_from_another_endpoint_is_discarded() {
    let subs = list(&["a"]);
    let mut cache = FeedCache::new("https://one.example", subs.clone());
    assert!(cache.set_inputs("https://two.example", subs.clone()));
    assert!(!cache.settle("https://one.example", &subs, vec![Ok(vec![video("old", 1)])]));
    assert_eq!(cache.status(), FeedStatus::Loading);
}

#[test]
fn a_round_with_the_wrong_number_of_outcomes_is_discarded() {
    let subs = list(&["a", "b"]);
    let mut cache = FeedCache::new("s", subs.clone());
    assert!(!cache.settle("s", &subs, vec![Ok(vec![video("x", 1)])]));
    assert_eq!(cache.status(), FeedStatus::Loading);
}

#[test]
fn the_same_inputs_again_change_nothing() {
    let subs = list(&["a"]);
    let mut cache = FeedCache::new("s", subs.clone());
    assert!(cache.settle("s", &subs, vec![Ok(many(3))]));
    assert!(!cache.set_inputs("s", subs.clone()));
    assert_eq!(cache.status(), FeedStatus::Ready);
    assert_eq!(cache.visible_videos().len(), 3);
}

#[test]
fn new_inputs_drop_the_feed_and_a_new_round_starts_from_the_first_page() {
    let subs = list(&["a"]);
    let mut cache = FeedCache::new("s", subs.clone());
    assert!(cache.settle("s", &subs, vec![Ok(many(250))]));
    assert_eq!(cache.visible_videos().len(), 100);
    assert!(cache.has_more());
    cache.load_more();
    assert_eq!(cache.visible_videos().len(), 200);
    cache.load_more();
    assert_eq!(cache.visible_videos().len(), 250);
    assert!(!cache.has_more());
    cache.load_more();
    assert_eq!(cache.visible_videos().len(), 250);

    let more = list(&["a", "b"]);
    assert!(cache.set_inputs("s", more.clone()));
    assert_eq!(cache.status(), FeedStatus::Loading);
    assert!(cache.visible_videos().is_empty());
    cache.load_more();
    assert!(cache.visible_videos().is_empty());
    assert!(cache.settle("s", &more, vec![Ok(many(120)), Ok(many(120))]));
    assert_eq!(cache.visible_videos().len(), 100);
    assert!(cache.has_more());
}
