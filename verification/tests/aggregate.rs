use subfeed::{
    aggregate, fetch_and_aggregate, sort_newest_first, AggregatedFeed, ChannelFailure, CommonVideo,
    FetchError, FetchRequest, Resource, Subscription, SubscriptionVideos, Subscriptions,
};

fn list(ids: &[&str]) -> Subscriptions {
    Subscriptions { channels: ids.iter().map(|id| Subscription::new(id, id)).collect() }
}

fn video(id: &str, published: u64) -> CommonVideo {
    CommonVideo {
        id: id.to_string(),
        title: format!("title of {}", id),
        author: "someone".to_string(),
        published,
        published_text: "a while ago".to_string(),
        views: 7,
        thumbnails: vec![],
    }
}

fn failure(what: &str) -> FetchError {
    FetchError::Transport(what.to_string())
}

fn ids(videos: &[CommonVideo]) -> Vec<String> {
    videos.iter().map(|v| v.id.clone()).collect()
}

fn is_newest_first(videos: &[CommonVideo]) -> bool {
    videos.windows(2).all(|pair| pair[0].published >= pair[1].published)
}

#[test]
fn five_subscriptions_of_which_two_fail() {
    let subs = list(&["c1", "c2", "c3", "c4", "c5"]);
    let run = |channel: &str, count: u64, base: u64| -> Vec<CommonVideo> {
        (0..count).map(|k| video(&format!("{}-{}", channel, k), base - 10 * k)).collect()
    };
    let outcomes: Vec<SubscriptionVideos> = vec![
        Ok(run("c1", 10, 1000)),
        Err(failure("c2 is down")),
        Ok(run("c3", 5, 995)),
        Err(failure("c4 timed out")),
        Ok(run("c5", 2, 2000)),
    ];
    let feed = aggregate(&subs, outcomes);
    assert_eq!(feed.videos.len(), 17);
    assert_eq!(feed.failures.len(), 2);
    assert!(is_newest_first(&feed.videos));
    assert_eq!(
        feed.failures,
        vec![
            ChannelFailure { channel_id: "c2".to_string(), error: failure("c2 is down") },
            ChannelFailure { channel_id: "c4".to_string(), error: failure("c4 timed out") },
        ]
    );
    assert_eq!(&ids(&feed.videos)[..4], &["c5-0", "c5-1", "c1-0", "c3-0"]);
}

#[test]
fn no_subscriptions_no_feed_no_failures() {
    let feed = aggregate(&Subscriptions::empty(), vec![]);
    assert_eq!(feed, AggregatedFeed { videos: vec![], failures: vec![] });
}

#[test]
fn no_subscriptions_no_fetch() {
    let fetch = |_request: FetchRequest| -> SubscriptionVideos { panic!("nothing is to be fetched") };
    let feed = fetch_and_aggregate(&Subscriptions::empty(), "https://example.org", false, &fetch);
    assert!(feed.videos.is_empty());
    assert!(feed.failures.is_empty());
    let dispatched: Vec<u8> = Subscriptions::empty().fetch_videos("s", true, &|_r: FetchRequest| 1u8);
    assert!(dispatched.is_empty());
}

#[test]
fn channels_that_answer_with_nothing_are_no_failures() {
    let feed = aggregate(&list(&["a", "b"]), vec![Ok(vec![]), Ok(vec![])]);
    assert_eq!(feed, AggregatedFeed { videos: vec![], failures: vec![] });
}

#[test]
fn a_round_in_which_every_channel_fails() {
    let feed = aggregate(&list(&["a", "b"]), vec![Err(failure("x")), Err(failure("y"))]);
    assert!(feed.videos.is_empty());
    assert_eq!(ids_of_failures(&feed), vec!["a", "b"]);
}

fn ids_of_failures(feed: &AggregatedFeed) -> Vec<String> {
    feed.failures.iter().map(|f| f.channel_id.clone()).collect()
}

#[test]
fn videos_of_one_instant_keep_dispatch_order() {
    let subs = list(&["a", "b", "c"]);
    let outcomes: Vec<SubscriptionVideos> = vec![
        Ok(vec![video("a1", 50), video("a2", 20), video("a3", 20)]),
        Ok(vec![video("b1", 50), video("b2", 30), video("b3", 20)]),
        Ok(vec![video("c1", 60), video("c2", 50), video("c3", 10)]),
    ];
    let feed = aggregate(&subs, outcomes);
    assert_eq!(ids(&feed.videos), vec!["c1", "a1", "b1", "c2", "b2", "a2", "a3", "b3", "c3"]);
}

#[test]
fn the_feed_holds_exactly_the_videos_fetched() {
    let subs = list(&["a", "b", "c"]);
    let a = vec![video("a1", 3), video("a2", 9), video("a3", 1)];
    let c = vec![video("c1", 9), video("c2", 9)];
    let feed = aggregate(&subs, vec![Ok(a.clone()), Err(failure("b")), Ok(c.clone())]);
    assert_eq!(feed.videos.len(), a.len() + c.len());
    assert_eq!(feed.failures.len() + 2, subs.channels.len());
    for v in a.iter().chain(c.iter()) {
        assert_eq!(feed.videos.iter().filter(|w| *w == v).count(), 1);
    }
    assert_eq!(ids(&feed.videos), vec!["a2", "c1", "c2", "a1", "a3"]);
}

#[test]
fn sorting_is_stable_and_newest_first() {
    let videos = vec![video("p", 5), video("q", 7), video("r", 5), video("s", 9), video("t", 7), video("u", 0)];
    let sorted = sort_newest_first(videos.clone());
    assert_eq!(ids(&sorted), vec!["s", "q", "t", "p", "r", "u"]);
    assert_eq!(sort_newest_first(sorted.clone()), sorted);
    assert_eq!(sort_newest_first(vec![]), vec![]);
    let extreme = vec![video("min", 0), video("max", u64::MAX)];
    assert_eq!(ids(&sort_newest_first(extreme)), vec!["max", "min"]);
}

#[test]
fn one_request_per_subscription_in_order() {
    let subs = list(&["c1", "c2", "c3"]);
    let requests: Vec<FetchRequest> = subs.fetch_videos("https://example.org", false, &|r: FetchRequest| r);
    assert_eq!(
        requests,
        vec![
            FetchRequest { server: "https://example.org".to_string(), channel_id: "c1".to_string(), resource: Resource::DirectVideos },
            FetchRequest { server: "https://example.org".to_string(), channel_id: "c2".to_string(), resource: Resource::DirectVideos },
            FetchRequest { server: "https://example.org".to_string(), channel_id: "c3".to_string(), resource: Resource::DirectVideos },
        ]
    );
    let feeds: Vec<Resource> = subs.fetch_videos("s", true, &|r: FetchRequest| r.resource);
    assert_eq!(feeds, vec![Resource::FeedVideos, Resource::FeedVideos, Resource::FeedVideos]);
    let channels: Vec<(String, Resource)> = subs.fetch_channels("s", &|r: FetchRequest| (r.channel_id, r.resource));
    assert_eq!(
        channels,
        vec![
            ("c1".to_string(), Resource::Channel),
            ("c2".to_string(), Resource::Channel),
            ("c3".to_string(), Resource::Channel),
        ]
    );
}

#[test]
fn a_failing_fetch_stops_no_other() {
    let subs = list(&["good", "bad", "fine"]);
    let fetch = |request: FetchRequest| -> SubscriptionVideos {
        if request.channel_id == "bad" {
            Err(failure("bad is down"))
        } else {
            Ok(vec![video(&request.channel_id, request.channel_id.len() as u64)])
        }
    };
    let feed = fetch_and_aggregate(&subs, "https://example.org", true, &fetch);
    assert_eq!(ids(&feed.videos), vec!["good", "fine"]);
    assert_eq!(ids_of_failures(&feed), vec!["bad"]);
}

#[test]
fn the_address_of_a_request() {
    let request = |resource: Resource| FetchRequest {
        server: "https://example.org".to_string(),
        channel_id: "UC1".to_string(),
        resource,
    };
    assert_eq!(request(Resource::DirectVideos).url(), "https://example.org/api/v1/channels/UC1/videos");
    assert_eq!(request(Resource::FeedVideos).url(), "https://example.org/api/v1/channels/UC1/latest");
    assert_eq!(request(Resource::Channel).url(), "https://example.org/api/v1/channels/UC1");
}
