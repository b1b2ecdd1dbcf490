//! One round of fetches: what is asked of the remote service, and for
//! which channels.
//!
//! The library decides which requests a round consists of and hands each
//! to a dispatcher of the caller's. What the dispatcher returns for a
//! request (a result, or a task that will produce one) is collected in the
//! order of the subscriptions. The requests are independent of each other:
//! the dispatcher is called once for every subscription, whatever it
//! returned for another.

use vstd::prelude::*;
use vstd::string::StringExecFns;
use crate::aggregate::{aggregate, is_aggregate_of, AggregatedFeed};
use crate::listing::{is_fetch_of, videos_of_response};
use crate::subscription::{SubscriptionView, Subscriptions};
use crate::video::{FetchError, SubscriptionVideos};

verus! {

/// What is asked about a channel, and how.
#[derive(Debug, Clone, Copy, PartialEq, Eq, Structural)]
pub enum Resource {
    /// The channel's videos, from the paginated listing.
    DirectVideos,
    /// The channel's recent videos, from its feed.
    FeedVideos,
    /// The channel itself.
    Channel,
}

/// One request to the service at `server`, about the channel `channel_id`.
#[derive(Debug, Clone, PartialEq, Eq)]
pub struct FetchRequest {
    pub server: String,
    pub channel_id: String,
    pub resource: Resource,
}

/// What a [`FetchRequest`] holds.
pub struct RequestView {
    pub server: Seq<char>,
    pub channel_id: Seq<char>,
    pub resource: Resource,
}

impl View for FetchRequest {
    type V = RequestView;

    open spec fn view(&self) -> RequestView {
        RequestView { server: self.server@, channel_id: self.channel_id@, resource: self.resource }
    }
}

/// Path of everything the service knows about channels.
pub const CHANNELS_PATH: &'static str = "/api/v1/channels/";

/// What follows the channel id in the address of its listing.
pub const LISTING_SUFFIX: &'static str = "/videos";

/// What follows the channel id in the address of its feed.
pub const FEED_SUFFIX: &'static str = "/latest";

/// What follows the channel id in the address of `resource`.
pub open spec fn suffix_of(resource: Resource) -> Seq<char> {
    match resource {
        Resource::DirectVideos => LISTING_SUFFIX@,
        Resource::FeedVideos => FEED_SUFFIX@,
        Resource::Channel => Seq::empty(),
    }
}

/// The address that the request `request` goes to.
pub open spec fn url_of(request: RequestView) -> Seq<char> {
    request.server + CHANNELS_PATH@ + request.channel_id + suffix_of(request.resource)
}

impl FetchRequest {
    /// The address that this request goes to.
    pub fn url(&self) -> (url: String)
        ensures
            url@ == url_of(self@),
    {
        let mut url = self.server.clone();
        url.append(CHANNELS_PATH);
        url.append(self.channel_id.as_str());
        match self.resource {
            Resource::DirectVideos => {
                url.append(LISTING_SUFFIX);
            },
            Resource::FeedVideos => {
                url.append(FEED_SUFFIX);
            },
            Resource::Channel => {
                assert(url@ + Seq::<char>::empty() =~= url@);
            },
        }
        url
    }
}

impl FetchRequest {
    /// Carries out this request for the videos of a channel: `transport`
    /// is handed the address and returns the text of the answer.
    ///
    /// Whatever goes wrong stays with this request: a transport that
    /// fails and an answer that cannot be read both come back as this
    /// request's error.
    pub fn fetch<F: Fn(String) -> Result<String, FetchError>>(&self, transport: &F) -> (fetched:
        SubscriptionVideos)
        requires
            forall|url: String| call_requires(transport, (url,)),
        ensures
            exists|url: String, response: Result<String, FetchError>|
                url@ == url_of(self@) && #[trigger] call_ensures(transport, (url,), response)
                    && is_fetch_of(response, fetched),
    {
        let url = self.url();
        let ghost asked = url;
        let response = transport(url);
        assert(call_ensures(transport, (asked,), response));
        match response {
            Ok(body) => {
                let fetched = videos_of_response(body.as_str());
                assert(is_fetch_of(response, fetched));
                fetched
            },
            Err(error) => {
                let fetched = Err(error);
                assert(is_fetch_of(response, fetched));
                fetched
            },
        }
    }
}

/// The resource that a round of video fetches asks for: the feed where
/// `rss` is set, else the listing.
pub open spec fn video_resource(rss: bool) -> Resource {
    if rss {
        Resource::FeedVideos
    } else {
        Resource::DirectVideos
    }
}

/// `result` is what `dispatch` returned for a request that holds `request`.
pub open spec fn is_dispatch_of<R, F: Fn(FetchRequest) -> R>(
    dispatch: &F,
    request: RequestView,
    result: R,
) -> bool {
    exists|r: FetchRequest| r@ == request && #[trigger] call_ensures(dispatch, (r,), result)
}

/// `results` is what a round returned: one result per subscription, in
/// the order of the subscriptions, each for a request about that
/// subscription's channel.
pub open spec fn is_round_of<R, F: Fn(FetchRequest) -> R>(
    subscriptions: Seq<SubscriptionView>,
    server: Seq<char>,
    resource: Resource,
    dispatch: &F,
    results: Seq<R>,
) -> bool {
    &&& results.len() == subscriptions.len()
    &&& forall|i: int|
        0 <= i < results.len() ==> is_dispatch_of(
            dispatch,
            RequestView { server, channel_id: subscriptions[i].id, resource },
            #[trigger] results[i],
        )
}

impl Subscriptions {
    /// Dispatches one request for `resource` per subscription.
    fn dispatch_round<R, F: Fn(FetchRequest) -> R>(
        &self,
        server: &str,
        resource: Resource,
        dispatch: &F,
    ) -> (results: Vec<R>)
        requires
            forall|request: FetchRequest| call_requires(dispatch, (request,)),
        ensures
            is_round_of(self@, server@, resource, dispatch, results@),
    {
        let mut results: Vec<R> = Vec::new();
        let mut i: usize = 0;
        while i < self.channels.len()
            invariant
                i <= self.channels@.len(),
                results@.len() == i,
                forall|request: FetchRequest| call_requires(dispatch, (request,)),
                forall|k: int|
                    0 <= k < i ==> is_dispatch_of(
                        dispatch,
                        RequestView { server: server@, channel_id: self@[k].id, resource },
                        #[trigger] results@[k],
                    ),
            decreases self.channels@.len() - i,
        {
            let request = FetchRequest {
                server: server.to_owned(),
                channel_id: self.channels[i].id.clone(),
                resource,
            };
            let ghost sent = request;
            let result = dispatch(request);
            assert(sent@ == RequestView { server: server@, channel_id: self@[i as int].id, resource });
            assert(call_ensures(dispatch, (sent,), result));
            results.push(result);
            i += 1;
        }
        results
    }

    /// Dispatches one round of video fetches: one request per
    /// subscription, for the feed where `rss` is set, else for the
    /// listing. No subscriptions, no requests.
    pub fn fetch_videos<R, F: Fn(FetchRequest) -> R>(&self, server: &str, rss: bool, dispatch: &F) -> (results: Vec<R>)
        requires
            forall|request: FetchRequest| call_requires(dispatch, (request,)),
        ensures
            is_round_of(self@, server@, video_resource(rss), dispatch, results@),
    {
        let resource = if rss {
            Resource::FeedVideos
        } else {
            Resource::DirectVideos
        };
        self.dispatch_round(server, resource, dispatch)
    }

    /// Dispatches one request per subscription for the channel itself.
    pub fn fetch_channels<R, F: Fn(FetchRequest) -> R>(&self, server: &str, dispatch: &F) -> (results: Vec<R>)
        requires
            forall|request: FetchRequest| call_requires(dispatch, (request,)),
        ensures
            is_round_of(self@, server@, Resource::Channel, dispatch, results@),
    {
        self.dispatch_round(server, Resource::Channel, dispatch)
    }
}

/// Fetches the videos of every subscription with `fetch` and merges what
/// comes back into a feed. A fetch that fails is listed in the feed and
/// stops nothing.
pub fn fetch_and_aggregate<F: Fn(FetchRequest) -> SubscriptionVideos>(
    subscriptions: &Subscriptions,
    server: &str,
    rss: bool,
    fetch: &F,
) -> (feed: AggregatedFeed)
    requires
        forall|request: FetchRequest| call_requires(fetch, (request,)),
    ensures
        exists|outcomes: Seq<SubscriptionVideos>|
            is_round_of(subscriptions@, server@, video_resource(rss), fetch, outcomes)
                && #[trigger] is_aggregate_of(subscriptions@, outcomes, feed),
{
    let outcomes = subscriptions.fetch_videos(server, rss, fetch);
    let ghost round = outcomes@;
    let feed = aggregate(subscriptions, outcomes);
    assert(is_aggregate_of(subscriptions@, round, feed));
    feed
}

} // verus!
