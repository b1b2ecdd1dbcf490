//! The feed that is shown, and the rounds that fill it.
//!
//! A feed belongs to the inputs it was fetched for: the service endpoint
//! and the subscription list. When either changes, what is shown is
//! dropped and a fresh round is due. A round that settles is taken only if
//! it was fetched for the inputs that are current then; a round for
//! earlier inputs is discarded, whenever it arrives.

use vstd::prelude::*;
use crate::aggregate::{aggregate, is_aggregate_of, AggregatedFeed, ChannelFailure};
use crate::subscription::{SubscriptionView, Subscriptions};
use crate::text::same_text;
use crate::video::{CommonVideo, SubscriptionsVideos};
use crate::window::{advance, advanced_window_of, initial_window, initial_window_of};

verus! {

/// What there is to show.
#[derive(Debug, Clone, Copy, PartialEq, Eq, Structural)]
pub enum FeedStatus {
    /// There are no subscriptions: nothing is fetched, and an import is
    /// offered instead of a feed.
    NoSubscriptions,
    /// A round for the current inputs is due or under way.
    Loading,
    /// The feed of the current inputs is there. It may be empty, and every
    /// channel may have failed.
    Ready,
}

/// The current inputs, and the feed that was fetched for them.
pub struct FeedCache {
    server: String,
    subscriptions: Subscriptions,
    feed: Option<AggregatedFeed>,
    window: usize,
}

impl FeedCache {
    #[verifier::type_invariant]
    spec fn window_within_feed(self) -> bool {
        match self.feed {
            Some(feed) => self.window <= feed.videos@.len(),
            None => self.window == 0,
        }
    }

    /// The endpoint that the feed is fetched from.
    pub closed spec fn current_server(&self) -> Seq<char> {
        self.server@
    }

    /// The subscriptions that the feed is fetched for.
    pub closed spec fn current_subscriptions(&self) -> Seq<SubscriptionView> {
        self.subscriptions@
    }

    /// The feed of the current inputs, once a round for them has settled.
    pub closed spec fn current_feed(&self) -> Option<AggregatedFeed> {
        self.feed
    }

    /// Number of videos shown.
    pub closed spec fn shown(&self) -> int {
        self.window as int
    }

    /// What there is to show.
    pub open spec fn status_of(&self) -> FeedStatus {
        if self.current_subscriptions().len() == 0 {
            FeedStatus::NoSubscriptions
        } else if self.current_feed() is None {
            FeedStatus::Loading
        } else {
            FeedStatus::Ready
        }
    }

    /// A round is due: there are subscriptions, and no feed for them yet.
    pub open spec fn round_due(&self) -> bool {
        self.status_of() == FeedStatus::Loading
    }

    /// The videos shown: the first `shown()` of the feed.
    pub open spec fn visible(&self) -> Seq<CommonVideo> {
        match self.current_feed() {
            Some(feed) => feed.videos@.take(self.shown()),
            None => Seq::empty(),
        }
    }

    /// A cache for the given inputs, with nothing fetched yet.
    pub fn new(server: &str, subscriptions: Subscriptions) -> (cache: Self)
        ensures
            cache.current_server() == server@,
            cache.current_subscriptions() == subscriptions@,
            cache.current_feed() is None,
            cache.shown() == 0,
    {
        FeedCache { server: server.to_owned(), subscriptions, feed: None, window: 0 }
    }

    /// What there is to show.
    pub fn status(&self) -> (status: FeedStatus)
        ensures
            status == self.status_of(),
    {
        if self.subscriptions.channels.len() == 0 {
            assert(self.subscriptions@.len() == 0);
            FeedStatus::NoSubscriptions
        } else if self.feed.is_none() {
            assert(self.subscriptions@.len() != 0);
            FeedStatus::Loading
        } else {
            assert(self.subscriptions@.len() != 0);
            FeedStatus::Ready
        }
    }

    /// Makes `server` and `subscriptions` the current inputs, and says
    /// whether a round is due.
    ///
    /// Where they are the current inputs already, nothing changes. Where
    /// they differ, the feed of the earlier inputs is dropped; a round for
    /// the earlier inputs that is still under way will be discarded when
    /// it settles.
    pub fn set_inputs(&mut self, server: &str, subscriptions: Subscriptions) -> (due: bool)
        ensures
            final(self).current_server() == server@,
            final(self).current_subscriptions() == subscriptions@,
            due == final(self).round_due(),
            old(self).current_server() == server@ && old(self).current_subscriptions()
                == subscriptions@ ==> final(self).current_feed() == old(self).current_feed()
                && final(self).shown() == old(self).shown(),
            !(old(self).current_server() == server@ && old(self).current_subscriptions()
                == subscriptions@) ==> final(self).current_feed() is None && final(self).shown()
                == 0,
    {
        proof {
            use_type_invariant(&*self);
        }
        let unchanged = same_text(self.server.as_str(), server) && self.subscriptions.same_as(
            &subscriptions,
        );
        if !unchanged {
            self.window = 0;
            self.feed = None;
            self.server = server.to_owned();
            self.subscriptions = subscriptions;
        }
        assert(self.subscriptions@.len() == self.subscriptions.channels@.len());
        self.subscriptions.channels.len() > 0 && self.feed.is_none()
    }

    /// Takes in the round that was fetched from `server` for
    /// `subscriptions` and has settled with `outcomes`, and says whether it
    /// was taken.
    ///
    /// The round is taken if it was fetched for the current inputs and
    /// holds one outcome per subscription: its feed is then the one shown,
    /// from the initial window. Any other round is discarded, and what is
    /// shown stays as it is.
    pub fn settle(
        &mut self,
        server: &str,
        subscriptions: &Subscriptions,
        outcomes: SubscriptionsVideos,
    ) -> (taken: bool)
        ensures
            final(self).current_server() == old(self).current_server(),
            final(self).current_subscriptions() == old(self).current_subscriptions(),
            taken == (server@ == old(self).current_server() && subscriptions@ == old(self).current_subscriptions() && outcomes@.len() == subscriptions@.len()),
            taken ==> (final(self).current_feed() matches Some(feed) && is_aggregate_of(
                subscriptions@,
                outcomes@,
                feed,
            ) && final(self).shown() == initial_window_of(feed.videos@.len() as int)),
            !taken ==> final(self).current_feed() == old(self).current_feed() && final(self).shown() == old(self).shown(),
    {
        proof {
            use_type_invariant(&*self);
        }
        assert(subscriptions@.len() == subscriptions.channels@.len());
        let current = same_text(self.server.as_str(), server) && self.subscriptions.same_as(
            subscriptions,
        ) && outcomes.len() == subscriptions.channels.len();
        if current {
            let feed = aggregate(subscriptions, outcomes);
            let window = initial_window(feed.videos.len());
            self.window = 0;
            self.feed = Some(feed);
            self.window = window;
        }
        current
    }

    /// Whether a part of the feed is still hidden.
    pub fn has_more(&self) -> (more: bool)
        ensures
            more == match self.current_feed() {
                Some(feed) => self.shown() < feed.videos@.len(),
                None => false,
            },
    {
        match &self.feed {
            Some(feed) => self.window < feed.videos.len(),
            None => false,
        }
    }

    /// Reveals one more page of the feed. Without a feed nothing happens.
    pub fn load_more(&mut self)
        ensures
            final(self).current_server() == old(self).current_server(),
            final(self).current_subscriptions() == old(self).current_subscriptions(),
            final(self).current_feed() == old(self).current_feed(),
            final(self).shown() == match old(self).current_feed() {
                Some(feed) => advanced_window_of(old(self).shown(), feed.videos@.len() as int),
                None => old(self).shown(),
            },
    {
        proof {
            use_type_invariant(&*self);
        }
        let total = match &self.feed {
            Some(feed) => Some(feed.videos.len()),
            None => None,
        };
        match total {
            Some(total) => {
                self.window = advance(self.window, total);
            },
            None => {},
        }
    }

    /// The videos shown.
    pub fn visible_videos(&self) -> (shown: &[CommonVideo])
        ensures
            shown@ == self.visible(),
    {
        proof {
            use_type_invariant(self);
        }
        match &self.feed {
            Some(feed) => vstd::slice::slice_subrange(feed.videos.as_slice(), 0, self.window),
            None => {
                let none: &[CommonVideo] = &[];
                assert(none@ =~= Seq::<CommonVideo>::empty());
                none
            },
        }
    }

    /// The channels of the feed whose fetch failed; none without a feed.
    pub fn failures(&self) -> (failed: &[ChannelFailure])
        ensures
            failed@ == match self.current_feed() {
                Some(feed) => feed.failures@,
                None => Seq::empty(),
            },
    {
        match &self.feed {
            Some(feed) => feed.failures.as_slice(),
            None => {
                let none: &[ChannelFailure] = &[];
                assert(none@ =~= Seq::<ChannelFailure>::empty());
                none
            },
        }
    }
}

} // verus!
