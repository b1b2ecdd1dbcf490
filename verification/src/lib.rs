//! Subscription feeds for a personal video client.
//!
//! The crate reads subscription exports in two formats, keeps the canonical
//! list of subscribed channels, merges the per-channel results of one fetch
//! round into a single feed ordered by publication time, and reveals that
//! feed page by page.
//!
//! - [`subscription`]: the list of subscribed channels and its invariant.
//! - [`tabular`], [`newpipe`], [`import`]: the two export formats, and
//!   which reader gets to read a file.
//! - [`store`]: the text that the list is persisted as.
//! - [`fetch`], [`listing`]: the requests of a round, and what the service
//!   answers.
//! - [`aggregate`]: the feed of a round.
//! - [`window`], [`round`]: what of the feed is shown, and for which
//!   inputs.
//! - [`suggestions`], [`video`], [`color_info`]: further shapes of the
//!   remote service.
//! - [`json`], [`text`]: what the library takes for granted of
//!   `serde_json` and of std.
//!
//! The library does no input and no output. Files, the store and the
//! network belong to the caller, who hands in bytes and text and gets
//! values back.

pub mod aggregate;
pub mod color_info;
pub mod error;
pub mod fetch;
pub mod import;
pub mod json;
pub mod listing;
pub mod newpipe;
pub mod round;
pub mod store;
pub mod subscription;
pub mod suggestions;
pub mod tabular;
pub mod text;
pub mod video;
pub mod window;

pub use aggregate::{aggregate, sort_newest_first, AggregatedFeed, ChannelFailure};
pub use color_info::ColorInfo;
pub use error::{ImportError, ParseError};
pub use fetch::{fetch_and_aggregate, FetchRequest, Resource};
pub use import::{import_selected_file, Imported};
pub use listing::{videos_of_document, videos_of_response};
pub use round::{FeedCache, FeedStatus};
pub use store::StorageError;
pub use subscription::{Subscription, Subscriptions, SUBS_KEY};
pub use suggestions::Suggestions;
pub use video::{
    ChannelVideos, CommonVideo, FetchError, SubscriptionVideos, SubscriptionsVideos, Thumbnail,
};
pub use window::{advance, has_more, initial_window, Paginator, PAGE_SIZE};
