//! Video summaries, as the feed holds them.

use vstd::prelude::*;

verus! {

/// One rendition of a video's preview image.
#[derive(Debug, Clone, PartialEq, Eq)]
pub struct Thumbnail {
    pub quality: String,
    pub url: String,
    pub width: u32,
    pub height: u32,
}

/// The summary of one video: what a feed needs to order and show it.
#[derive(Debug, Clone, PartialEq, Eq)]
pub struct CommonVideo {
    pub id: String,
    pub title: String,
    pub author: String,
    /// Publication instant, in seconds since the Unix epoch.
    pub published: u64,
    /// Publication time as it is shown ("3 days ago").
    pub published_text: String,
    pub views: u64,
    pub thumbnails: Vec<Thumbnail>,
}

/// The recent videos of one channel, in the order the service listed them.
pub type ChannelVideos = Vec<CommonVideo>;

/// Why something could not be had from the remote service.
#[derive(Debug, Clone, PartialEq, Eq)]
pub enum FetchError {
    /// The request could not be made, or was not answered; with the words
    /// of whoever carried it.
    Transport(String),
    /// The response is not a JSON document.
    NotJson,
    /// The response is a document, but not of the shape asked for.
    Malformed,
}

/// What a [`Thumbnail`] holds.
pub struct ThumbnailView {
    pub quality: Seq<char>,
    pub url: Seq<char>,
    pub width: u32,
    pub height: u32,
}

impl View for Thumbnail {
    type V = ThumbnailView;

    open spec fn view(&self) -> ThumbnailView {
        ThumbnailView {
            quality: self.quality@,
            url: self.url@,
            width: self.width,
            height: self.height,
        }
    }
}

/// The views of a run of thumbnails, in order.
pub open spec fn thumbnail_views(thumbnails: Seq<Thumbnail>) -> Seq<ThumbnailView> {
    thumbnails.map_values(|t: Thumbnail| t@)
}

/// What a [`CommonVideo`] holds.
pub struct VideoView {
    pub id: Seq<char>,
    pub title: Seq<char>,
    pub author: Seq<char>,
    pub published: u64,
    pub published_text: Seq<char>,
    pub views: u64,
    pub thumbnails: Seq<ThumbnailView>,
}

impl View for CommonVideo {
    type V = VideoView;

    open spec fn view(&self) -> VideoView {
        VideoView {
            id: self.id@,
            title: self.title@,
            author: self.author@,
            published: self.published,
            published_text: self.published_text@,
            views: self.views,
            thumbnails: thumbnail_views(self.thumbnails@),
        }
    }
}

/// The views of a run of videos, in order.
pub open spec fn video_views(videos: Seq<CommonVideo>) -> Seq<VideoView> {
    videos.map_values(|v: CommonVideo| v@)
}

/// What the fetch for one channel came to.
pub type SubscriptionVideos = Result<ChannelVideos, FetchError>;

/// What the fetches of one round came to, one entry per subscription, in
/// the order of the subscriptions.
pub type SubscriptionsVideos = Vec<SubscriptionVideos>;

/// Index of the rendition that preview cards show.
pub const PREVIEW_THUMBNAIL: usize = 3;

impl CommonVideo {
    /// Address of the preview image: that of the rendition at
    /// [`PREVIEW_THUMBNAIL`], or the empty string where the video has fewer
    /// renditions.
    pub fn preview_thumbnail_url(&self) -> (url: String)
        ensures
            url@ == if self.thumbnails@.len() > PREVIEW_THUMBNAIL {
                self.thumbnails@[PREVIEW_THUMBNAIL as int].url@
            } else {
                Seq::<char>::empty()
            },
    {
        if self.thumbnails.len() > PREVIEW_THUMBNAIL {
            self.thumbnails[PREVIEW_THUMBNAIL].url.clone()
        } else {
            String::new()
        }
    }
}

/// The character of the decimal digit `d`.
pub open spec fn digit_char(d: nat) -> char
    recommends
        d < 10,
{
    if d == 0 {
        '0'
    } else if d == 1 {
        '1'
    } else if d == 2 {
        '2'
    } else if d == 3 {
        '3'
    } else if d == 4 {
        '4'
    } else if d == 5 {
        '5'
    } else if d == 6 {
        '6'
    } else if d == 7 {
        '7'
    } else if d == 8 {
        '8'
    } else {
        '9'
    }
}

/// `n` in decimal digits, without leading zeros.
pub open spec fn decimal(n: nat) -> Seq<char>
    decreases n,
{
    if n < 10 {
        seq![digit_char(n)]
    } else {
        decimal(n / 10).push(digit_char(n % 10))
    }
}

/// `n` in decimal digits, in groups of three from the right, the groups
/// parted by commas: `1,234,567`.
pub open spec fn grouped_decimal(n: nat) -> Seq<char>
    decreases n,
{
    if n < 1000 {
        decimal(n)
    } else {
        let last = n % 1000;
        grouped_decimal(n / 1000) + seq![
            ',',
            digit_char(last / 100),
            digit_char(last / 10 % 10),
            digit_char(last % 10),
        ]
    }
}

/// `to_formatted_string` of `num_format`, for the locale `en`. Trusted:
/// for that locale the number is written in decimal digits, in groups of
/// three parted by commas.
#[verifier::external_body]
fn format_grouped(n: u64) -> (text: String)
    ensures
        text@ == grouped_decimal(n as nat),
{
    num_format::ToFormattedString::to_formatted_string(&n, &num_format::Locale::en)
}

impl CommonVideo {
    /// The number of views as it is shown: in groups of three digits.
    pub fn views_text(&self) -> (text: String)
        ensures
            text@ == grouped_decimal(self.views as nat),
    {
        format_grouped(self.views)
    }
}

} // verus!
