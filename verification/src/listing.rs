//! What the service answers when asked for the videos of a channel.
//!
//! The answer is a JSON document: a list of videos, or an object whose
//! member `videos` is such a list. Every video is an object with the
//! members named below. An answer of which any part has another shape is
//! malformed as a whole: a channel's videos are had in full or not at all.

use vstd::prelude::*;
use crate::json::{
    array_member, array_member_of, elements, json_model, json_parse, natural_member,
    natural_member_of, parse_document, string_member, string_member_of, JsonModel,
};
use crate::video::{
    thumbnail_views, video_views, CommonVideo, FetchError, SubscriptionVideos, Thumbnail,
    ThumbnailView, VideoView,
};

verus! {

/// Member of an answer that holds the list of videos.
pub const VIDEOS_MEMBER: &'static str = "videos";

/// Members of a video.
pub const ID_MEMBER: &'static str = "videoId";

pub const TITLE_MEMBER: &'static str = "title";

pub const AUTHOR_MEMBER: &'static str = "author";

pub const PUBLISHED_MEMBER: &'static str = "published";

pub const PUBLISHED_TEXT_MEMBER: &'static str = "publishedText";

pub const VIEWS_MEMBER: &'static str = "viewCount";

pub const THUMBNAILS_MEMBER: &'static str = "videoThumbnails";

/// Members of a thumbnail.
pub const QUALITY_MEMBER: &'static str = "quality";

pub const URL_MEMBER: &'static str = "url";

pub const WIDTH_MEMBER: &'static str = "width";

pub const HEIGHT_MEMBER: &'static str = "height";

/// The thumbnail that `item` stands for: an object with a quality and an
/// address, both strings, and a width and a height that fit 32 bits.
pub open spec fn thumbnail_of(item: JsonModel) -> Option<ThumbnailView> {
    match (
        string_member_of(item, QUALITY_MEMBER@),
        string_member_of(item, URL_MEMBER@),
        natural_member_of(item, WIDTH_MEMBER@),
        natural_member_of(item, HEIGHT_MEMBER@),
    ) {
        (Some(quality), Some(url), Some(width), Some(height)) => if width <= u32::MAX && height
            <= u32::MAX {
            Some(ThumbnailView { quality, url, width: width as u32, height: height as u32 })
        } else {
            None
        },
        _ => None,
    }
}

/// The thumbnails that `items` stand for, if each of them stands for one.
pub open spec fn thumbnails_of(items: Seq<JsonModel>) -> Option<Seq<ThumbnailView>>
    decreases items.len(),
{
    if items.len() == 0 {
        Some(Seq::empty())
    } else {
        match (thumbnails_of(items.drop_last()), thumbnail_of(items.last())) {
            (Some(earlier), Some(thumbnail)) => Some(earlier.push(thumbnail)),
            _ => None,
        }
    }
}

/// The video that `item` stands for: an object with an id, a title, an
/// author and a publication text, all strings, a publication instant and
/// a view count, both whole numbers, and a list of thumbnails.
pub open spec fn video_of(item: JsonModel) -> Option<VideoView> {
    match (
        string_member_of(item, ID_MEMBER@),
        string_member_of(item, TITLE_MEMBER@),
        string_member_of(item, AUTHOR_MEMBER@),
        natural_member_of(item, PUBLISHED_MEMBER@),
        string_member_of(item, PUBLISHED_TEXT_MEMBER@),
        natural_member_of(item, VIEWS_MEMBER@),
        array_member_of(item, THUMBNAILS_MEMBER@),
    ) {
        (
            Some(id),
            Some(title),
            Some(author),
            Some(published),
            Some(published_text),
            Some(views),
            Some(renditions),
        ) => match thumbnails_of(renditions) {
            Some(thumbnails) => Some(
                VideoView { id, title, author, published, published_text, views, thumbnails },
            ),
            None => None,
        },
        _ => None,
    }
}

/// The videos that `items` stand for, if each of them stands for one.
pub open spec fn videos_of_items(items: Seq<JsonModel>) -> Option<Seq<VideoView>>
    decreases items.len(),
{
    if items.len() == 0 {
        Some(Seq::empty())
    } else {
        match (videos_of_items(items.drop_last()), video_of(items.last())) {
            (Some(earlier), Some(video)) => Some(earlier.push(video)),
            _ => None,
        }
    }
}

/// The list of videos in the answer `document`: the document itself where
/// it is a list, else its member [`VIDEOS_MEMBER`].
pub open spec fn listed_items(document: JsonModel) -> Option<Seq<JsonModel>> {
    match document {
        JsonModel::List(items) => Some(items),
        _ => array_member_of(document, VIDEOS_MEMBER@),
    }
}

/// What the answer `document` comes to.
pub open spec fn document_videos(document: JsonModel) -> Result<Seq<VideoView>, FetchError> {
    match listed_items(document) {
        Some(items) => match videos_of_items(items) {
            Some(videos) => Ok(videos),
            None => Err(FetchError::Malformed),
        },
        None => Err(FetchError::Malformed),
    }
}

/// What the text `body` of an answer comes to.
pub open spec fn response_videos(body: Seq<char>) -> Result<Seq<VideoView>, FetchError> {
    match json_parse(body) {
        Some(document) => document_videos(document),
        None => Err(FetchError::NotJson),
    }
}

/// `read` is `expected`, as far as views go.
pub open spec fn is_listing(expected: Result<Seq<VideoView>, FetchError>, read: SubscriptionVideos) -> bool {
    match expected {
        Ok(videos) => read matches Ok(list) && video_views(list@) == videos,
        Err(error) => read matches Err(e) && e == error,
    }
}

/// `fetched` is what a request for a channel's videos comes to, given what
/// the service answered.
pub open spec fn is_fetch_of(response: Result<String, FetchError>, fetched: SubscriptionVideos) -> bool {
    match response {
        Ok(body) => is_listing(response_videos(body@), fetched),
        Err(error) => fetched matches Err(e) && e == error,
    }
}

/// A list of which a beginning already holds something that is no
/// thumbnail has no thumbnails.
proof fn lemma_no_thumbnails(items: Seq<JsonModel>, k: int)
    requires
        0 <= k <= items.len(),
        thumbnails_of(items.take(k)) is None,
    ensures
        thumbnails_of(items) is None,
    decreases items.len() - k,
{
    if k < items.len() {
        assert(items.take(k + 1).drop_last() =~= items.take(k));
        lemma_no_thumbnails(items, k + 1);
    } else {
        assert(items.take(k) =~= items);
    }
}

/// A list of which a beginning already holds something that is no video
/// has no videos.
proof fn lemma_no_videos(items: Seq<JsonModel>, k: int)
    requires
        0 <= k <= items.len(),
        videos_of_items(items.take(k)) is None,
    ensures
        videos_of_items(items) is None,
    decreases items.len() - k,
{
    if k < items.len() {
        assert(items.take(k + 1).drop_last() =~= items.take(k));
        lemma_no_videos(items, k + 1);
    } else {
        assert(items.take(k) =~= items);
    }
}

/// The thumbnail that an element stands for, if it stands for one.
fn read_thumbnail(item: &serde_json::Value) -> (read: Option<Thumbnail>)
    ensures
        match read {
            Some(thumbnail) => thumbnail_of(json_model(*item)) == Some(thumbnail@),
            None => thumbnail_of(json_model(*item)) is None,
        },
{
    let quality = string_member(item, QUALITY_MEMBER);
    let url = string_member(item, URL_MEMBER);
    let width = natural_member(item, WIDTH_MEMBER);
    let height = natural_member(item, HEIGHT_MEMBER);
    match (quality, url, width, height) {
        (Some(quality), Some(url), Some(width), Some(height)) => {
            if width <= u32::MAX as u64 && height <= u32::MAX as u64 {
                Some(
                    Thumbnail {
                        quality: quality.to_owned(),
                        url: url.to_owned(),
                        width: width as u32,
                        height: height as u32,
                    },
                )
            } else {
                None
            }
        },
        _ => None,
    }
}

/// The thumbnails that the elements of a list stand for, if each stands
/// for one.
fn read_thumbnails(items: &Vec<serde_json::Value>, Ghost(models): Ghost<Seq<JsonModel>>) -> (read:
    Option<Vec<Thumbnail>>)
    requires
        models.len() == items@.len(),
        forall|k: int| 0 <= k < items@.len() ==> json_model(#[trigger] items@[k]) == models[k],
    ensures
        match read {
            Some(thumbnails) => thumbnails_of(models) == Some(thumbnail_views(thumbnails@)),
            None => thumbnails_of(models) is None,
        },
{
    let mut thumbnails: Vec<Thumbnail> = Vec::new();
    let mut i: usize = 0;
    assert(models.take(0) =~= Seq::<JsonModel>::empty());
    assert(thumbnail_views(thumbnails@) =~= Seq::<ThumbnailView>::empty());
    while i < items.len()
        invariant
            i <= items@.len(),
            models.len() == items@.len(),
            forall|k: int| 0 <= k < items@.len() ==> json_model(#[trigger] items@[k]) == models[k],
            thumbnails_of(models.take(i as int)) == Some(thumbnail_views(thumbnails@)),
        decreases items@.len() - i,
    {
        assert(models.take(i + 1).drop_last() =~= models.take(i as int));
        assert(models.take(i + 1).last() == json_model(items@[i as int]));
        match read_thumbnail(&items[i]) {
            Some(thumbnail) => {
                let ghost earlier = thumbnails@;
                thumbnails.push(thumbnail);
                assert(thumbnail_views(thumbnails@) =~= thumbnail_views(earlier).push(thumbnail@));
            },
            None => {
                proof {
                    lemma_no_thumbnails(models, i + 1);
                }
                return None;
            },
        }
        i += 1;
    }
    assert(models.take(models.len() as int) =~= models);
    Some(thumbnails)
}

/// The video that an element stands for, if it stands for one.
fn read_video(item: &serde_json::Value) -> (read: Option<CommonVideo>)
    ensures
        match read {
            Some(video) => video_of(json_model(*item)) == Some(video@),
            None => video_of(json_model(*item)) is None,
        },
{
    let id = string_member(item, ID_MEMBER);
    let title = string_member(item, TITLE_MEMBER);
    let author = string_member(item, AUTHOR_MEMBER);
    let published = natural_member(item, PUBLISHED_MEMBER);
    let published_text = string_member(item, PUBLISHED_TEXT_MEMBER);
    let views = natural_member(item, VIEWS_MEMBER);
    let renditions = array_member(item, THUMBNAILS_MEMBER);
    match (id, title, author, published, published_text, views, renditions) {
        (
            Some(id),
            Some(title),
            Some(author),
            Some(published),
            Some(published_text),
            Some(views),
            Some(renditions),
        ) => {
            let ghost models = array_member_of(json_model(*item), THUMBNAILS_MEMBER@)->Some_0;
            match read_thumbnails(renditions, Ghost(models)) {
                Some(thumbnails) => Some(
                    CommonVideo {
                        id: id.to_owned(),
                        title: title.to_owned(),
                        author: author.to_owned(),
                        published,
                        published_text: published_text.to_owned(),
                        views,
                        thumbnails,
                    },
                ),
                None => None,
            }
        },
        _ => None,
    }
}

/// The videos in the answer `document`.
pub fn videos_of_document(document: &serde_json::Value) -> (read: SubscriptionVideos)
    ensures
        is_listing(document_videos(json_model(*document)), read),
{
    let items = match elements(document) {
        Some(items) => items,
        None => match array_member(document, VIDEOS_MEMBER) {
            Some(items) => items,
            None => {
                return Err(FetchError::Malformed);
            },
        },
    };
    let ghost models = listed_items(json_model(*document))->Some_0;
    let mut videos: Vec<CommonVideo> = Vec::new();
    let mut i: usize = 0;
    assert(models.take(0) =~= Seq::<JsonModel>::empty());
    assert(video_views(videos@) =~= Seq::<VideoView>::empty());
    while i < items.len()
        invariant
            i <= items@.len(),
            models.len() == items@.len(),
            listed_items(json_model(*document)) == Some(models),
            forall|k: int| 0 <= k < items@.len() ==> json_model(#[trigger] items@[k]) == models[k],
            videos_of_items(models.take(i as int)) == Some(video_views(videos@)),
        decreases items@.len() - i,
    {
        assert(models.take(i + 1).drop_last() =~= models.take(i as int));
        assert(models.take(i + 1).last() == json_model(items@[i as int]));
        match read_video(&items[i]) {
            Some(video) => {
                let ghost earlier = videos@;
                videos.push(video);
                assert(video_views(videos@) =~= video_views(earlier).push(video@));
            },
            None => {
                proof {
                    lemma_no_videos(models, i + 1);
                }
                return Err(FetchError::Malformed);
            },
        }
        i += 1;
    }
    assert(models.take(models.len() as int) =~= models);
    Ok(videos)
}

/// The videos in the text of an answer.
pub fn videos_of_response(body: &str) -> (read: SubscriptionVideos)
    ensures
        is_listing(response_videos(body@), read),
{
    match parse_document(body) {
        Ok(document) => videos_of_document(&document),
        Err(_) => Err(FetchError::NotJson),
    }
}

} // verus!
