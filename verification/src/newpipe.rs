//! The structured export: a JSON document with a list of subscriptions,
//! each with the address and the name of a channel.

use vstd::prelude::*;
use vstd::string::StrSliceExecFns;
use crate::error::ParseError;
use crate::json::{
    array_member, array_member_of, json_model, json_parse, parse_document, string_member,
    string_member_of, JsonModel,
};
use crate::subscription::{channel_views, dedup_by_id, Subscription, SubscriptionView, Subscriptions};
use crate::text::{as_text, same_text, text_of};

verus! {

/// What the address of a channel starts with. What follows is the
/// channel's id.
pub const CHANNEL_URL_PREFIX: &'static str = "https://www.youtube.com/channel/";

/// Member of the document that holds the list.
pub const LIST_MEMBER: &'static str = "subscriptions";

/// Member of an entry that holds the channel's address.
pub const URL_MEMBER: &'static str = "url";

/// Member of an entry that holds the channel's name.
pub const NAME_MEMBER: &'static str = "name";

/// The channel id in the address `url`: what stands behind
/// [`CHANNEL_URL_PREFIX`]. An address that does not start with the prefix,
/// or holds nothing behind it, has none.
pub open spec fn channel_id_of(url: Seq<char>) -> Option<Seq<char>> {
    let prefix = CHANNEL_URL_PREFIX@;
    if url.len() > prefix.len() && url.take(prefix.len() as int) == prefix {
        Some(url.skip(prefix.len() as int))
    } else {
        None
    }
}

/// The subscription that the entry `item` stands for: an object with an
/// address that holds a channel id, and with a name. Anything else stands
/// for none.
pub open spec fn entry_of_item(item: JsonModel) -> Option<SubscriptionView> {
    match string_member_of(item, URL_MEMBER@) {
        Some(url) => match (channel_id_of(url), string_member_of(item, NAME_MEMBER@)) {
            (Some(id), Some(name)) => Some(SubscriptionView { id, name }),
            _ => None,
        },
        None => None,
    }
}

/// The subscriptions that `items` stand for, in order. Entries that stand
/// for none are left out.
pub open spec fn entries_of_items(items: Seq<JsonModel>) -> Seq<SubscriptionView>
    decreases items.len(),
{
    if items.len() == 0 {
        Seq::empty()
    } else {
        let earlier = entries_of_items(items.drop_last());
        match entry_of_item(items.last()) {
            Some(entry) => earlier.push(entry),
            None => earlier,
        }
    }
}

/// What reading the document `document` comes to: the subscriptions of
/// its list, without the ones whose id occurred in an earlier entry. A
/// document that is no object, or has no array [`LIST_MEMBER`], is refused.
pub open spec fn document_outcome(document: JsonModel) -> Result<
    Seq<SubscriptionView>,
    ParseError,
> {
    match array_member_of(document, LIST_MEMBER@) {
        Some(items) => Ok(dedup_by_id(entries_of_items(items))),
        None => Err(ParseError::NoSubscriptionList),
    }
}

/// What reading `bytes` as a structured export comes to.
pub open spec fn newpipe_outcome(bytes: Seq<u8>) -> Result<Seq<SubscriptionView>, ParseError> {
    match text_of(bytes) {
        None => Err(ParseError::NotText),
        Some(text) => match json_parse(text) {
            None => Err(ParseError::NotJson),
            Some(document) => document_outcome(document),
        },
    }
}

/// The channel id in the address `url`, if it holds one.
pub fn channel_id_of_url(url: &str) -> (id: Option<String>)
    ensures
        match id {
            Some(text) => channel_id_of(url@) == Some(text@),
            None => channel_id_of(url@) is None,
        },
{
    let prefix_len = CHANNEL_URL_PREFIX.unicode_len();
    let url_len = url.unicode_len();
    if url_len <= prefix_len {
        return None;
    }
    if !same_text(url.substring_char(0, prefix_len), CHANNEL_URL_PREFIX) {
        return None;
    }
    Some(url.substring_char(prefix_len, url_len).to_owned())
}

/// The subscription that an entry of the list stands for, if it stands
/// for one.
fn subscription_of_item(item: &serde_json::Value) -> (entry: Option<Subscription>)
    ensures
        match entry {
            Some(e) => entry_of_item(json_model(*item)) == Some(e@),
            None => entry_of_item(json_model(*item)) is None,
        },
{
    match string_member(item, URL_MEMBER) {
        Some(url) => match (channel_id_of_url(url), string_member(item, NAME_MEMBER)) {
            (Some(id), Some(name)) => Some(Subscription { id, name: name.to_owned() }),
            _ => None,
        },
        None => None,
    }
}

/// The subscriptions of a document that was read.
pub fn subscriptions_of_document(document: &serde_json::Value) -> (read: Result<
    Subscriptions,
    ParseError,
>)
    ensures
        match document_outcome(json_model(*document)) {
            Ok(channels) => read matches Ok(subs) && subs@ == channels && subs.well_formed(),
            Err(error) => read matches Err(e) && e == error,
        },
{
    match array_member(document, LIST_MEMBER) {
        None => Err(ParseError::NoSubscriptionList),
        Some(items) => {
            let ghost models = array_member_of(json_model(*document), LIST_MEMBER@)->Some_0;
            let mut entries: Vec<Subscription> = Vec::new();
            let mut i: usize = 0;
            assert(models.take(0) =~= Seq::<JsonModel>::empty());
            assert(channel_views(entries@) =~= Seq::<SubscriptionView>::empty());
            while i < items.len()
                invariant
                    i <= items@.len(),
                    models.len() == items@.len(),
                    forall|k: int|
                        0 <= k < items@.len() ==> json_model(#[trigger] items@[k]) == models[k],
                    channel_views(entries@) == entries_of_items(models.take(i as int)),
                decreases items@.len() - i,
            {
                assert(models.take(i + 1).drop_last() =~= models.take(i as int));
                assert(models.take(i + 1).last() == json_model(items@[i as int]));
                match subscription_of_item(&items[i]) {
                    Some(entry) => {
                        let ghost earlier = entries@;
                        entries.push(entry);
                        assert(channel_views(entries@) =~= channel_views(earlier).push(entry@));
                    },
                    None => {},
                }
                i += 1;
            }
            assert(models.take(models.len() as int) =~= models);
            Ok(Subscriptions::from_entries(&entries))
        },
    }
}

/// Reads a structured export.
pub fn read_newpipe(bytes: &[u8]) -> (read: Result<Subscriptions, ParseError>)
    ensures
        match newpipe_outcome(bytes@) {
            Ok(channels) => read matches Ok(subs) && subs@ == channels && subs.well_formed(),
            Err(error) => read matches Err(e) && e == error,
        },
{
    match as_text(bytes) {
        None => Err(ParseError::NotText),
        Some(text) => match parse_document(text) {
            Err(_) => Err(ParseError::NotJson),
            Ok(document) => subscriptions_of_document(&document),
        },
    }
}

} // verus!
