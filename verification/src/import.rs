//! Importing an export file: which reader is tried first, and what
//! happens when it fails.

use vstd::prelude::*;
use crate::error::{ImportError, ParseError};
use crate::newpipe::{newpipe_outcome, read_newpipe};
use crate::store::encoded;
use crate::subscription::{dedup_by_id, has_id, lemma_dedup_ids, SubscriptionView, Subscriptions};
use crate::tabular::{read_youtube, tabular_outcome};
use crate::text::same_text;

verus! {

/// Content type that announces a tabular export.
pub const TABULAR_MIME: &'static str = "text/csv";

/// What reading a file comes to. A file announced as [`TABULAR_MIME`] is
/// read as a tabular export, any other as a structured export. Where that
/// reader refuses the file, the other reader is tried, and its outcome is
/// the outcome.
pub open spec fn read_outcome(mime: Seq<char>, bytes: Seq<u8>) -> Result<
    Seq<SubscriptionView>,
    ParseError,
> {
    if mime == TABULAR_MIME@ {
        match tabular_outcome(bytes) {
            Ok(channels) => Ok(channels),
            Err(_) => newpipe_outcome(bytes),
        }
    } else {
        match newpipe_outcome(bytes) {
            Ok(channels) => Ok(channels),
            Err(_) => tabular_outcome(bytes),
        }
    }
}

/// `read` is what reading the file `bytes`, announced as `mime`, returns.
pub open spec fn is_read_of(mime: Seq<char>, bytes: Seq<u8>, read: Result<Subscriptions, ParseError>) -> bool {
    match read_outcome(mime, bytes) {
        Ok(channels) => read matches Ok(subs) && subs@ == channels && subs.well_formed(),
        Err(error) => read matches Err(e) && e == error,
    }
}

/// What an import hands back: the list that replaces the current one, and
/// the text to store for it.
#[derive(Debug, Clone, PartialEq, Eq)]
pub struct Imported {
    pub subscriptions: Subscriptions,
    pub stored: String,
}

/// `imported` is what importing the selection returns. Nothing selected is
/// an error; so is a file that neither reader can read.
pub open spec fn is_import_of(
    selection: Option<(Seq<char>, Seq<u8>)>,
    imported: Result<Imported, ImportError>,
) -> bool {
    match selection {
        None => imported matches Err(e) && e == ImportError::NoFileSelected,
        Some((mime, bytes)) => match read_outcome(mime, bytes) {
            Ok(channels) => imported matches Ok(i) && i.subscriptions@ == channels
                && i.subscriptions.well_formed() && i.stored@ == encoded(channels),
            Err(error) => imported matches Err(e) && e == ImportError::Parse(error),
        },
    }
}

/// What was selected, as plain values.
pub open spec fn selection_view(selection: Option<(&str, &[u8])>) -> Option<(Seq<char>, Seq<u8>)> {
    match selection {
        Some((mime, bytes)) => Some((mime@, bytes@)),
        None => None,
    }
}

impl Subscriptions {
    /// Reads the export file `bytes`, whose declared content type is
    /// `mime`.
    pub fn read_subs(mime: &str, bytes: &[u8]) -> (read: Result<Subscriptions, ParseError>)
        ensures
            is_read_of(mime@, bytes@, read),
    {
        if same_text(mime, TABULAR_MIME) {
            match read_youtube(bytes) {
                Ok(subs) => Ok(subs),
                Err(_) => read_newpipe(bytes),
            }
        } else {
            match read_newpipe(bytes) {
                Ok(subs) => Ok(subs),
                Err(_) => read_youtube(bytes),
            }
        }
    }
}

/// Imports the selected file: reads it and prepares what is to be stored.
/// The list that comes back replaces the current one as a whole.
pub fn import_selected_file(selection: Option<(&str, &[u8])>) -> (imported: Result<
    Imported,
    ImportError,
>)
    ensures
        is_import_of(selection_view(selection), imported),
{
    match selection {
        None => Err(ImportError::NoFileSelected),
        Some((mime, bytes)) => match Subscriptions::read_subs(mime, bytes) {
            Ok(subscriptions) => {
                let stored = subscriptions.save();
                Ok(Imported { subscriptions, stored })
            },
            Err(error) => Err(ImportError::Parse(error)),
        },
    }
}

/// Importing the same file twice gives the same list: whatever two reads
/// of one file return, they agree.
pub proof fn lemma_import_is_repeatable(
    mime: Seq<char>,
    bytes: Seq<u8>,
    first: Result<Subscriptions, ParseError>,
    second: Result<Subscriptions, ParseError>,
)
    requires
        is_read_of(mime, bytes, first),
        is_read_of(mime, bytes, second),
    ensures
        first is Ok <==> second is Ok,
        first is Ok ==> first->Ok_0@ == second->Ok_0@,
        first is Err ==> first->Err_0 == second->Err_0,
{
}

/// A list that holds every channel twice comes to the same as the list
/// that holds each once: entries that are repeated add nothing.
pub proof fn lemma_repeated_entries_add_nothing(
    entries: Seq<SubscriptionView>,
    repeated: Seq<SubscriptionView>,
)
    requires
        forall|i: int| 0 <= i < repeated.len() ==> has_id(entries, #[trigger] repeated[i].id),
    ensures
        dedup_by_id(entries + repeated) == dedup_by_id(entries),
    decreases repeated.len(),
{
    if repeated.len() == 0 {
        assert(entries + repeated =~= entries);
    } else {
        let init = repeated.drop_last();
        assert forall|i: int| 0 <= i < init.len() implies has_id(entries, #[trigger] init[i].id) by {
            assert(init[i] == repeated[i]);
        }
        lemma_repeated_entries_add_nothing(entries, init);
        assert((entries + repeated).drop_last() =~= entries + init);
        assert((entries + repeated).last() == repeated.last());
        lemma_dedup_ids(entries);
        assert(has_id(entries, repeated[repeated.len() - 1].id));
        assert(has_id(dedup_by_id(entries), repeated.last().id));
    }
}

} // verus!
