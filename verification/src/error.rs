//! What can go wrong when subscriptions are imported.

use vstd::prelude::*;

verus! {

/// Why an export file cannot be read at all.
///
/// A row or an entry that cannot be used does not fail the import: it is
/// left out. These errors say that the file as a whole is not what the
/// reader expects.
#[derive(Debug, Clone, Copy, PartialEq, Eq, Structural)]
pub enum ParseError {
    /// The bytes are not UTF-8 text.
    NotText,
    /// The text cannot be split into rows: a quoted field is not closed, a
    /// quote stands inside an unquoted field, or text follows a closing
    /// quote.
    BrokenTable,
    /// The text is not a JSON document.
    NotJson,
    /// The document holds no list of subscriptions.
    NoSubscriptionList,
}

/// Why an import came to nothing.
#[derive(Debug, Clone, Copy, PartialEq, Eq, Structural)]
pub enum ImportError {
    /// No file was selected.
    NoFileSelected,
    /// The selected file cannot be read in either format.
    Parse(ParseError),
}

} // verus!
