//! The tabular export: comma-separated rows of channel id, channel address
//! and channel title.
//!
//! Rows end with a line feed, fields with a comma. A field that starts
//! with a double quote runs to the closing quote and may hold commas and
//! line feeds; a quote inside it is written twice. Carriage returns outside
//! quoted fields are ignored, and so is a byte order mark at the start of
//! the text. The first row may be a header.

use vstd::prelude::*;
use vstd::string::StrSliceExecFns;
use crate::error::ParseError;
use crate::subscription::{channel_views, dedup_by_id, Subscription, SubscriptionView, Subscriptions};
use crate::text::{as_text, same_text, text_of};

verus! {

/// Column of the channel id.
pub const ID_COLUMN: usize = 0;

/// Column of the channel title.
pub const TITLE_COLUMN: usize = 2;

/// First field of a header row.
pub const HEADER_ID: &'static str = "Channel Id";

/// The mark that some programs put at the start of a text.
pub const BYTE_ORDER_MARK: char = '\u{feff}';

/// A row: its fields, in order.
pub type RowView = Seq<Seq<char>>;

/// Where in a field a scanner is.
#[derive(Debug, Clone, Copy, PartialEq, Eq, Structural)]
pub enum Mode {
    /// In a field without quotes, or at the start of a field.
    Plain,
    /// Between the quotes of a quoted field.
    Quoted,
    /// Behind a quote inside a quoted field: the field ends here, unless
    /// another quote follows.
    Closed,
}

/// What a scanner of a table knows after some of its text.
pub struct Scanner {
    /// The rows read in full.
    pub rows: Seq<RowView>,
    /// The fields read in full of the row being read.
    pub row: RowView,
    /// The field being read, as far as it was read.
    pub field: Seq<char>,
    pub mode: Mode,
    /// The text read is not the beginning of any table.
    pub failed: bool,
}

/// The scanner before any text.
pub open spec fn scanner_at_start() -> Scanner {
    Scanner {
        rows: Seq::empty(),
        row: Seq::empty(),
        field: Seq::empty(),
        mode: Mode::Plain,
        failed: false,
    }
}

/// The scanner `s` once the field being read has ended.
pub open spec fn end_field(s: Scanner) -> Scanner {
    Scanner { row: s.row.push(s.field), field: Seq::empty(), mode: Mode::Plain, ..s }
}

/// The scanner `s` once the row being read has ended.
pub open spec fn end_row(s: Scanner) -> Scanner {
    Scanner {
        rows: s.rows.push(s.row.push(s.field)),
        row: Seq::empty(),
        field: Seq::empty(),
        mode: Mode::Plain,
        ..s
    }
}

/// The scanner `s` after one more character.
pub open spec fn scan_char(s: Scanner, c: char) -> Scanner {
    if s.failed {
        s
    } else {
        match s.mode {
            Mode::Quoted => if c == '"' {
                Scanner { mode: Mode::Closed, ..s }
            } else {
                Scanner { field: s.field.push(c), ..s }
            },
            Mode::Closed => if c == '"' {
                Scanner { field: s.field.push('"'), mode: Mode::Quoted, ..s }
            } else if c == ',' {
                end_field(s)
            } else if c == '\n' {
                end_row(s)
            } else if c == '\r' {
                s
            } else {
                Scanner { failed: true, ..s }
            },
            Mode::Plain => if c == '"' {
                if s.field.len() == 0 {
                    Scanner { mode: Mode::Quoted, ..s }
                } else {
                    Scanner { failed: true, ..s }
                }
            } else if c == ',' {
                end_field(s)
            } else if c == '\n' {
                end_row(s)
            } else if c == '\r' {
                s
            } else {
                Scanner { field: s.field.push(c), ..s }
            },
        }
    }
}

/// The scanner `s` after `text`.
pub open spec fn scan_text(s: Scanner, text: Seq<char>) -> Scanner
    decreases text.len(),
{
    if text.len() == 0 {
        s
    } else {
        scan_char(scan_text(s, text.drop_last()), text.last())
    }
}

/// The rows of a table, or `None` where the text is no table: where a
/// quote stands inside an unquoted field, anything but a comma or a line
/// break follows a closing quote, or a quoted field is not closed.
///
/// Text behind the last line feed is a row of its own.
pub open spec fn table_rows(text: Seq<char>) -> Option<Seq<RowView>> {
    let s = scan_text(scanner_at_start(), text);
    if s.failed || s.mode == Mode::Quoted {
        None
    } else if s.mode == Mode::Plain && s.row.len() == 0 && s.field.len() == 0 {
        Some(s.rows)
    } else {
        Some(s.rows.push(s.row.push(s.field)))
    }
}

/// Whether `row` is a header: its first field is [`HEADER_ID`].
pub open spec fn is_header(row: RowView) -> bool {
    row.len() > ID_COLUMN && row[ID_COLUMN as int] == HEADER_ID@
}

/// The subscription that `row` stands for. A row without a channel id
/// stands for none; a row without a title stands for a channel without a
/// name.
pub open spec fn entry_of_row(row: RowView) -> Option<SubscriptionView> {
    if row.len() > ID_COLUMN && row[ID_COLUMN as int].len() > 0 {
        Some(
            SubscriptionView {
                id: row[ID_COLUMN as int],
                name: if row.len() > TITLE_COLUMN {
                    row[TITLE_COLUMN as int]
                } else {
                    Seq::empty()
                },
            },
        )
    } else {
        None
    }
}

/// The subscriptions that `rows` stand for, in order. Rows that stand for
/// none are left out.
pub open spec fn entries_of_rows(rows: Seq<RowView>) -> Seq<SubscriptionView>
    decreases rows.len(),
{
    if rows.len() == 0 {
        Seq::empty()
    } else {
        let earlier = entries_of_rows(rows.drop_last());
        match entry_of_row(rows.last()) {
            Some(entry) => earlier.push(entry),
            None => earlier,
        }
    }
}

/// The rows of a table behind its header, if it has one.
pub open spec fn data_rows(rows: Seq<RowView>) -> Seq<RowView> {
    if rows.len() > 0 && is_header(rows[0]) {
        rows.skip(1)
    } else {
        rows
    }
}

/// The subscriptions of a table: those of its data rows, without the ones
/// whose id occurred in an earlier row.
pub open spec fn table_subscriptions(rows: Seq<RowView>) -> Seq<SubscriptionView> {
    dedup_by_id(entries_of_rows(data_rows(rows)))
}

/// `text` without the byte order mark that it may start with.
pub open spec fn without_mark(text: Seq<char>) -> Seq<char> {
    if text.len() > 0 && text[0] == BYTE_ORDER_MARK {
        text.skip(1)
    } else {
        text
    }
}

/// What reading `bytes` as a tabular export comes to.
pub open spec fn tabular_outcome(bytes: Seq<u8>) -> Result<Seq<SubscriptionView>, ParseError> {
    match text_of(bytes) {
        None => Err(ParseError::NotText),
        Some(text) => match table_rows(without_mark(text)) {
            None => Err(ParseError::BrokenTable),
            Some(rows) => Ok(table_subscriptions(rows)),
        },
    }
}

/// The fields of a row, as text.
pub open spec fn row_view(row: Vec<String>) -> RowView {
    row@.map_values(|field: String| field@)
}

/// The rows of a table, as text.
pub open spec fn rows_view(rows: Seq<Vec<String>>) -> Seq<RowView> {
    rows.map_values(|row: Vec<String>| row_view(row))
}

/// Scanning two texts one after the other is scanning them joined.
pub proof fn lemma_scan_joined(s: Scanner, a: Seq<char>, b: Seq<char>)
    ensures
        scan_text(s, a + b) == scan_text(scan_text(s, a), b),
    decreases b.len(),
{
    if b.len() == 0 {
        assert(a + b =~= a);
    } else {
        assert((a + b).drop_last() =~= a + b.drop_last());
        lemma_scan_joined(s, a, b.drop_last());
    }
}

/// A scanner that failed stays failed.
pub proof fn lemma_scan_failure_stays(s: Scanner, text: Seq<char>)
    requires
        s.failed,
    ensures
        scan_text(s, text).failed,
    decreases text.len(),
{
    if text.len() > 0 {
        lemma_scan_failure_stays(s, text.drop_last());
    }
}

/// A text of which a beginning already fails is no table.
proof fn lemma_broken_beginning(text: Seq<char>, k: int)
    requires
        0 <= k <= text.len(),
        scan_text(scanner_at_start(), text.take(k)).failed,
    ensures
        table_rows(text) is None,
{
    assert(text =~= text.take(k) + text.skip(k));
    lemma_scan_joined(scanner_at_start(), text.take(k), text.skip(k));
    lemma_scan_failure_stays(scan_text(scanner_at_start(), text.take(k)), text.skip(k));
}

/// Splits the text of a table into its rows.
pub fn parse_table(text: &str) -> (table: Option<Vec<Vec<String>>>)
    ensures
        match table {
            Some(rows) => table_rows(text@) == Some(rows_view(rows@)),
            None => table_rows(text@) is None,
        },
{
    let mut rows: Vec<Vec<String>> = Vec::new();
    let mut row: Vec<String> = Vec::new();
    let mut field = String::new();
    let mut mode = Mode::Plain;
    assert(text@.take(0) =~= Seq::<char>::empty());
    assert(rows_view(rows@) =~= Seq::<RowView>::empty());
    assert(row_view(row) =~= Seq::<Seq<char>>::empty());
    for c in it: text.chars()
        invariant
            it.seq() == text@,
            scan_text(scanner_at_start(), text@.take(it.index() as int)) == (Scanner {
                rows: rows_view(rows@),
                row: row_view(row),
                field: field@,
                mode,
                failed: false,
            }),
    {
        let ghost k = it.index() as int;
        let ghost s = scan_text(scanner_at_start(), text@.take(k));
        assert(text@.take(k + 1).drop_last() =~= text@.take(k));
        assert(text@.take(k + 1).last() == c);
        assert(scan_text(scanner_at_start(), text@.take(k + 1)) == scan_char(s, c));
        let at_field_start = field.as_str().is_empty();
        let in_quotes = match mode {
            Mode::Quoted => true,
            _ => false,
        };
        let closed = match mode {
            Mode::Closed => true,
            _ => false,
        };
        if in_quotes {
            if c == '"' {
                mode = Mode::Closed;
            } else {
                field.push(c);
            }
        } else if c == '"' {
            if closed {
                field.push('"');
                mode = Mode::Quoted;
            } else if at_field_start {
                mode = Mode::Quoted;
            } else {
                proof {
                    lemma_broken_beginning(text@, k + 1);
                }
                return None;
            }
        } else if c == ',' {
            row.push(field);
            field = String::new();
            mode = Mode::Plain;
            assert(row_view(row) =~= s.row.push(s.field));
        } else if c == '\n' {
            row.push(field);
            assert(row_view(row) =~= s.row.push(s.field));
            rows.push(row);
            row = Vec::new();
            field = String::new();
            mode = Mode::Plain;
            assert(rows_view(rows@) =~= s.rows.push(s.row.push(s.field)));
            assert(row_view(row) =~= Seq::<Seq<char>>::empty());
        } else if c == '\r' {
        } else if closed {
            proof {
                lemma_broken_beginning(text@, k + 1);
            }
            return None;
        } else {
            field.push(c);
        }
    }
    assert(text@.take(text@.len() as int) =~= text@);
    let ghost s = scan_text(scanner_at_start(), text@);
    match mode {
        Mode::Quoted => None,
        Mode::Closed => {
            row.push(field);
            assert(row_view(row) =~= s.row.push(s.field));
            rows.push(row);
            assert(rows_view(rows@) =~= s.rows.push(s.row.push(s.field)));
            Some(rows)
        },
        Mode::Plain => {
            if row.len() == 0 && field.as_str().is_empty() {
                Some(rows)
            } else {
                row.push(field);
                assert(row_view(row) =~= s.row.push(s.field));
                rows.push(row);
                assert(rows_view(rows@) =~= s.rows.push(s.row.push(s.field)));
                Some(rows)
            }
        },
    }
}

/// The subscription that a row stands for, if it stands for one.
fn subscription_of_row(row: &Vec<String>) -> (entry: Option<Subscription>)
    ensures
        match entry {
            Some(e) => entry_of_row(row_view(*row)) == Some(e@),
            None => entry_of_row(row_view(*row)) is None,
        },
{
    if row.len() > ID_COLUMN && !row[ID_COLUMN].as_str().is_empty() {
        let id = row[ID_COLUMN].clone();
        let name = if row.len() > TITLE_COLUMN {
            row[TITLE_COLUMN].clone()
        } else {
            String::new()
        };
        Some(Subscription { id, name })
    } else {
        None
    }
}

/// The subscriptions of a table that was split into rows.
pub fn subscriptions_of_rows(rows: &Vec<Vec<String>>) -> (subs: Subscriptions)
    ensures
        subs@ == table_subscriptions(rows_view(rows@)),
        subs.well_formed(),
{
    let ghost table = rows_view(rows@);
    let mut start: usize = 0;
    if rows.len() > 0 && rows[0].len() > ID_COLUMN && same_text(
        rows[0][ID_COLUMN].as_str(),
        HEADER_ID,
    ) {
        start = 1;
    }
    let ghost data = data_rows(table);
    assert(data == table.skip(start as int));
    let mut entries: Vec<Subscription> = Vec::new();
    let mut i: usize = start;
    assert(data.take(0) =~= Seq::<RowView>::empty());
    assert(channel_views(entries@) =~= Seq::<SubscriptionView>::empty());
    while i < rows.len()
        invariant
            start <= i <= rows@.len(),
            table == rows_view(rows@),
            data == table.skip(start as int),
            channel_views(entries@) == entries_of_rows(data.take(i - start)),
        decreases rows@.len() - i,
    {
        assert(data.take(i - start + 1).drop_last() =~= data.take(i - start));
        assert(data.take(i - start + 1).last() == row_view(rows@[i as int]));
        match subscription_of_row(&rows[i]) {
            Some(entry) => {
                let ghost earlier = entries@;
                entries.push(entry);
                assert(channel_views(entries@) =~= channel_views(earlier).push(entry@));
            },
            None => {},
        }
        i += 1;
    }
    assert(data.take(rows@.len() - start) =~= data);
    Subscriptions::from_entries(&entries)
}

/// `text` without the byte order mark that it may start with.
pub fn strip_mark(text: &str) -> (rest: &str)
    ensures
        rest@ == without_mark(text@),
{
    let len = text.unicode_len();
    if len > 0 && text.get_char(0) == BYTE_ORDER_MARK {
        text.substring_char(1, len)
    } else {
        text
    }
}

/// Reads a tabular export.
pub fn read_youtube(bytes: &[u8]) -> (read: Result<Subscriptions, ParseError>)
    ensures
        match tabular_outcome(bytes@) {
            Ok(channels) => read matches Ok(subs) && subs@ == channels && subs.well_formed(),
            Err(error) => read matches Err(e) && e == error,
        },
{
    match as_text(bytes) {
        None => Err(ParseError::NotText),
        Some(text) => match parse_table(strip_mark(text)) {
            None => Err(ParseError::BrokenTable),
            Some(rows) => Ok(subscriptions_of_rows(&rows)),
        },
    }
}

/// A field with its quotes written twice.
pub open spec fn doubled(field: Seq<char>) -> Seq<char>
    decreases field.len(),
{
    if field.len() == 0 {
        Seq::empty()
    } else if field.last() == '"' {
        doubled(field.drop_last()) + seq!['"', '"']
    } else {
        doubled(field.drop_last()).push(field.last())
    }
}

/// A field written between quotes.
pub open spec fn quoted(field: Seq<char>) -> Seq<char> {
    seq!['"'] + doubled(field) + seq!['"']
}

/// The fields of a row written between quotes, with commas between them.
pub open spec fn written_fields(row: RowView) -> Seq<char>
    recommends
        row.len() > 0,
    decreases row.len(),
{
    if row.len() <= 1 {
        quoted(row.last())
    } else {
        written_fields(row.drop_last()) + seq![','] + quoted(row.last())
    }
}

/// A table written with every field between quotes and every row ended by
/// a line feed.
pub open spec fn written_table(rows: Seq<RowView>) -> Seq<char>
    decreases rows.len(),
{
    if rows.len() == 0 {
        Seq::empty()
    } else {
        written_table(rows.drop_last()) + written_fields(rows.last()) + seq!['\n']
    }
}

/// Scanning one character.
proof fn lemma_scan_one(s: Scanner, c: char)
    ensures
        scan_text(s, seq![c]) == scan_char(s, c),
{
    reveal_with_fuel(scan_text, 2);
    assert(seq![c].drop_last() =~= Seq::<char>::empty());
}

/// Between quotes, a field whose quotes were written twice is scanned as
/// it was.
proof fn lemma_scan_doubled(s: Scanner, field: Seq<char>)
    requires
        !s.failed,
        s.mode == Mode::Quoted,
    ensures
        scan_text(s, doubled(field)) == (Scanner { field: s.field + field, ..s }),
    decreases field.len(),
{
    if field.len() == 0 {
        assert(s.field + field =~= s.field);
    } else {
        let init = field.drop_last();
        let mid = Scanner { field: s.field + init, ..s };
        lemma_scan_doubled(s, init);
        if field.last() == '"' {
            lemma_scan_joined(s, doubled(init), seq!['"', '"']);
            assert(seq!['"', '"'] =~= seq!['"'] + seq!['"']);
            lemma_scan_joined(mid, seq!['"'], seq!['"']);
            lemma_scan_one(mid, '"');
            lemma_scan_one(scan_char(mid, '"'), '"');
        } else {
            assert(doubled(init).push(field.last()) =~= doubled(init) + seq![field.last()]);
            lemma_scan_joined(s, doubled(init), seq![field.last()]);
            lemma_scan_one(mid, field.last());
        }
        assert((s.field + init).push(field.last()) =~= s.field + field);
    }
}

/// At the start of a field, a field written between quotes is scanned as
/// it was.
proof fn lemma_scan_quoted(s: Scanner, field: Seq<char>)
    requires
        !s.failed,
        s.mode == Mode::Plain,
        s.field.len() == 0,
    ensures
        scan_text(s, quoted(field)) == (Scanner { field, mode: Mode::Closed, ..s }),
{
    lemma_scan_joined(s, seq!['"'] + doubled(field), seq!['"']);
    lemma_scan_joined(s, seq!['"'], doubled(field));
    lemma_scan_one(s, '"');
    let opened = scan_char(s, '"');
    lemma_scan_doubled(opened, field);
    let inside = scan_text(opened, doubled(field));
    assert(inside.field =~= field);
    lemma_scan_one(inside, '"');
}

/// At the start of a row, the written fields of a row are scanned as they
/// were.
proof fn lemma_scan_fields(rows: Seq<RowView>, row: RowView)
    requires
        row.len() > 0,
    ensures
        scan_text(
            Scanner { rows, ..scanner_at_start() },
            written_fields(row),
        ) == (Scanner {
            rows,
            row: row.drop_last(),
            field: row.last(),
            mode: Mode::Closed,
            failed: false,
        }),
    decreases row.len(),
{
    let start = Scanner { rows, ..scanner_at_start() };
    if row.len() == 1 {
        lemma_scan_quoted(start, row.last());
        assert(row.drop_last() =~= Seq::<Seq<char>>::empty());
    } else {
        let init = row.drop_last();
        lemma_scan_fields(rows, init);
        lemma_scan_joined(start, written_fields(init) + seq![','], quoted(row.last()));
        lemma_scan_joined(start, written_fields(init), seq![',']);
        let before = scan_text(start, written_fields(init));
        lemma_scan_one(before, ',');
        assert(init.drop_last().push(init.last()) =~= init);
        lemma_scan_quoted(scan_char(before, ','), row.last());
    }
}

/// The scanner after a written table stands at the start of a row, with
/// the rows of the table read.
proof fn lemma_scan_table(rows: Seq<RowView>)
    requires
        forall|i: int| 0 <= i < rows.len() ==> (#[trigger] rows[i]).len() > 0,
    ensures
        scan_text(scanner_at_start(), written_table(rows)) == (Scanner {
            rows,
            ..scanner_at_start()
        }),
    decreases rows.len(),
{
    if rows.len() == 0 {
        assert(rows =~= Seq::<RowView>::empty());
    } else {
        let init = rows.drop_last();
        let row = rows.last();
        assert forall|i: int| 0 <= i < init.len() implies (#[trigger] init[i]).len() > 0 by {
            assert(init[i] == rows[i]);
        }
        lemma_scan_table(init);
        let start = scanner_at_start();
        lemma_scan_joined(start, written_table(init) + written_fields(row), seq!['\n']);
        lemma_scan_joined(start, written_table(init), written_fields(row));
        lemma_scan_fields(init, row);
        let closed = scan_text(Scanner { rows: init, ..start }, written_fields(row));
        lemma_scan_one(closed, '\n');
        assert(row.drop_last().push(row.last()) =~= row);
        assert(init.push(row) =~= rows);
    }
}

/// `field` holds none of the characters that mean something to a scanner:
/// no quote, no comma, no line feed and no carriage return.
pub open spec fn is_plain(field: Seq<char>) -> bool {
    forall|i: int|
        0 <= i < field.len() ==> field[i] != '"' && field[i] != ',' && field[i] != '\n'
            && field[i] != '\r'
}

/// The fields of a row as they are, with commas between them.
pub open spec fn plain_fields(row: RowView) -> Seq<char>
    recommends
        row.len() > 0,
    decreases row.len(),
{
    if row.len() <= 1 {
        row.last()
    } else {
        plain_fields(row.drop_last()) + seq![','] + row.last()
    }
}

/// A table written without quotes, every row ended by a line feed.
pub open spec fn plain_table(rows: Seq<RowView>) -> Seq<char>
    decreases rows.len(),
{
    if rows.len() == 0 {
        Seq::empty()
    } else {
        plain_table(rows.drop_last()) + plain_fields(rows.last()) + seq!['\n']
    }
}

/// Outside quotes, a plain field is scanned as it is.
proof fn lemma_scan_plain(s: Scanner, field: Seq<char>)
    requires
        !s.failed,
        s.mode == Mode::Plain,
        is_plain(field),
    ensures
        scan_text(s, field) == (Scanner { field: s.field + field, ..s }),
    decreases field.len(),
{
    if field.len() == 0 {
        assert(s.field + field =~= s.field);
    } else {
        let init = field.drop_last();
        assert forall|i: int| 0 <= i < init.len() implies init[i] != '"' && init[i] != ','
            && init[i] != '\n' && init[i] != '\r' by {
            assert(init[i] == field[i]);
        }
        lemma_scan_plain(s, init);
        assert((s.field + init).push(field.last()) =~= s.field + field);
    }
}

/// At the start of a row, the plain fields of a row are scanned as they
/// are.
proof fn lemma_scan_plain_fields(rows: Seq<RowView>, row: RowView)
    requires
        row.len() > 0,
        forall|i: int| 0 <= i < row.len() ==> is_plain(#[trigger] row[i]),
    ensures
        scan_text(
            Scanner { rows, ..scanner_at_start() },
            plain_fields(row),
        ) == (Scanner { rows, row: row.drop_last(), field: row.last(), ..scanner_at_start() }),
    decreases row.len(),
{
    let start = Scanner { rows, ..scanner_at_start() };
    if row.len() == 1 {
        lemma_scan_plain(start, row.last());
        assert(row.drop_last() =~= Seq::<Seq<char>>::empty());
        assert(Seq::<char>::empty() + row.last() =~= row.last());
    } else {
        let init = row.drop_last();
        assert forall|i: int| 0 <= i < init.len() implies is_plain(#[trigger] init[i]) by {
            assert(init[i] == row[i]);
        }
        lemma_scan_plain_fields(rows, init);
        lemma_scan_joined(start, plain_fields(init) + seq![','], row.last());
        lemma_scan_joined(start, plain_fields(init), seq![',']);
        let before = scan_text(start, plain_fields(init));
        lemma_scan_one(before, ',');
        assert(init.drop_last().push(init.last()) =~= init);
        lemma_scan_plain(scan_char(before, ','), row.last());
        assert(Seq::<char>::empty() + row.last() =~= row.last());
    }
}

/// A table of plain fields, written without quotes, is read back as it
/// was: fields are parted at the commas and rows at the line feeds. (A
/// row has at least one field.)
pub proof fn lemma_plain_table_is_read_back(rows: Seq<RowView>)
    requires
        forall|i: int| 0 <= i < rows.len() ==> (#[trigger] rows[i]).len() > 0,
        forall|i: int, j: int|
            0 <= i < rows.len() && 0 <= j < rows[i].len() ==> is_plain(#[trigger] rows[i][j]),
    ensures
        scan_text(scanner_at_start(), plain_table(rows)) == (Scanner {
            rows,
            ..scanner_at_start()
        }),
        table_rows(plain_table(rows)) == Some(rows),
    decreases rows.len(),
{
    if rows.len() == 0 {
        assert(rows =~= Seq::<RowView>::empty());
    } else {
        let init = rows.drop_last();
        let row = rows.last();
        assert forall|i: int| 0 <= i < init.len() implies (#[trigger] init[i]).len() > 0 by {
            assert(init[i] == rows[i]);
        }
        assert forall|i: int, j: int| 0 <= i < init.len() && 0 <= j < init[i].len() implies is_plain(
            #[trigger] init[i][j],
        ) by {
            assert(init[i] == rows[i]);
        }
        assert forall|j: int| 0 <= j < row.len() implies is_plain(#[trigger] row[j]) by {
            assert(row == rows[rows.len() - 1]);
        }
        lemma_plain_table_is_read_back(init);
        let start = scanner_at_start();
        lemma_scan_joined(start, plain_table(init) + plain_fields(row), seq!['\n']);
        lemma_scan_joined(start, plain_table(init), plain_fields(row));
        lemma_scan_plain_fields(init, row);
        let scanned = scan_text(Scanner { rows: init, ..start }, plain_fields(row));
        lemma_scan_one(scanned, '\n');
        assert(row.drop_last().push(row.last()) =~= row);
        assert(init.push(row) =~= rows);
    }
}

/// Every table can be written so that it is read back as it was: with
/// every field between quotes, the quotes inside a field written twice,
/// commas between the fields and a line feed behind every row. (A row has
/// at least one field.)
pub proof fn lemma_written_table_is_read_back(rows: Seq<RowView>)
    requires
        forall|i: int| 0 <= i < rows.len() ==> (#[trigger] rows[i]).len() > 0,
    ensures
        table_rows(written_table(rows)) == Some(rows),
{
    lemma_scan_table(rows);
}

} // verus!
