//! The persisted form of the subscription list.
//!
//! The list is kept as text under one key. The text starts with a line
//! that names the version of the format, `v1`. Each further line holds one
//! channel: its id, a tab, its name. Within an id or a name a backslash, a
//! tab and a line feed are written as `\\`, `\t` and `\n`; every other
//! character stands for itself. Every line ends with a line feed.

use vstd::prelude::*;
use vstd::string::StrSliceExecFns;
use crate::subscription::{
    channel_views, dedup_by_id, lemma_dedup_ids, lemma_dedup_of_unique, unique_ids, Subscription,
    SubscriptionView, Subscriptions,
};

verus! {

/// Why a stored list cannot be used.
#[derive(Debug, Clone, Copy, PartialEq, Eq, Structural)]
pub enum StorageError {
    /// The stored text is not a subscription list in the format above.
    Corrupt,
}

/// The first line of the stored text.
pub open spec fn version_tag() -> Seq<char> {
    seq!['v', '1']
}

/// How one character of an id or a name is written.
pub open spec fn escaped_char(c: char) -> Seq<char> {
    if c == '\\' {
        seq!['\\', '\\']
    } else if c == '\t' {
        seq!['\\', 't']
    } else if c == '\n' {
        seq!['\\', 'n']
    } else {
        seq![c]
    }
}

/// How an id or a name is written.
pub open spec fn escaped(s: Seq<char>) -> Seq<char>
    decreases s.len(),
{
    if s.len() == 0 {
        Seq::empty()
    } else {
        escaped(s.drop_last()) + escaped_char(s.last())
    }
}

/// The line of one channel.
pub open spec fn line_of(channel: SubscriptionView) -> Seq<char> {
    escaped(channel.id) + seq!['\t'] + escaped(channel.name) + seq!['\n']
}

/// The lines of a run of channels.
pub open spec fn lines_of(channels: Seq<SubscriptionView>) -> Seq<char>
    decreases channels.len(),
{
    if channels.len() == 0 {
        Seq::empty()
    } else {
        lines_of(channels.drop_last()) + line_of(channels.last())
    }
}

/// The stored text of a list.
pub open spec fn encoded(channels: Seq<SubscriptionView>) -> Seq<char> {
    version_tag() + seq!['\n'] + lines_of(channels)
}

/// The part of the text that a reader is in.
#[derive(Debug, Clone, Copy, PartialEq, Eq, Structural)]
pub enum Stage {
    /// The first line.
    Version,
    /// The id of a channel, up to the tab.
    Id,
    /// The name of a channel, up to the end of the line.
    Name,
}

/// What a reader of stored text knows after some of it.
pub struct Reader {
    pub stage: Stage,
    /// The channels of the lines read in full.
    pub channels: Seq<SubscriptionView>,
    /// The id on the line being read, once its tab was read.
    pub id: Seq<char>,
    /// The part being read, as far as it was read.
    pub field: Seq<char>,
    /// The last character was a backslash that starts an escape.
    pub escaping: bool,
    /// The text read is not the beginning of any stored list.
    pub failed: bool,
}

/// The reader before any text.
pub open spec fn reader_at_start() -> Reader {
    Reader {
        stage: Stage::Version,
        channels: Seq::empty(),
        id: Seq::empty(),
        field: Seq::empty(),
        escaping: false,
        failed: false,
    }
}

/// The reader at the start of a channel's line, after `channels`.
pub open spec fn reader_at_line(channels: Seq<SubscriptionView>) -> Reader {
    Reader {
        stage: Stage::Id,
        channels,
        id: Seq::empty(),
        field: Seq::empty(),
        escaping: false,
        failed: false,
    }
}

/// The character that a backslash and `c` stand for.
pub open spec fn escape_meaning(c: char) -> Option<char> {
    if c == '\\' {
        Some('\\')
    } else if c == 't' {
        Some('\t')
    } else if c == 'n' {
        Some('\n')
    } else {
        None
    }
}

/// The reader `r` after one more character.
pub open spec fn read_char(r: Reader, c: char) -> Reader {
    if r.failed {
        r
    } else if r.escaping {
        match escape_meaning(c) {
            Some(meant) => Reader { field: r.field.push(meant), escaping: false, ..r },
            None => Reader { failed: true, ..r },
        }
    } else if c == '\\' {
        Reader { escaping: true, ..r }
    } else if c == '\t' {
        match r.stage {
            Stage::Id => Reader { stage: Stage::Name, id: r.field, field: Seq::empty(), ..r },
            _ => Reader { failed: true, ..r },
        }
    } else if c == '\n' {
        match r.stage {
            Stage::Version => if r.field == version_tag() {
                Reader { stage: Stage::Id, field: Seq::empty(), ..r }
            } else {
                Reader { failed: true, ..r }
            },
            Stage::Id => Reader { failed: true, ..r },
            Stage::Name => Reader {
                stage: Stage::Id,
                channels: r.channels.push(SubscriptionView { id: r.id, name: r.field }),
                id: Seq::empty(),
                field: Seq::empty(),
                ..r
            },
        }
    } else {
        Reader { field: r.field.push(c), ..r }
    }
}

/// The reader `r` after `text`.
pub open spec fn read_text(r: Reader, text: Seq<char>) -> Reader
    decreases text.len(),
{
    if text.len() == 0 {
        r
    } else {
        read_char(read_text(r, text.drop_last()), text.last())
    }
}

/// The channels that a stored text holds, or `None` where the text is not
/// a stored list: where its first line is not the version tag, a line has
/// no tab or more than one, a backslash is followed by anything but `\`,
/// `t` or `n`, or the last line is not ended.
pub open spec fn decoded(text: Seq<char>) -> Option<Seq<SubscriptionView>> {
    let r = read_text(reader_at_start(), text);
    if !r.failed && !r.escaping && r.stage == Stage::Id && r.field.len() == 0 {
        Some(r.channels)
    } else {
        None
    }
}

/// What loading makes of what the store holds under the key: nothing
/// stored is the empty list; a stored list is read and, should an id occur
/// twice in it, only its first channel is kept.
pub open spec fn load_outcome(stored: Option<Seq<char>>) -> Result<
    Seq<SubscriptionView>,
    StorageError,
> {
    match stored {
        None => Ok(Seq::empty()),
        Some(text) => match decoded(text) {
            Some(channels) => Ok(dedup_by_id(channels)),
            None => Err(StorageError::Corrupt),
        },
    }
}

/// Reading two texts one after the other is reading them joined.
pub proof fn lemma_read_joined(r: Reader, a: Seq<char>, b: Seq<char>)
    ensures
        read_text(r, a + b) == read_text(read_text(r, a), b),
    decreases b.len(),
{
    if b.len() == 0 {
        assert(a + b =~= a);
    } else {
        assert((a + b).drop_last() =~= a + b.drop_last());
        lemma_read_joined(r, a, b.drop_last());
    }
}

/// Reading one character.
proof fn lemma_read_one(r: Reader, c: char)
    ensures
        read_text(r, seq![c]) == read_char(r, c),
{
    reveal_with_fuel(read_text, 2);
    assert(seq![c].drop_last() =~= Seq::<char>::empty());
}

/// Reading two characters.
proof fn lemma_read_two(r: Reader, c: char, d: char)
    ensures
        read_text(r, seq![c, d]) == read_char(read_char(r, c), d),
{
    assert(seq![c, d].drop_last() =~= seq![c]);
    lemma_read_one(r, c);
}

/// A reader that failed stays failed.
pub proof fn lemma_failure_stays(r: Reader, text: Seq<char>)
    requires
        r.failed,
    ensures
        read_text(r, text).failed,
    decreases text.len(),
{
    if text.len() > 0 {
        lemma_failure_stays(r, text.drop_last());
    }
}

/// Reading what was written for a part gives the part back.
proof fn lemma_read_escaped(r: Reader, s: Seq<char>)
    requires
        !r.failed,
        !r.escaping,
        r.stage != Stage::Version,
    ensures
        read_text(r, escaped(s)) == (Reader { field: r.field + s, ..r }),
    decreases s.len(),
{
    if s.len() == 0 {
        assert(r.field + s =~= r.field);
    } else {
        let init = s.drop_last();
        let c = s.last();
        lemma_read_escaped(r, init);
        lemma_read_joined(r, escaped(init), escaped_char(c));
        let mid = Reader { field: r.field + init, ..r };
        if c == '\\' {
            lemma_read_two(mid, '\\', '\\');
        } else if c == '\t' {
            lemma_read_two(mid, '\\', 't');
        } else if c == '\n' {
            lemma_read_two(mid, '\\', 'n');
        } else {
            lemma_read_one(mid, c);
        }
        assert((r.field + init).push(c) =~= r.field + s);
    }
}

/// Reading the line of a channel adds the channel.
proof fn lemma_read_line(channels: Seq<SubscriptionView>, channel: SubscriptionView)
    ensures
        read_text(reader_at_line(channels), line_of(channel)) == reader_at_line(
            channels.push(channel),
        ),
{
    let r0 = reader_at_line(channels);
    let id = escaped(channel.id);
    let name = escaped(channel.name);
    lemma_read_joined(r0, id + seq!['\t'] + name, seq!['\n']);
    lemma_read_joined(r0, id + seq!['\t'], name);
    lemma_read_joined(r0, id, seq!['\t']);
    lemma_read_escaped(r0, channel.id);
    let r1 = read_text(r0, id);
    assert(r1.field =~= channel.id);
    lemma_read_one(r1, '\t');
    let r2 = read_char(r1, '\t');
    lemma_read_escaped(r2, channel.name);
    let r3 = read_text(r2, name);
    assert(r3.field =~= channel.name);
    lemma_read_one(r3, '\n');
}

/// Reading the lines of a run of channels adds the channels.
proof fn lemma_read_lines(before: Seq<SubscriptionView>, channels: Seq<SubscriptionView>)
    ensures
        read_text(reader_at_line(before), lines_of(channels)) == reader_at_line(before + channels),
    decreases channels.len(),
{
    if channels.len() == 0 {
        assert(before + channels =~= before);
    } else {
        let init = channels.drop_last();
        lemma_read_lines(before, init);
        lemma_read_joined(reader_at_line(before), lines_of(init), line_of(channels.last()));
        lemma_read_line(before + init, channels.last());
        assert((before + init).push(channels.last()) =~= before + channels);
    }
}

/// Every list is read back from its stored text as it was written.
pub proof fn lemma_decoded_encoded(channels: Seq<SubscriptionView>)
    ensures
        decoded(encoded(channels)) == Some(channels),
{
    let r0 = reader_at_start();
    let head = version_tag() + seq!['\n'];
    lemma_read_joined(r0, head, lines_of(channels));
    lemma_read_joined(r0, version_tag(), seq!['\n']);
    lemma_read_two(r0, 'v', '1');
    assert(version_tag() =~= seq!['v', '1']);
    let r1 = read_text(r0, version_tag());
    assert(r1.field =~= version_tag());
    lemma_read_one(r1, '\n');
    assert(read_text(r0, head) == reader_at_line(Seq::empty()));
    lemma_read_lines(Seq::empty(), channels);
    assert(Seq::<SubscriptionView>::empty() + channels =~= channels);
}

/// Saving a list and loading what was saved gives the list back: its
/// channels, their ids and names, in their order.
pub proof fn lemma_load_save_round_trip(channels: Seq<SubscriptionView>)
    requires
        unique_ids(channels),
    ensures
        load_outcome(Some(encoded(dedup_by_id(channels)))) == Ok::<
            Seq<SubscriptionView>,
            StorageError,
        >(channels),
{
    lemma_dedup_of_unique(channels);
    lemma_decoded_encoded(channels);
}

/// Saving any list, well formed or not, and loading what was saved gives
/// the list without the channels whose id occurred earlier.
pub proof fn lemma_load_save_any(channels: Seq<SubscriptionView>)
    ensures
        load_outcome(Some(encoded(dedup_by_id(channels)))) == Ok::<
            Seq<SubscriptionView>,
            StorageError,
        >(dedup_by_id(channels)),
{
    lemma_dedup_ids(channels);
    lemma_dedup_of_unique(dedup_by_id(channels));
    lemma_decoded_encoded(dedup_by_id(channels));
}

/// A text of which a beginning already fails is no stored list.
proof fn lemma_failed_beginning(text: Seq<char>, k: int)
    requires
        0 <= k <= text.len(),
        read_text(reader_at_start(), text.take(k)).failed,
    ensures
        decoded(text) is None,
{
    assert(text =~= text.take(k) + text.skip(k));
    lemma_read_joined(reader_at_start(), text.take(k), text.skip(k));
    lemma_failure_stays(read_text(reader_at_start(), text.take(k)), text.skip(k));
}

/// Appends to `out` what is written for the part `s`.
fn write_escaped(out: &mut String, s: &str)
    ensures
        final(out)@ == old(out)@ + escaped(s@),
{
    let ghost before = out@;
    assert(s@.take(0) =~= Seq::<char>::empty());
    assert(before + Seq::<char>::empty() =~= before);
    for c in it: s.chars()
        invariant
            it.seq() == s@,
            out@ == before + escaped(s@.take(it.index() as int)),
    {
        let ghost read = s@.take(it.index() as int);
        assert(s@.take(it.index() + 1).drop_last() =~= read);
        assert(s@.take(it.index() + 1).last() == c);
        if c == '\\' {
            out.push('\\');
            out.push('\\');
            assert(out@ =~= before + (escaped(read) + seq!['\\', '\\']));
        } else if c == '\t' {
            out.push('\\');
            out.push('t');
            assert(out@ =~= before + (escaped(read) + seq!['\\', 't']));
        } else if c == '\n' {
            out.push('\\');
            out.push('n');
            assert(out@ =~= before + (escaped(read) + seq!['\\', 'n']));
        } else {
            out.push(c);
            assert(out@ =~= before + (escaped(read) + seq![c]));
        }
    }
    assert(s@.take(s@.len() as int) =~= s@);
}

/// Whether `field` is the version tag.
fn is_version_tag(field: &String) -> (is_tag: bool)
    ensures
        is_tag == (field@ == version_tag()),
{
    let text = field.as_str();
    if text.unicode_len() != 2 {
        return false;
    }
    let is_tag = text.get_char(0) == 'v' && text.get_char(1) == '1';
    assert(is_tag ==> field@ =~= version_tag());
    is_tag
}

/// Reads a stored text.
pub fn decode(text: &str) -> (channels: Option<Vec<Subscription>>)
    ensures
        match channels {
            Some(list) => decoded(text@) == Some(channel_views(list@)),
            None => decoded(text@) is None,
        },
{
    let mut stage = Stage::Version;
    let mut channels: Vec<Subscription> = Vec::new();
    let mut id = String::new();
    let mut field = String::new();
    let mut escaping = false;
    assert(text@.take(0) =~= Seq::<char>::empty());
    assert(channel_views(channels@) =~= Seq::<SubscriptionView>::empty());
    for c in it: text.chars()
        invariant
            it.seq() == text@,
            read_text(reader_at_start(), text@.take(it.index() as int)) == (Reader {
                stage,
                channels: channel_views(channels@),
                id: id@,
                field: field@,
                escaping,
                failed: false,
            }),
    {
        let ghost k = it.index() as int;
        let ghost r = read_text(reader_at_start(), text@.take(k));
        assert(text@.take(k + 1).drop_last() =~= text@.take(k));
        assert(text@.take(k + 1).last() == c);
        assert(read_text(reader_at_start(), text@.take(k + 1)) == read_char(r, c));
        if escaping {
            if c == '\\' {
                field.push('\\');
            } else if c == 't' {
                field.push('\t');
            } else if c == 'n' {
                field.push('\n');
            } else {
                proof {
                    lemma_failed_beginning(text@, k + 1);
                }
                return None;
            }
            escaping = false;
        } else if c == '\\' {
            escaping = true;
        } else if c == '\t' {
            match stage {
                Stage::Id => {
                    id = field;
                    field = String::new();
                    stage = Stage::Name;
                },
                _ => {
                    proof {
                        lemma_failed_beginning(text@, k + 1);
                    }
                    return None;
                },
            }
        } else if c == '\n' {
            match stage {
                Stage::Version => {
                    if is_version_tag(&field) {
                        field = String::new();
                        stage = Stage::Id;
                    } else {
                        proof {
                            lemma_failed_beginning(text@, k + 1);
                        }
                        return None;
                    }
                },
                Stage::Id => {
                    proof {
                        lemma_failed_beginning(text@, k + 1);
                    }
                    return None;
                },
                Stage::Name => {
                    let ghost earlier = channels@;
                    let channel = Subscription { id, name: field };
                    id = String::new();
                    field = String::new();
                    channels.push(channel);
                    stage = Stage::Id;
                    assert(channel_views(channels@) =~= channel_views(earlier).push(channel@));
                },
            }
        } else {
            field.push(c);
        }
    }
    assert(text@.take(text@.len() as int) =~= text@);
    let at_line_start = match stage {
        Stage::Id => true,
        _ => false,
    };
    if !escaping && at_line_start && field.as_str().is_empty() {
        Some(channels)
    } else {
        None
    }
}

/// The text of what the store holds under the key, if it holds anything.
pub open spec fn stored_text(stored: Option<&str>) -> Option<Seq<char>> {
    match stored {
        Some(text) => Some(text@),
        None => None,
    }
}

impl Subscriptions {
    /// The text to store under [`crate::subscription::SUBS_KEY`]: that of
    /// this list without the channels whose id occurred earlier in it.
    pub fn save(&self) -> (text: String)
        ensures
            text@ == encoded(dedup_by_id(self@)),
            self.well_formed() ==> text@ == encoded(self@),
    {
        let list = self.deduplicated();
        let mut text = String::new();
        text.push('v');
        text.push('1');
        text.push('\n');
        assert(text@ =~= version_tag() + seq!['\n']);
        let mut i: usize = 0;
        assert(list@.take(0) =~= Seq::<SubscriptionView>::empty());
        assert(text@ + Seq::<char>::empty() =~= text@);
        while i < list.channels.len()
            invariant
                i <= list.channels@.len(),
                text@ == version_tag() + seq!['\n'] + lines_of(list@.take(i as int)),
            decreases list.channels@.len() - i,
        {
            let ghost done = lines_of(list@.take(i as int));
            let ghost head = version_tag() + seq!['\n'];
            assert(list@.take(i + 1).drop_last() =~= list@.take(i as int));
            assert(list@.take(i + 1).last() == list.channels@[i as int]@);
            let channel = &list.channels[i];
            write_escaped(&mut text, channel.id.as_str());
            text.push('\t');
            write_escaped(&mut text, channel.name.as_str());
            text.push('\n');
            assert(text@ =~= head + (done + line_of(channel@)));
            i += 1;
        }
        assert(list@.take(list@.len() as int) =~= list@);
        text
    }

    /// The list that the store holds: the empty list where nothing is
    /// stored under the key, else the stored list.
    pub fn load(stored: Option<&str>) -> (loaded: Result<Subscriptions, StorageError>)
        ensures
            match load_outcome(stored_text(stored)) {
                Ok(channels) => loaded matches Ok(subs) && subs@ == channels && subs.well_formed(),
                Err(error) => loaded matches Err(e) && e == error,
            },
    {
        match stored {
            None => Ok(Subscriptions::empty()),
            Some(text) => match decode(text) {
                Some(channels) => Ok(Subscriptions::from_entries(&channels)),
                None => Err(StorageError::Corrupt),
            },
        }
    }
}

} // verus!
