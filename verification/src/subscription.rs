//! The canonical list of subscribed channels.

use vstd::prelude::*;

verus! {

/// Key under which the subscription list is persisted.
pub const SUBS_KEY: &'static str = "subscriptions";

/// One subscribed channel. A channel is identified by its `id`; the `name`
/// is only a label.
#[derive(Debug, Clone, PartialEq, Eq)]
pub struct Subscription {
    pub id: String,
    pub name: String,
}

/// The ordered list of subscribed channels, in insertion order.
///
/// A list is well formed when no channel id occurs twice.
#[derive(Debug, Clone, PartialEq, Eq)]
pub struct Subscriptions {
    pub channels: Vec<Subscription>,
}

/// What a [`Subscription`] holds, as text.
pub struct SubscriptionView {
    pub id: Seq<char>,
    pub name: Seq<char>,
}

impl View for Subscription {
    type V = SubscriptionView;

    open spec fn view(&self) -> SubscriptionView {
        SubscriptionView { id: self.id@, name: self.name@ }
    }
}

/// The views of a run of channels, in order.
pub open spec fn channel_views(channels: Seq<Subscription>) -> Seq<SubscriptionView> {
    channels.map_values(|c: Subscription| c@)
}

impl View for Subscriptions {
    type V = Seq<SubscriptionView>;

    open spec fn view(&self) -> Seq<SubscriptionView> {
        channel_views(self.channels@)
    }
}

/// No channel id occurs twice in `s`.
pub open spec fn unique_ids(s: Seq<SubscriptionView>) -> bool {
    forall|i: int, j: int| 0 <= i < j < s.len() ==> s[i].id != s[j].id
}

/// Some channel of `s` has the id `id`.
pub open spec fn has_id(s: Seq<SubscriptionView>, id: Seq<char>) -> bool {
    exists|i: int| 0 <= i < s.len() && #[trigger] s[i].id == id
}

/// `s` without the channels whose id already occurred earlier in `s`: of
/// the channels that share an id the first one stays, and the order of the
/// ones that stay is kept.
pub open spec fn dedup_by_id(s: Seq<SubscriptionView>) -> Seq<SubscriptionView>
    decreases s.len(),
{
    if s.len() == 0 {
        s
    } else {
        let kept = dedup_by_id(s.drop_last());
        if has_id(kept, s.last().id) {
            kept
        } else {
            kept.push(s.last())
        }
    }
}

/// Deduplication keeps exactly the ids of the input, each once.
pub proof fn lemma_dedup_ids(s: Seq<SubscriptionView>)
    ensures
        unique_ids(dedup_by_id(s)),
        dedup_by_id(s).len() <= s.len(),
        forall|id: Seq<char>| has_id(dedup_by_id(s), id) <==> has_id(s, id),
    decreases s.len(),
{
    if s.len() > 0 {
        let init = s.drop_last();
        let kept = dedup_by_id(init);
        lemma_dedup_ids(init);
        assert forall|id: Seq<char>| has_id(dedup_by_id(s), id) <==> has_id(s, id) by {
            let out = dedup_by_id(s);
            if has_id(s, id) {
                let i = choose|i: int| 0 <= i < s.len() && #[trigger] s[i].id == id;
                if i < s.len() - 1 {
                    assert(init[i].id == id);
                    assert(has_id(init, id));
                    assert(has_id(kept, id));
                    let k = choose|k: int| 0 <= k < kept.len() && #[trigger] kept[k].id == id;
                    assert(out[k].id == id);
                } else if !has_id(kept, s.last().id) {
                    assert(out[out.len() - 1].id == id);
                }
            }
            if has_id(out, id) {
                let k = choose|k: int| 0 <= k < out.len() && #[trigger] out[k].id == id;
                if k < kept.len() {
                    assert(kept[k].id == id);
                    assert(has_id(kept, id));
                    assert(has_id(init, id));
                    let i = choose|i: int| 0 <= i < init.len() && #[trigger] init[i].id == id;
                    assert(s[i].id == id);
                } else {
                    assert(s[s.len() - 1].id == id);
                }
            }
        }
    }
}

/// A list without duplicate ids is left as it is.
pub proof fn lemma_dedup_of_unique(s: Seq<SubscriptionView>)
    requires
        unique_ids(s),
    ensures
        dedup_by_id(s) == s,
    decreases s.len(),
{
    if s.len() > 0 {
        let init = s.drop_last();
        lemma_dedup_of_unique(init);
        if has_id(init, s.last().id) {
            let i = choose|i: int| 0 <= i < init.len() && #[trigger] init[i].id == s.last().id;
            assert(s[i].id == s[s.len() - 1].id);
        }
        assert(init.push(s.last()) =~= s);
    }
}

/// Deduplicating twice changes nothing more.
pub proof fn lemma_dedup_idempotent(s: Seq<SubscriptionView>)
    ensures
        dedup_by_id(dedup_by_id(s)) == dedup_by_id(s),
{
    lemma_dedup_ids(s);
    lemma_dedup_of_unique(dedup_by_id(s));
}

impl Subscription {
    /// A subscription to the channel `id`, shown as `name`.
    pub fn new(id: &str, name: &str) -> (s: Self)
        ensures
            s@.id == id@,
            s@.name == name@,
    {
        Self { id: id.to_owned(), name: name.to_owned() }
    }

    /// A copy of this subscription.
    pub fn duplicate(&self) -> (s: Self)
        ensures
            s@ == self@,
    {
        Self { id: self.id.clone(), name: self.name.clone() }
    }
}

/// Whether one of `channels` has the id `id`.
pub fn contains_id(channels: &Vec<Subscription>, id: &String) -> (found: bool)
    ensures
        found == has_id(channel_views(channels@), id@),
{
    let mut i: usize = 0;
    while i < channels.len()
        invariant
            i <= channels@.len(),
            forall|k: int| 0 <= k < i ==> (#[trigger] channel_views(channels@)[k]).id != id@,
        decreases channels@.len() - i,
    {
        if channels[i].id == *id {
            assert(channel_views(channels@)[i as int].id == id@);
            return true;
        }
        i += 1;
    }
    false
}

impl Subscriptions {
    /// No channel id occurs twice.
    pub open spec fn well_formed(&self) -> bool {
        unique_ids(self@)
    }

    /// The empty list.
    pub fn empty() -> (subs: Self)
        ensures
            subs@ == Seq::<SubscriptionView>::empty(),
            subs.well_formed(),
    {
        let subs = Subscriptions { channels: Vec::new() };
        assert(subs@ =~= Seq::<SubscriptionView>::empty());
        subs
    }

    /// The list of `entries` without those whose id occurred earlier.
    pub fn from_entries(entries: &Vec<Subscription>) -> (subs: Self)
        ensures
            subs@ == dedup_by_id(channel_views(entries@)),
            subs.well_formed(),
    {
        let mut channels: Vec<Subscription> = Vec::new();
        let mut i: usize = 0;
        assert(channel_views(entries@).take(0) =~= Seq::<SubscriptionView>::empty());
        assert(channel_views(channels@) =~= Seq::<SubscriptionView>::empty());
        while i < entries.len()
            invariant
                i <= entries@.len(),
                channel_views(channels@) == dedup_by_id(channel_views(entries@).take(i as int)),
            decreases entries@.len() - i,
        {
            let ghost before = channel_views(entries@).take(i as int);
            let ghost after = channel_views(entries@).take(i + 1);
            assert(after.drop_last() =~= before);
            assert(after.last() == entries@[i as int]@);
            if !contains_id(&channels, &entries[i].id) {
                let ghost old_channels = channels@;
                channels.push(entries[i].duplicate());
                assert(channel_views(channels@) =~= channel_views(old_channels).push(
                    entries@[i as int]@,
                ));
            }
            i += 1;
        }
        assert(channel_views(entries@).take(entries@.len() as int) =~= channel_views(entries@));
        proof {
            lemma_dedup_ids(channel_views(entries@));
        }
        Subscriptions { channels }
    }

    /// This list without the channels whose id occurred earlier in it.
    pub fn deduplicated(&self) -> (subs: Self)
        ensures
            subs@ == dedup_by_id(self@),
            subs.well_formed(),
            self.well_formed() ==> subs@ == self@,
    {
        proof {
            if self.well_formed() {
                lemma_dedup_of_unique(self@);
            }
        }
        Self::from_entries(&self.channels)
    }

    /// Whether both lists hold the same channels in the same order.
    pub fn same_as(&self, other: &Subscriptions) -> (same: bool)
        ensures
            same == (self@ == other@),
    {
        if self.channels.len() != other.channels.len() {
            assert(self@.len() != other@.len());
            return false;
        }
        let mut i: usize = 0;
        while i < self.channels.len()
            invariant
                i <= self.channels@.len(),
                self.channels@.len() == other.channels@.len(),
                forall|k: int| 0 <= k < i ==> self@[k] == other@[k],
            decreases self.channels@.len() - i,
        {
            let a = &self.channels[i];
            let b = &other.channels[i];
            if !(a.id == b.id && a.name == b.name) {
                assert(self@[i as int] != other@[i as int]);
                return false;
            }
            i += 1;
        }
        assert(self@ =~= other@);
        true
    }
}

impl Default for Subscription {
    fn default() -> (s: Self)
        ensures
            s@.id == Seq::<char>::empty(),
            s@.name == Seq::<char>::empty(),
    {
        Subscription { id: String::new(), name: String::new() }
    }
}

impl Default for Subscriptions {
    fn default() -> (subs: Self)
        ensures
            subs@ == Seq::<SubscriptionView>::empty(),
            subs.well_formed(),
    {
        Subscriptions::empty()
    }
}

} // verus!
