//! Merging the results of one fetch round into a single feed.

use vstd::prelude::*;
use vstd::seq_lib::group_filter_ensures;
use crate::subscription::{SubscriptionView, Subscriptions};
use crate::video::{
    video_views, CommonVideo, FetchError, SubscriptionVideos, SubscriptionsVideos, VideoView,
};

verus! {

/// A channel whose fetch failed, with the reason.
#[derive(Debug, Clone, PartialEq, Eq)]
pub struct ChannelFailure {
    pub channel_id: String,
    pub error: FetchError,
}

/// The outcome of one round: the videos of every channel that answered, in
/// one sequence ordered by publication time, and the channels that did not.
///
/// A round in which some or all channels failed is an ordinary outcome.
#[derive(Debug, Clone, PartialEq, Eq)]
pub struct AggregatedFeed {
    pub videos: Vec<CommonVideo>,
    pub failures: Vec<ChannelFailure>,
}

/// What a [`ChannelFailure`] holds.
pub struct FailureView {
    pub channel_id: Seq<char>,
    pub error: FetchError,
}

impl View for ChannelFailure {
    type V = FailureView;

    open spec fn view(&self) -> FailureView {
        FailureView { channel_id: self.channel_id@, error: self.error }
    }
}

/// The views of a run of failures, in order.
pub open spec fn failure_views(failures: Seq<ChannelFailure>) -> Seq<FailureView> {
    failures.map_values(|f: ChannelFailure| f@)
}

/// The videos that one outcome contributes: those of the channel, or none
/// where the fetch failed.
pub open spec fn videos_of(outcome: SubscriptionVideos) -> Seq<CommonVideo> {
    match outcome {
        Ok(videos) => videos@,
        Err(_) => Seq::empty(),
    }
}

/// The videos of all channels that answered, channel after channel in
/// dispatch order, each channel's videos in the order they were listed.
pub open spec fn fetched_videos(outcomes: Seq<SubscriptionVideos>) -> Seq<CommonVideo>
    decreases outcomes.len(),
{
    if outcomes.len() == 0 {
        Seq::empty()
    } else {
        fetched_videos(outcomes.drop_last()) + videos_of(outcomes.last())
    }
}

/// The channels whose fetch failed, in dispatch order: outcome `i` belongs
/// to subscription `i`.
pub open spec fn failed_channels(
    subscriptions: Seq<SubscriptionView>,
    outcomes: Seq<SubscriptionVideos>,
) -> Seq<FailureView>
    recommends
        outcomes.len() <= subscriptions.len(),
    decreases outcomes.len(),
{
    if outcomes.len() == 0 {
        Seq::empty()
    } else {
        let earlier = failed_channels(subscriptions, outcomes.drop_last());
        match outcomes.last() {
            Ok(_) => earlier,
            Err(error) => earlier.push(
                FailureView { channel_id: subscriptions[outcomes.len() - 1].id, error },
            ),
        }
    }
}

/// Number of channels that answered.
pub open spec fn successful_channel_count(outcomes: Seq<SubscriptionVideos>) -> nat
    decreases outcomes.len(),
{
    if outcomes.len() == 0 {
        0
    } else {
        successful_channel_count(outcomes.drop_last()) + if outcomes.last() is Ok {
            1nat
        } else {
            0nat
        }
    }
}

/// Number of videos that the channels that answered returned, all together.
pub open spec fn successful_video_count(outcomes: Seq<SubscriptionVideos>) -> nat
    decreases outcomes.len(),
{
    if outcomes.len() == 0 {
        0
    } else {
        successful_video_count(outcomes.drop_last()) + videos_of(outcomes.last()).len()
    }
}

/// The predicate "published at the instant `t`".
pub open spec fn at_instant(t: u64) -> spec_fn(CommonVideo) -> bool {
    |v: CommonVideo| v.published == t
}

/// No video stands before one that was published later.
pub open spec fn newest_first(videos: Seq<CommonVideo>) -> bool {
    forall|i: int, j: int| 0 <= i < j < videos.len() ==> videos[i].published >= videos[j].published
}

/// `merged` holds the videos of `fetched` ordered by publication time, the
/// newest first; videos published at the same instant stand in the order
/// they have in `fetched`.
///
/// For every instant, the videos published then are the same in both
/// sequences, in the same order: so `merged` is a rearrangement of
/// `fetched`, and [`lemma_merge_is_unique`] shows that it is the only one.
pub open spec fn is_merge_of(fetched: Seq<CommonVideo>, merged: Seq<CommonVideo>) -> bool {
    &&& newest_first(merged)
    &&& forall|t: u64| #[trigger] merged.filter(at_instant(t)) == fetched.filter(at_instant(t))
}

/// A sequence in which no video was published at `t` has nothing to show
/// for that instant.
proof fn lemma_no_video_at(videos: Seq<CommonVideo>, t: u64)
    requires
        forall|k: int| 0 <= k < videos.len() ==> videos[k].published != t,
    ensures
        videos.filter(at_instant(t)) == Seq::<CommonVideo>::empty(),
    decreases videos.len(),
{
    reveal(Seq::filter);
    if videos.len() > 0 {
        lemma_no_video_at(videos.drop_last(), t);
    }
}

/// The merge of a sequence is unique: two sequences that are both ordered
/// newest first and agree, instant by instant, on the videos published
/// then and on their order, are equal.
pub proof fn lemma_same_instants_same_feed(a: Seq<CommonVideo>, b: Seq<CommonVideo>)
    requires
        newest_first(a),
        newest_first(b),
        forall|t: u64| #[trigger] a.filter(at_instant(t)) == b.filter(at_instant(t)),
    ensures
        a == b,
    decreases a.len(),
{
    broadcast use group_filter_ensures;

    reveal(Seq::filter);
    if a.len() == 0 || b.len() == 0 {
        if a.len() > 0 {
            let t = a.last().published;
            assert(a.filter(at_instant(t)).len() > 0);
            assert(b.filter(at_instant(t)).len() == 0);
        }
        if b.len() > 0 {
            let t = b.last().published;
            assert(b.filter(at_instant(t)).len() > 0);
            assert(a.filter(at_instant(t)).len() == 0);
        }
        assert(a =~= b);
    } else {
        let ta = a.last().published;
        let tb = b.last().published;
        assert(ta >= tb) by {
            let shared = b.filter(at_instant(ta));
            assert(a.filter(at_instant(ta)).last() == a.last());
            assert(shared.len() > 0);
            b.lemma_filter_contains_rev(at_instant(ta), shared[0]);
            let k = choose|k: int| 0 <= k < b.len() && b[k] == shared[0];
            assert(at_instant(ta)(shared[0]));
        }
        assert(tb >= ta) by {
            let shared = a.filter(at_instant(tb));
            assert(b.filter(at_instant(tb)).last() == b.last());
            assert(shared.len() > 0);
            a.lemma_filter_contains_rev(at_instant(tb), shared[0]);
            let k = choose|k: int| 0 <= k < a.len() && a[k] == shared[0];
            assert(at_instant(tb)(shared[0]));
        }
        let a0 = a.drop_last();
        let b0 = b.drop_last();
        assert(a.filter(at_instant(ta)) == a0.filter(at_instant(ta)).push(a.last()));
        assert(b.filter(at_instant(ta)) == b0.filter(at_instant(ta)).push(b.last()));
        assert(a.last() == b.last()) by {
            assert(a.filter(at_instant(ta)).last() == a.last());
            assert(b.filter(at_instant(ta)).last() == b.last());
        }
        assert forall|t: u64| #[trigger] a0.filter(at_instant(t)) == b0.filter(at_instant(t)) by {
            assert(a.filter(at_instant(t)) == b.filter(at_instant(t)));
            if t == ta {
                assert(a0.filter(at_instant(t)) =~= a.filter(at_instant(t)).drop_last());
                assert(b0.filter(at_instant(t)) =~= b.filter(at_instant(t)).drop_last());
            }
        }
        lemma_same_instants_same_feed(a0, b0);
        assert(a =~= a0.push(a.last()));
        assert(b =~= b0.push(b.last()));
    }
}

/// There is one merge of a sequence of videos, and no other.
pub proof fn lemma_merge_is_unique(fetched: Seq<CommonVideo>, a: Seq<CommonVideo>, b: Seq<CommonVideo>)
    requires
        is_merge_of(fetched, a),
        is_merge_of(fetched, b),
    ensures
        a == b,
{
    assert forall|t: u64| #[trigger] a.filter(at_instant(t)) == b.filter(at_instant(t)) by {
        assert(a.filter(at_instant(t)) == fetched.filter(at_instant(t)));
        assert(b.filter(at_instant(t)) == fetched.filter(at_instant(t)));
    }
    lemma_same_instants_same_feed(a, b);
}

/// The videos published at the instant of `video` hold `video` as often
/// as the whole sequence does.
proof fn lemma_count_at_instant(videos: Seq<CommonVideo>, video: CommonVideo)
    ensures
        videos.to_multiset().count(video) == videos.filter(
            at_instant(video.published),
        ).to_multiset().count(video),
    decreases videos.len(),
{
    broadcast use vstd::multiset::group_multiset_axioms;

    let pred = at_instant(video.published);
    if videos.len() == 0 {
        lemma_no_video_at(videos, video.published);
        assert(videos =~= Seq::<CommonVideo>::empty());
    } else {
        let init = videos.drop_last();
        let last = videos.last();
        assert(videos =~= init.push(last));
        lemma_count_at_instant(init, video);
        init.lemma_filter_push(last, pred);
        vstd::seq_lib::to_multiset_build(init, last);
        assert(videos.to_multiset().count(video) == init.to_multiset().count(video) + if last
            == video {
            1int
        } else {
            0int
        });
        if pred(last) {
            vstd::seq_lib::to_multiset_build(init.filter(pred), last);
            assert(videos.filter(pred) == init.filter(pred).push(last));
            assert(videos.filter(pred).to_multiset().count(video) == init.filter(
                pred,
            ).to_multiset().count(video) + if last == video {
                1int
            } else {
                0int
            });
        } else {
            assert(last != video);
            assert(videos.filter(pred) == init.filter(pred));
        }
    }
}

/// A merge rearranges: it holds every video as often as the sequence it
/// was merged from, and so has its length.
pub proof fn lemma_merge_is_rearrangement(fetched: Seq<CommonVideo>, merged: Seq<CommonVideo>)
    requires
        is_merge_of(fetched, merged),
    ensures
        merged.to_multiset() == fetched.to_multiset(),
        merged.len() == fetched.len(),
{
    assert forall|video: CommonVideo|
        merged.to_multiset().count(video) == fetched.to_multiset().count(video) by {
        lemma_count_at_instant(merged, video);
        lemma_count_at_instant(fetched, video);
        assert(merged.filter(at_instant(video.published)) == fetched.filter(
            at_instant(video.published),
        ));
    }
    assert(merged.to_multiset() =~= fetched.to_multiset());
    vstd::seq_lib::to_multiset_len(merged);
    vstd::seq_lib::to_multiset_len(fetched);
}

/// The predicate "published at the instant `t`", on what videos hold.
pub open spec fn view_at_instant(t: u64) -> spec_fn(VideoView) -> bool {
    |v: VideoView| v.published == t
}

/// What a merge says of the videos it also says of what they hold: the
/// views of a merge are ordered newest first, and for every instant the
/// views of the videos published then are the same, in the same order, as
/// in what was merged.
pub proof fn lemma_merge_in_views(fetched: Seq<CommonVideo>, merged: Seq<CommonVideo>)
    requires
        is_merge_of(fetched, merged),
    ensures
        video_views(merged).len() == merged.len(),
        forall|i: int, j: int|
            0 <= i < j < merged.len() ==> video_views(merged)[i].published >= video_views(
                merged,
            )[j].published,
        forall|t: u64| #[trigger]
            video_views(merged).filter(view_at_instant(t)) == video_views(fetched).filter(
                view_at_instant(t),
            ),
{
    assert forall|t: u64| #[trigger]
        video_views(merged).filter(view_at_instant(t)) == video_views(fetched).filter(
            view_at_instant(t),
        ) by {
        let view = |x: CommonVideo| x.view();
        vstd::seq_lib::lemma_filter_view_commute(merged, at_instant(t), view_at_instant(t));
        vstd::seq_lib::lemma_filter_view_commute(fetched, at_instant(t), view_at_instant(t));
        assert(video_views(merged) =~= merged.map_values(view));
        assert(video_views(fetched) =~= fetched.map_values(view));
        assert(merged.filter(at_instant(t)) == fetched.filter(at_instant(t)));
    }
}

/// The videos of `videos`, the last first.
fn reversed(videos: Vec<CommonVideo>) -> (turned: Vec<CommonVideo>)
    ensures
        turned@.len() == videos@.len(),
        forall|k: int| 0 <= k < turned@.len() ==> turned@[k] == videos@[videos@.len() - 1 - k],
{
    let ghost all = videos@;
    let mut rest = videos;
    let mut turned: Vec<CommonVideo> = Vec::new();
    while rest.len() > 0
        invariant
            rest@.len() + turned@.len() == all.len(),
            forall|k: int| 0 <= k < rest@.len() ==> rest@[k] == all[k],
            forall|k: int| 0 <= k < turned@.len() ==> turned@[k] == all[all.len() - 1 - k],
        decreases rest@.len(),
    {
        let video = rest.pop().unwrap();
        turned.push(video);
    }
    turned
}

/// Merges two runs that are ordered newest first into one. Of videos
/// published at the same instant those of `left` come first, and within
/// each run they keep their order.
fn merge_runs(left: Vec<CommonVideo>, right: Vec<CommonVideo>) -> (merged: Vec<CommonVideo>)
    requires
        newest_first(left@),
        newest_first(right@),
    ensures
        newest_first(merged@),
        merged@.len() == left@.len() + right@.len(),
        forall|t: u64| #[trigger]
            merged@.filter(at_instant(t)) == left@.filter(at_instant(t)) + right@.filter(
                at_instant(t),
            ),
{
    let ghost lefts = left@;
    let ghost rights = right@;
    // Both runs are turned round, so that the next video of each is its last.
    let mut l = reversed(left);
    let mut r = reversed(right);
    let mut merged: Vec<CommonVideo> = Vec::new();
    assert(lefts.take(0) =~= Seq::<CommonVideo>::empty());
    assert(rights.take(0) =~= Seq::<CommonVideo>::empty());
    assert forall|t: u64| #[trigger]
        merged@.filter(at_instant(t)) == lefts.take(0).filter(at_instant(t)) + rights.take(
            0,
        ).filter(at_instant(t)) by {
        lemma_no_video_at(Seq::<CommonVideo>::empty(), t);
        assert(merged@ =~= Seq::<CommonVideo>::empty());
        assert(Seq::<CommonVideo>::empty() + Seq::<CommonVideo>::empty()
            =~= Seq::<CommonVideo>::empty());
    }
    while l.len() > 0 || r.len() > 0
        invariant
            newest_first(lefts),
            newest_first(rights),
            l@.len() <= lefts.len(),
            r@.len() <= rights.len(),
            forall|k: int| 0 <= k < l@.len() ==> l@[k] == lefts[lefts.len() - 1 - k],
            forall|k: int| 0 <= k < r@.len() ==> r@[k] == rights[rights.len() - 1 - k],
            merged@.len() == (lefts.len() - l@.len()) + (rights.len() - r@.len()),
            newest_first(merged@),
            // What was merged is at least as new as what is left.
            forall|m: int, k: int|
                0 <= m < merged@.len() && 0 <= k < l@.len() ==> merged@[m].published
                    >= l@[k].published,
            forall|m: int, k: int|
                0 <= m < merged@.len() && 0 <= k < r@.len() ==> merged@[m].published
                    >= r@[k].published,
            // What was taken from the right is newer than all that is left on the left.
            forall|j: int, k: int|
                0 <= j < rights.len() - r@.len() && 0 <= k < l@.len() ==> rights[j].published
                    > l@[k].published,
            forall|t: u64| #[trigger]
                merged@.filter(at_instant(t)) == lefts.take(lefts.len() - l@.len()).filter(
                    at_instant(t),
                ) + rights.take(rights.len() - r@.len()).filter(at_instant(t)),
        decreases l@.len() + r@.len(),
    {
        let ghost i = lefts.len() - l@.len();
        let ghost j = rights.len() - r@.len();
        let ghost before = merged@;
        let from_left = if l.len() == 0 {
            false
        } else if r.len() == 0 {
            true
        } else {
            l[l.len() - 1].published >= r[r.len() - 1].published
        };
        if from_left {
            let video = l.pop().unwrap();
            assert(video == lefts[i]);
            merged.push(video);
            proof {
                assert(lefts.take(i + 1) =~= lefts.take(i).push(video));
                assert forall|t: u64| #[trigger]
                    merged@.filter(at_instant(t)) == lefts.take(i + 1).filter(at_instant(t))
                        + rights.take(j).filter(at_instant(t)) by {
                    let pred = at_instant(t);
                    before.lemma_filter_push(video, pred);
                    lefts.take(i).lemma_filter_push(video, pred);
                    assert(before.filter(pred) == lefts.take(i).filter(pred) + rights.take(
                        j,
                    ).filter(pred));
                    if video.published == t {
                        assert forall|k: int| 0 <= k < rights.take(j).len() implies rights.take(
                            j,
                        )[k].published != t by {
                            assert(rights[k].published > lefts[i].published);
                        }
                        lemma_no_video_at(rights.take(j), t);
                        assert(lefts.take(i).filter(pred).push(video) + Seq::<
                            CommonVideo,
                        >::empty() =~= (lefts.take(i).filter(pred) + Seq::<CommonVideo>::empty()).push(
                            video,
                        ));
                    }
                }
            }
        } else {
            let video = r.pop().unwrap();
            assert(video == rights[j]);
            merged.push(video);
            proof {
                assert(rights.take(j + 1) =~= rights.take(j).push(video));
                assert forall|t: u64| #[trigger]
                    merged@.filter(at_instant(t)) == lefts.take(i).filter(at_instant(t))
                        + rights.take(j + 1).filter(at_instant(t)) by {
                    let pred = at_instant(t);
                    before.lemma_filter_push(video, pred);
                    rights.take(j).lemma_filter_push(video, pred);
                    assert(before.filter(pred) == lefts.take(i).filter(pred) + rights.take(
                        j,
                    ).filter(pred));
                    if video.published == t {
                        assert((lefts.take(i).filter(pred) + rights.take(j).filter(pred)).push(
                            video,
                        ) =~= lefts.take(i).filter(pred) + rights.take(j).filter(pred).push(
                            video,
                        ));
                    }
                }
                assert forall|jj: int, k: int|
                    0 <= jj < rights.len() - r@.len() && 0 <= k < l@.len() implies rights[jj].published
                    > l@[k].published by {
                    if jj == j {
                        assert(l@[k].published <= l@[l@.len() - 1].published) by {
                            assert(l@[k] == lefts[lefts.len() - 1 - k]);
                            assert(l@[l@.len() - 1] == lefts[i]);
                        }
                    }
                }
            }
        }
    }
    assert(lefts.take(lefts.len() as int) =~= lefts);
    assert(rights.take(rights.len() as int) =~= rights);
    merged
}

/// Orders `videos` by publication time, the newest first. Videos published
/// at the same instant keep the order they came in.
pub fn sort_newest_first(videos: Vec<CommonVideo>) -> (sorted: Vec<CommonVideo>)
    ensures
        is_merge_of(videos@, sorted@),
        sorted@.len() == videos@.len(),
    decreases videos@.len(),
{
    if videos.len() <= 1 {
        return videos;
    }
    let ghost all = videos@;
    let mut front = videos;
    let back = front.split_off(front.len() / 2);
    assert(all =~= front@ + back@);
    let front_sorted = sort_newest_first(front);
    let back_sorted = sort_newest_first(back);
    let sorted = merge_runs(front_sorted, back_sorted);
    proof {
        assert forall|t: u64| #[trigger]
            sorted@.filter(at_instant(t)) == all.filter(at_instant(t)) by {
            Seq::filter_distributes_over_add(front@, back@, at_instant(t));
            assert(front_sorted@.filter(at_instant(t)) == front@.filter(at_instant(t)));
            assert(back_sorted@.filter(at_instant(t)) == back@.filter(at_instant(t)));
        }
    }
    sorted
}

/// Every outcome of a round is accounted for: the videos fetched are as
/// many as the channels that answered returned, and every channel either
/// answered or is listed as failed.
pub proof fn lemma_round_is_accounted_for(
    subscriptions: Seq<SubscriptionView>,
    outcomes: Seq<SubscriptionVideos>,
)
    ensures
        fetched_videos(outcomes).len() == successful_video_count(outcomes),
        failed_channels(subscriptions, outcomes).len() + successful_channel_count(outcomes)
            == outcomes.len(),
    decreases outcomes.len(),
{
    if outcomes.len() > 0 {
        lemma_round_is_accounted_for(subscriptions, outcomes.drop_last());
    }
}

/// Appending one more outcome appends its videos and, where it failed, its
/// channel.
proof fn lemma_outcome_appended(
    subscriptions: Seq<SubscriptionView>,
    outcomes: Seq<SubscriptionVideos>,
    i: int,
)
    requires
        0 <= i < outcomes.len(),
    ensures
        fetched_videos(outcomes.take(i + 1)) == fetched_videos(outcomes.take(i)) + videos_of(
            outcomes[i],
        ),
        failed_channels(subscriptions, outcomes.take(i + 1)) == match outcomes[i] {
            Ok(_) => failed_channels(subscriptions, outcomes.take(i)),
            Err(error) => failed_channels(subscriptions, outcomes.take(i)).push(
                FailureView { channel_id: subscriptions[i].id, error },
            ),
        },
        successful_channel_count(outcomes.take(i + 1)) == successful_channel_count(
            outcomes.take(i),
        ) + if outcomes[i] is Ok {
            1nat
        } else {
            0nat
        },
        successful_video_count(outcomes.take(i + 1)) == successful_video_count(outcomes.take(i))
            + videos_of(outcomes[i]).len(),
{
    assert(outcomes.take(i + 1).drop_last() =~= outcomes.take(i));
    assert(outcomes.take(i + 1).last() == outcomes[i]);
}

/// `feed` is the feed of the round with the outcomes `outcomes`, outcome
/// `i` being that of subscription `i`: the videos of the channels that
/// answered, merged, and the channels that failed, in dispatch order.
pub open spec fn is_aggregate_of(
    subscriptions: Seq<SubscriptionView>,
    outcomes: Seq<SubscriptionVideos>,
    feed: AggregatedFeed,
) -> bool {
    &&& is_merge_of(fetched_videos(outcomes), feed.videos@)
    &&& failure_views(feed.failures@) == failed_channels(subscriptions, outcomes)
    &&& feed.videos@.len() == successful_video_count(outcomes)
    &&& feed.failures@.len() + successful_channel_count(outcomes) == outcomes.len()
}

/// Merges the outcomes of one round into a feed. Outcome `i` is that of
/// subscription `i`.
///
/// The videos of the channels that answered are put together and ordered by
/// publication time, the newest first, videos published at the same instant
/// in dispatch order. Each channel that failed is listed with its error; a
/// failure takes nothing away from the other channels.
pub fn aggregate(subscriptions: &Subscriptions, outcomes: SubscriptionsVideos) -> (feed:
    AggregatedFeed)
    requires
        outcomes@.len() == subscriptions@.len(),
    ensures
        is_aggregate_of(subscriptions@, outcomes@, feed),
        feed.failures@.len() + successful_channel_count(outcomes@) == subscriptions@.len(),
{
    let count: usize = outcomes.len();
    let ghost all = outcomes@;
    let mut fetched: Vec<CommonVideo> = Vec::new();
    let mut failures: Vec<ChannelFailure> = Vec::new();
    let mut i: usize = 0;
    assert(all.take(0) =~= Seq::<SubscriptionVideos>::empty());
    assert(failure_views(failures@) =~= Seq::<FailureView>::empty());
    for outcome in it: outcomes
        invariant
            it.seq() == all,
            i == it.index(),
            all.len() == subscriptions@.len(),
            all.len() == count,
            fetched@ == fetched_videos(all.take(i as int)),
            fetched@.len() == successful_video_count(all.take(i as int)),
            failure_views(failures@) == failed_channels(subscriptions@, all.take(i as int)),
            failures@.len() + successful_channel_count(all.take(i as int)) == i,
    {
        proof {
            lemma_outcome_appended(subscriptions@, all, i as int);
        }
        match outcome {
            Ok(mut videos) => {
                fetched.append(&mut videos);
            },
            Err(error) => {
                let ghost earlier = failures@;
                let channel_id = subscriptions.channels[i].id.clone();
                failures.push(ChannelFailure { channel_id, error });
                assert(failure_views(failures@) =~= failure_views(earlier).push(
                    FailureView { channel_id: subscriptions@[i as int].id, error },
                ));
            },
        }
        i += 1;
    }
    assert(all.take(all.len() as int) =~= all);
    let videos = sort_newest_first(fetched);
    assert(failure_views(failures@).len() == failures@.len());
    AggregatedFeed { videos, failures }
}

} // verus!
