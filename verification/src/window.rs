//! Revealing a feed page by page.
//!
//! A window is the length of the prefix of the feed that is shown. It
//! starts at one page and grows by one page at a time, never beyond the
//! feed.

use vstd::prelude::*;
use crate::video::CommonVideo;

verus! {

/// Number of videos that one step reveals.
pub const PAGE_SIZE: usize = 100;

/// The smaller of two lengths.
pub open spec fn min_len(a: int, b: int) -> int {
    if a <= b {
        a
    } else {
        b
    }
}

/// Window of a feed of `total` videos right after it was built.
pub open spec fn initial_window_of(total: int) -> int {
    min_len(total, PAGE_SIZE as int)
}

/// Window that follows `window` on a feed of `total` videos.
pub open spec fn advanced_window_of(window: int, total: int) -> int {
    min_len(window + PAGE_SIZE, total)
}

/// Window of a feed of `total` videos right after it was built: one page,
/// or the whole feed where it is shorter.
pub fn initial_window(total: usize) -> (window: usize)
    ensures
        window == initial_window_of(total as int),
        window <= total,
{
    if total > PAGE_SIZE {
        PAGE_SIZE
    } else {
        total
    }
}

/// The window after one more page was asked for: `window` and a page, or
/// `total` where fewer videos than a page are left. The result is never
/// beyond `total`, whatever `window` was.
pub fn advance(window: usize, total: usize) -> (next: usize)
    ensures
        next == advanced_window_of(window as int, total as int),
        next <= total,
        window <= total ==> window <= next,
{
    if window >= total {
        total
    } else if total - window <= PAGE_SIZE {
        total
    } else {
        window + PAGE_SIZE
    }
}

/// Whether a part of the feed is still hidden.
pub fn has_more(window: usize, total: usize) -> (more: bool)
    ensures
        more == (window < total),
{
    window < total
}

/// A window within its feed shows everything exactly when nothing more can
/// be revealed, and asking for more then changes nothing.
pub proof fn lemma_window_complete(window: int, total: int)
    requires
        0 <= window <= total,
    ensures
        !(window < total) <==> window == total,
        advanced_window_of(window, total) <= total,
        window == total ==> advanced_window_of(window, total) == window,
        window < total ==> window < advanced_window_of(window, total),
{
}

/// The window after `steps` requests for one more page, counted from the
/// initial window.
pub open spec fn window_after(steps: nat, total: int) -> int
    decreases steps,
{
    if steps == 0 {
        initial_window_of(total)
    } else {
        advanced_window_of(window_after((steps - 1) as nat, total), total)
    }
}

/// Every request for more reveals one more page until the feed is shown
/// whole: after `steps` requests the window is `total` or `steps + 1`
/// pages, whichever is less.
pub proof fn lemma_window_after(steps: nat, total: int)
    requires
        0 <= total,
    ensures
        window_after(steps, total) == min_len(total, (steps + 1) * PAGE_SIZE),
    decreases steps,
{
    if steps > 0 {
        lemma_window_after((steps - 1) as nat, total);
    }
}

/// A feed with the part of it that is shown.
pub struct Paginator {
    videos: Vec<CommonVideo>,
    window: usize,
}

impl Paginator {
    #[verifier::type_invariant]
    spec fn within_feed(self) -> bool {
        self.window <= self.videos@.len()
    }

    /// The whole feed.
    pub closed spec fn all(&self) -> Seq<CommonVideo> {
        self.videos@
    }

    /// Number of videos shown.
    pub closed spec fn shown(&self) -> int {
        self.window as int
    }

    /// The videos shown: the first `shown()` of the feed.
    pub open spec fn visible(&self) -> Seq<CommonVideo> {
        self.all().take(self.shown())
    }

    /// Starts to show `videos`, with the initial window.
    pub fn new(videos: Vec<CommonVideo>) -> (page: Self)
        ensures
            page.all() == videos@,
            page.shown() == initial_window_of(videos@.len() as int),
    {
        let window = initial_window(videos.len());
        Paginator { videos, window }
    }

    /// Number of videos in the feed.
    pub fn total(&self) -> (total: usize)
        ensures
            total == self.all().len(),
    {
        self.videos.len()
    }

    /// Number of videos shown.
    pub fn window(&self) -> (window: usize)
        ensures
            window == self.shown(),
            window <= self.all().len(),
    {
        proof {
            use_type_invariant(self);
        }
        self.window
    }

    /// Whether a part of the feed is still hidden.
    pub fn has_more(&self) -> (more: bool)
        ensures
            more == (self.shown() < self.all().len()),
            !more <==> self.shown() == self.all().len(),
    {
        proof {
            use_type_invariant(self);
        }
        has_more(self.window, self.videos.len())
    }

    /// Reveals one more page. The feed itself is not changed.
    pub fn load_more(&mut self)
        ensures
            final(self).all() == old(self).all(),
            final(self).shown() == advanced_window_of(old(self).shown(), old(self).all().len() as int),
    {
        proof {
            use_type_invariant(&*self);
        }
        self.window = advance(self.window, self.videos.len());
    }

    /// The videos shown.
    pub fn visible_videos(&self) -> (shown: &[CommonVideo])
        ensures
            shown@ == self.visible(),
    {
        proof {
            use_type_invariant(self);
        }
        vstd::slice::slice_subrange(self.videos.as_slice(), 0, self.window)
    }
}

} // verus!
