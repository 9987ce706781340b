//! Per-page decode tiers and the settled-viewport decode scheduler.
//!
//! Every page is decoded once at a small size and kept (the thumb tier);
//! full-resolution decodes back the settled viewport neighbourhood and are
//! evicted again when the viewport moves far away. The scheduler decides
//! what to decode and what to evict; the caller runs the decodes and the
//! debounce timer and reports back.
use std::ops::Range;
use vstd::prelude::*;

verus! {

/// Longest edge a decoded page may have, regardless of source resolution.
pub const MAX_DECODE_EDGE: u32 = 2048;

/// Longest edge of the retained low-resolution tier.
pub const THUMB_DECODE_EDGE: u32 = 128;

/// How many pages beyond the visible range a settled viewport backs with
/// full-resolution decodes.
pub const DECODE_PRELOAD: usize = 2;

/// How long, in milliseconds, the viewport must stop scrolling before the
/// full-resolution decode of its neighbourhood starts.
pub const SETTLE_DEBOUNCE_MS: u64 = 150;

/// How many pages beyond the full-backed window a full decode survives a
/// settle before it is evicted.
pub const FULL_KEEP_MARGIN: usize = 4;

/// One decode tier of a page; `P` is the decoded page.
pub enum Tier<P> {
    /// No decode has been requested yet.
    Absent,
    /// A decode is in flight.
    Decoding,
    /// Decoded; the page lives as long as the tier keeps it.
    Ready(P),
    /// The decode failed.
    Failed,
}

/// Per-page decode state: the thumb tier is decoded once and never freed,
/// the full tier is decoded near the settled viewport and evicted when it
/// scrolls far away.
pub struct PageDecode<P> {
    pub thumb: Tier<P>,
    pub full: Tier<P>,
}

impl<P> Default for PageDecode<P> {
    fn default() -> (r: Self)
        ensures
            r.thumb is Absent,
            r.full is Absent,
    {
        PageDecode { thumb: Tier::Absent, full: Tier::Absent }
    }
}

impl<P> PageDecode<P> {
    /// The best page currently available for drawing: the full tier when
    /// ready, otherwise the thumb tier.
    pub fn image(&self) -> (r: Option<&P>)
        ensures
            match self.full {
                Tier::Ready(p) => r == Some(&p),
                _ => match self.thumb {
                    Tier::Ready(p) => r == Some(&p),
                    _ => r is None,
                },
            },
    {
        match &self.full {
            Tier::Ready(page) => Some(page),
            _ => match &self.thumb {
                Tier::Ready(page) => Some(page),
                _ => None,
            },
        }
    }

    /// Whether the retained tier failed to load: the page is broken and no
    /// full decode is ever requested for it.
    pub fn thumb_failed(&self) -> (r: bool)
        ensures
            r == (self.thumb is Failed),
    {
        match self.thumb {
            Tier::Failed => true,
            _ => false,
        }
    }
}

/// The pages a settled visible range `r` is backed with: `r` plus
/// `DECODE_PRELOAD` pages on each side, clipped to `0..len`.
pub open spec fn full_window_of(len: usize, r: Range<usize>) -> Range<usize> {
    let start = if r.start >= DECODE_PRELOAD { (r.start - DECODE_PRELOAD) as usize } else { 0 };
    let grown = if r.end + DECODE_PRELOAD <= usize::MAX {
        (r.end + DECODE_PRELOAD) as usize
    } else {
        usize::MAX
    };
    Range { start, end: if grown <= len { grown } else { len } }
}

/// The pages whose full decode survives a settle on `r`: `r` plus
/// `DECODE_PRELOAD + FULL_KEEP_MARGIN` pages on each side, clipped to `0..len`.
pub open spec fn keep_window_of(len: usize, r: Range<usize>) -> Range<usize> {
    let m = DECODE_PRELOAD + FULL_KEEP_MARGIN;
    let start = if r.start >= m { (r.start - m) as usize } else { 0 };
    let grown = if r.end + m <= usize::MAX { (r.end + m) as usize } else { usize::MAX };
    Range { start, end: if grown <= len { grown } else { len } }
}

/// Whether `i` lies in `r`.
pub open spec fn in_range(r: Range<usize>, i: usize) -> bool {
    r.start <= i < r.end
}

/// Twice the distance of page `i` from the centre of `r`.
pub open spec fn centre_distance(r: Range<usize>, i: usize) -> int {
    let d = 2 * i - (r.start + r.end);
    if d >= 0 { d } else { -d }
}

/// The order full decodes are started in: closest to the centre of the
/// visible range first, the lower page first between two equally close.
pub open spec fn decode_before(r: Range<usize>, i: usize, j: usize) -> bool {
    centre_distance(r, i) < centre_distance(r, j) || (centre_distance(r, i) == centre_distance(
        r,
        j,
    ) && i < j)
}

/// Whether a settle on `r` starts a full decode of page `i`: inside the
/// full window, its thumb did not fail, and no full decode exists yet.
pub open spec fn wants_full<P>(len: usize, r: Range<usize>, page: PageDecode<P>, i: usize) -> bool {
    &&& in_range(full_window_of(len, r), i)
    &&& !(page.thumb is Failed)
    &&& page.full is Absent
}

/// The scheduler's state: the last debounce generation handed out, the
/// range waiting for its debounce, and the range last settled.
pub struct SchedulerView {
    pub seq: u64,
    pub pending: Option<(u64, Range<usize>)>,
    pub settled: Option<Range<usize>>,
}

/// Whether a debounce of generation `seq` that elapses in state `v` settles.
pub open spec fn accepts(v: SchedulerView, seq: u64) -> bool {
    v.pending matches Some((p, _)) && p == seq
}

/// The state after scheduling a debounce of `range` in state `v`.
pub open spec fn after_schedule(v: SchedulerView, range: Range<usize>) -> SchedulerView {
    let seq = (v.seq + 1) as u64;
    SchedulerView { seq, pending: Some((seq, range)), settled: v.settled }
}

/// Only the newest debounce settles: once a range is scheduled, the
/// generation just handed out is accepted and every earlier one is stale.
pub proof fn lemma_only_newest_debounce_settles(v: SchedulerView, range: Range<usize>, stale: u64)
    requires
        v.seq < u64::MAX,
        stale <= v.seq,
    ensures
        accepts(after_schedule(v, range), (v.seq + 1) as u64),
        !accepts(after_schedule(v, range), stale),
{
}

/// Of two debounces scheduled in a row, only the later one settles: it
/// gets the next generation, and neither the earlier generation nor any
/// other is accepted. Scheduling leaves the settled range alone, and the
/// range waiting for its debounce is the later one.
pub proof fn lemma_later_schedule_supersedes(
    v: SchedulerView,
    first: Range<usize>,
    second: Range<usize>,
    k: u64,
)
    requires
        v.seq + 2 <= u64::MAX,
    ensures
        ({
            let v1 = after_schedule(v, first);
            let v2 = after_schedule(v1, second);
            &&& v2.seq == v1.seq + 1
            &&& accepts(v2, v2.seq)
            &&& !accepts(v2, v1.seq)
            &&& k != v2.seq ==> !accepts(v2, k)
            &&& v2.settled == v.settled
            &&& v2.pending == Some((v2.seq, second))
        }),
{
}

/// The state after settling in state `v`: the pending range, if any,
/// becomes the settled one and nothing is left pending.
pub open spec fn after_settle(v: SchedulerView) -> SchedulerView {
    match v.pending {
        None => v,
        Some((_, r)) => SchedulerView { seq: v.seq, pending: None, settled: Some(r) },
    }
}

/// A scheduled range is the one the next settle records: right after
/// `range` is scheduled its generation is accepted and the settled range is
/// unchanged; the settle that follows records `range` as settled and then
/// accepts no debounce.
pub proof fn lemma_schedule_then_settle(v: SchedulerView, range: Range<usize>, k: u64)
    requires
        v.seq < u64::MAX,
    ensures
        accepts(after_schedule(v, range), (v.seq + 1) as u64),
        after_schedule(v, range).settled == v.settled,
        after_settle(after_schedule(v, range)).settled == Some(range),
        !accepts(after_settle(after_schedule(v, range)), k),
{
}

/// Once a settle has taken the pending range, no debounce is accepted
/// until the next schedule: stale debounces are no-ops.
pub proof fn lemma_nothing_accepted_after_settle(v: SchedulerView, k: u64)
    requires
        v.pending is None,
    ensures
        !accepts(v, k),
{
}

/// The full window of a settled range covers every visible page that exists.
pub proof fn lemma_full_window_covers_visible(len: usize, r: Range<usize>, i: usize)
    requires
        in_range(r, i),
        i < len,
    ensures
        in_range(full_window_of(len, r), i),
{
}

/// A settle never evicts the full decode of a page of its full window: the
/// keep window contains the full window.
pub proof fn lemma_keep_window_contains_full_window(len: usize, r: Range<usize>, i: usize)
    requires
        in_range(full_window_of(len, r), i),
    ensures
        in_range(keep_window_of(len, r), i),
{
}

/// The settled-viewport decode scheduler: debounces visible-range changes,
/// backs the settled window with full decodes and evicts far-away ones.
#[derive(Debug)]
pub struct Scheduler {
    settle_seq: u64,
    pending_settle: Option<(u64, Range<usize>)>,
    settled: Option<Range<usize>>,
}

impl View for Scheduler {
    type V = SchedulerView;

    closed spec fn view(&self) -> SchedulerView {
        SchedulerView { seq: self.settle_seq, pending: self.pending_settle, settled: self.settled }
    }
}

impl Default for Scheduler {
    fn default() -> (r: Self)
        ensures
            r@ == (SchedulerView { seq: 0, pending: None, settled: None }),
    {
        Scheduler::new()
    }
}

/// Twice the distance of page `i` from the centre of `r`.
fn centre_distance_of(r: &Range<usize>, i: usize) -> (d: u128)
    ensures
        d == centre_distance(*r, i),
{
    let c = r.start as u128 + r.end as u128;
    let twice = 2 * (i as u128);
    if twice >= c {
        twice - c
    } else {
        c - twice
    }
}

/// Whether the page `i` at centre distance `di` is decoded before the page
/// `j` at centre distance `dj`.
fn decodes_first(di: u128, i: usize, dj: u128, j: usize) -> (b: bool)
    ensures
        b == (di < dj || (di == dj && i < j)),
{
    di < dj || (di == dj && i < j)
}

fn copy_range(r: &Range<usize>) -> (c: Range<usize>)
    ensures
        c == *r,
{
    Range { start: r.start, end: r.end }
}

impl Scheduler {
    /// A scheduler with nothing pending and nothing settled.
    pub fn new() -> (r: Self)
        ensures
            r@ == (SchedulerView { seq: 0, pending: None, settled: None }),
    {
        Scheduler { settle_seq: 0, pending_settle: None, settled: None }
    }

    /// The pages a settled visible range gets backed with full decodes: the
    /// range itself plus `DECODE_PRELOAD` pages on each side.
    pub fn full_window(len: usize, range: &Range<usize>) -> (r: Range<usize>)
        ensures
            r == full_window_of(len, *range),
    {
        let end = range.end.saturating_add(DECODE_PRELOAD);
        Range {
            start: range.start.saturating_sub(DECODE_PRELOAD),
            end: if end <= len {
                end
            } else {
                len
            },
        }
    }

    /// Starts a new debounce generation for `range` and returns its number;
    /// the caller waits `SETTLE_DEBOUNCE_MS` and then reports the number to
    /// `accept_elapsed`.
    pub fn schedule(&mut self, range: Range<usize>) -> (seq: u64)
        requires
            old(self)@.seq < u64::MAX,
        ensures
            seq == old(self)@.seq + 1,
            final(self)@ == after_schedule(old(self)@, range),
    {
        self.settle_seq = self.settle_seq + 1;
        let seq = self.settle_seq;
        self.pending_settle = Some((seq, range));
        seq
    }

    /// Settles the pending range: records it as settled, marks a full decode
    /// as started for every page of its full window that wants one (see
    /// `wants_full`) and returns those pages in the order their decodes are
    /// to be started (closest to the visible centre first); evicts the full
    /// tier of every page outside the keep window. With nothing pending it
    /// changes nothing and returns no page.
    pub fn settle<P>(&mut self, decodes: &mut Vec<PageDecode<P>>) -> (order: Vec<usize>)
        requires
            old(self)@.pending matches Some((_, r)) ==> r.start + r.end <= usize::MAX,
        ensures
            final(self)@ == after_settle(old(self)@),
            match old(self)@.pending {
                None => {
                    &&& final(self)@ == old(self)@
                    &&& final(decodes)@ == old(decodes)@
                    &&& order@.len() == 0
                },
                Some((_, r)) => {
                    let len = old(decodes)@.len() as usize;
                    &&& final(self)@ == (SchedulerView {
                        seq: old(self)@.seq,
                        pending: None,
                        settled: Some(r),
                    })
                    &&& final(decodes)@.len() == old(decodes)@.len()
                    &&& order@.no_duplicates()
                    &&& forall|i: usize|
                        #![trigger order@.contains(i)]
                        order@.contains(i) <==> (i < len && wants_full(
                            len,
                            r,
                            old(decodes)@[i as int],
                            i,
                        ))
                    &&& forall|a: int, b: int|
                        0 <= a < b < order@.len() ==> decode_before(r, order@[a], order@[b])
                    &&& forall|i: int|
                        #![trigger final(decodes)@[i]]
                        0 <= i < len ==> {
                            &&& final(decodes)@[i].thumb == old(decodes)@[i].thumb
                            &&& final(decodes)@[i].full == if order@.contains(i as usize) {
                                Tier::Decoding
                            } else if !in_range(keep_window_of(len, r), i as usize) {
                                Tier::Absent
                            } else {
                                old(decodes)@[i].full
                            }
                        }
                },
            },
    {
        let range = match &self.pending_settle {
            Some((_, r)) => copy_range(r),
            None => {
                return Vec::new();
            },
        };
        let ghost r = range;
        self.pending_settle = None;
        self.settled = Some(copy_range(&range));
        let len = decodes.len();
        let window = Self::full_window(len, &range);
        let ghost old_decodes = decodes@;
        let mut order: Vec<usize> = Vec::new();
        let mut i = window.start;
        while i < window.end
            invariant
                window == full_window_of(len, r),
                window.end <= len,
                len == decodes@.len(),
                len == old_decodes.len(),
                range == r,
                r.start + r.end <= usize::MAX,
                window.start <= i,
                order@.no_duplicates(),
                forall|k: usize|
                    #![trigger order@.contains(k)]
                    order@.contains(k) <==> (k < i && k < len && wants_full(
                        len,
                        r,
                        old_decodes[k as int],
                        k,
                    )),
                forall|a: int, b: int|
                    0 <= a < b < order@.len() ==> decode_before(r, order@[a], order@[b]),
                forall|k: int|
                    #![trigger decodes@[k]]
                    0 <= k < len ==> {
                        &&& decodes@[k].thumb == old_decodes[k].thumb
                        &&& decodes@[k].full == if order@.contains(k as usize) {
                            Tier::Decoding
                        } else {
                            old_decodes[k].full
                        }
                    },
            decreases window.end - i,
        {
            let eligible = match (&decodes[i].thumb, &decodes[i].full) {
                (Tier::Failed, _) => false,
                (_, Tier::Absent) => true,
                _ => false,
            };
            proof {
                assert(!order@.contains(i));
                assert(decodes@[i as int] == old_decodes[i as int]);
                assert(window.start <= i < window.end);
            }
            assert(eligible == wants_full(len, r, old_decodes[i as int], i));
            if eligible {
                let key = centre_distance_of(&range, i);
                let mut p: usize = 0;
                while p < order.len() && !decodes_first(key, i, centre_distance_of(&range, order[p]), order[p])
                    invariant
                        p <= order@.len(),
                        range == r,
                        key == centre_distance(r, i),
                        forall|q: int| 0 <= q < p ==> !decode_before(r, i, #[trigger] order@[q]),
                    decreases order@.len() - p,
                {
                    p = p + 1;
                }
                proof {
                    assert forall|q: int| 0 <= q < order@.len() implies order@[q] < i by {
                        assert(order@.contains(order@[q]));
                    }
                }
                let ghost before = order@;
                order.insert(p, i);
                let pd = &mut decodes[i];
                pd.full = Tier::Decoding;
                proof {
                    let new = order@;
                    assert(new =~= before.insert(p as int, i));
                    assert(new[p as int] == i);
                    assert forall|q: int| 0 <= q < p implies new[q] == before[q] by {}
                    assert forall|q: int| p < q < new.len() implies new[q] == before[q - 1] by {}
                    assert(p < before.len() ==> decode_before(r, i, before[p as int]));
                    assert forall|x: int, y: int| 0 <= x < y < new.len() implies decode_before(
                        r,
                        new[x],
                        new[y],
                    ) by {
                        if y < p {
                        } else if y == p {
                            assert(!decode_before(r, i, before[x]));
                            assert(before.contains(before[x]));
                        } else if x < p {
                            assert(decode_before(r, before[x], before[y - 1]));
                        } else if x == p {
                            if y > p + 1 {
                                assert(decode_before(r, before[p as int], before[y - 1]));
                            }
                        } else {
                            assert(decode_before(r, before[x - 1], before[y - 1]));
                        }
                    }
                    assert forall|k: usize| #![trigger new.contains(k)]
                        new.contains(k) <==> (k < i + 1 && k < len && wants_full(len, r, old_decodes[k as int], k))
                    by {
                        if new.contains(k) {
                            let q = choose|q: int| 0 <= q < new.len() && new[q] == k;
                            if q < p {
                                assert(before.contains(before[q]));
                            } else if q > p {
                                assert(before.contains(before[q - 1]));
                            }
                        }
                        if k < i + 1 && k < len && wants_full(len, r, old_decodes[k as int], k) {
                            if k == i {
                                assert(new[p as int] == k);
                            } else {
                                assert(before.contains(k));
                                let q = choose|q: int| 0 <= q < before.len() && before[q] == k;
                                if q < p {
                                    assert(new[q] == k);
                                } else {
                                    assert(new[q + 1] == k);
                                }
                            }
                        }
                    }
                    assert(new.no_duplicates()) by {
                        assert forall|x: int, y: int| 0 <= x < y < new.len() implies new[x] != new[y] by {
                            if x == p as int {
                                assert(before.contains(before[y - 1]));
                            } else if y == p as int {
                                assert(before.contains(before[x]));
                            } else if x < p && y > p {
                                assert(before[x] != before[y - 1]);
                            } else if x > p {
                                assert(before[x - 1] != before[y - 1]);
                            }
                        }
                    }
                }
            }
            i = i + 1;
        }
        let keep_margin = DECODE_PRELOAD + FULL_KEEP_MARGIN;
        let keep_end = range.end.saturating_add(keep_margin);
        let keep = Range {
            start: range.start.saturating_sub(keep_margin),
            end: if keep_end <= len {
                keep_end
            } else {
                len
            },
        };
        assert(keep == keep_window_of(len, r));
        let ghost marked = decodes@;
        let mut j: usize = 0;
        while j < len
            invariant
                j <= len,
                len == decodes@.len(),
                len == marked.len(),
                keep == keep_window_of(len, r),
                forall|k: int|
                    #![trigger decodes@[k]]
                    0 <= k < len ==> {
                        &&& decodes@[k].thumb == marked[k].thumb
                        &&& decodes@[k].full == if k < j && !in_range(keep, k as usize) {
                            Tier::Absent
                        } else {
                            marked[k].full
                        }
                    },
            decreases len - j,
        {
            if j < keep.start || j >= keep.end {
                let pd = &mut decodes[j];
                pd.full = Tier::Absent;
            }
            j = j + 1;
        }
        order
    }

    /// Marks a thumb decode as started for every undecoded page (thumb
    /// `Absent`) and returns those pages, in increasing order, for the
    /// caller to decode; every other thumb is left as it is.
    pub fn decode_thumbs<P>(&mut self, decodes: &mut Vec<PageDecode<P>>) -> (pages: Vec<usize>)
        ensures
            final(self)@ == old(self)@,
            final(decodes)@.len() == old(decodes)@.len(),
            forall|a: int, b: int| 0 <= a < b < pages@.len() ==> pages@[a] < pages@[b],
            forall|i: usize|
                #![trigger pages@.contains(i)]
                pages@.contains(i) <==> (i < old(decodes)@.len() && old(decodes)@[i as int].thumb is Absent),
            forall|i: int|
                #![trigger final(decodes)@[i]]
                0 <= i < old(decodes)@.len() ==> {
                    &&& final(decodes)@[i].full == old(decodes)@[i].full
                    &&& final(decodes)@[i].thumb == if old(decodes)@[i].thumb is Absent {
                        Tier::Decoding
                    } else {
                        old(decodes)@[i].thumb
                    }
                },
    {
        let len = decodes.len();
        let ghost start = decodes@;
        let mut pages: Vec<usize> = Vec::new();
        let mut i: usize = 0;
        while i < len
            invariant
                i <= len,
                len == decodes@.len(),
                len == start.len(),
                forall|a: int, b: int| 0 <= a < b < pages@.len() ==> pages@[a] < pages@[b],
                forall|k: int| 0 <= k < pages@.len() ==> pages@[k] < i,
                forall|k: usize|
                    #![trigger pages@.contains(k)]
                    pages@.contains(k) <==> (k < i && start[k as int].thumb is Absent),
                forall|k: int|
                    #![trigger decodes@[k]]
                    0 <= k < len ==> {
                        &&& decodes@[k].full == start[k].full
                        &&& decodes@[k].thumb == if k < i && start[k].thumb is Absent {
                            Tier::Decoding
                        } else {
                            start[k].thumb
                        }
                    },
            decreases len - i,
        {
            let absent = match decodes[i].thumb {
                Tier::Absent => true,
                _ => false,
            };
            if absent {
                let pd = &mut decodes[i];
                pd.thumb = Tier::Decoding;
                let ghost before = pages@;
                pages.push(i);
                proof {
                    assert forall|k: usize| #![trigger pages@.contains(k)]
                        pages@.contains(k) <==> (k < i + 1 && start[k as int].thumb is Absent) by {
                        if pages@.contains(k) && k != i {
                            let q = choose|q: int| 0 <= q < pages@.len() && pages@[q] == k;
                            assert(before[q] == k);
                            assert(before.contains(k));
                        }
                        if k < i && start[k as int].thumb is Absent {
                            assert(before.contains(k));
                            let q = choose|q: int| 0 <= q < before.len() && before[q] == k;
                            assert(pages@[q] == k);
                        }
                        if k == i {
                            assert(pages@[pages@.len() - 1] == k);
                        }
                    }
                }
            } else {
                proof {
                    assert forall|k: usize| #![trigger pages@.contains(k)]
                        pages@.contains(k) <==> (k < i + 1 && start[k as int].thumb is Absent) by {
                        if pages@.contains(k) {
                            let q = choose|q: int| 0 <= q < pages@.len() && pages@[q] == k;
                        }
                    }
                }
            }
            i = i + 1;
        }
        pages
    }

    /// The last debounce generation handed out.
    pub fn generation(&self) -> (r: u64)
        ensures
            r == self@.seq,
    {
        self.settle_seq
    }

    /// True when `seq` is the pending generation (stale debounces no-op).
    pub fn accept_elapsed(&mut self, seq: u64) -> (r: bool)
        ensures
            final(self)@ == old(self)@,
            r == accepts(old(self)@, seq),
    {
        match &self.pending_settle {
            Some((pending_seq, _)) => *pending_seq == seq,
            None => false,
        }
    }

    /// The range waiting for its debounce, if any.
    pub fn pending(&self) -> (r: Option<&Range<usize>>)
        ensures
            match r {
                Some(x) => self@.pending matches Some((_, p)) && p == *x,
                None => self@.pending is None,
            },
    {
        match &self.pending_settle {
            Some((_, range)) => Some(range),
            None => None,
        }
    }

    /// The settled range, if any.
    pub fn settled(&self) -> (r: Option<&Range<usize>>)
        ensures
            match r {
                Some(x) => self@.settled == Some(*x),
                None => self@.settled is None,
            },
    {
        self.settled.as_ref()
    }

    /// Whether `index` lies outside the settled window (needs a settle).
    pub fn needs_settle(&self, index: usize, _len: usize) -> (r: bool)
        ensures
            r == match self@.settled {
                Some(s) => !in_range(s, index),
                None => true,
            },
    {
        match &self.settled {
            Some(range) => !(range.start <= index && index < range.end),
            None => true,
        }
    }

    /// Whether a full decode of `index` should be kept: it lies in the full
    /// window of the settled range.
    pub fn keep_full(&self, len: usize, index: usize) -> (r: bool)
        ensures
            r == match self@.settled {
                Some(s) => in_range(full_window_of(len, s), index),
                None => false,
            },
    {
        match &self.settled {
            Some(range) => {
                let w = Self::full_window(len, range);
                w.start <= index && index < w.end
            },
            None => false,
        }
    }
}

} // verus!
