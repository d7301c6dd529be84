//! Bookkeeping over the heartbeats that one analysis cycle accepts: the first
//! sixteen of them, the distances between the high points of neighbours, and
//! the distance that stands for the inter-beat interval.
//!
//! Whether a detected heartbeat is accepted is for the caller to say, who
//! holds the amplitudes. What follows from the accepted ones is decided here.

use crate::fixed::{
    heap_is_empty, heap_items, heap_len, heap_new, heap_pop, heap_push, list_items, list_new,
    list_push, MAX_HEARTBEATS,
};
use crate::signal::{heartbeats, lemma_heartbeats, lemma_heartbeats_fit, Heartbeat, HeartbeatItr};
use heapless::binary_heap::{BinaryHeap, Max};
use vstd::multiset::Multiset;
use vstd::prelude::*;

verus! {

/// What a cycle has kept of the heartbeats accepted so far.
pub struct Tally {
    /// The first sixteen accepted heartbeats, in order.
    pub beats: Seq<Heartbeat>,
    /// The first sixteen distances between the high points of neighbours.
    pub distances: Multiset<usize>,
    /// The high point of the heartbeat accepted last.
    pub last_high: Option<usize>,
    /// How many heartbeats were accepted, kept or not.
    pub accepted: nat,
}

impl Tally {
    /// Nothing accepted yet.
    pub open spec fn empty() -> Tally {
        Tally {
            beats: Seq::empty(),
            distances: Multiset::empty(),
            last_high: None,
            accepted: 0,
        }
    }

    /// The tally after one more heartbeat. A full list keeps what it has, and
    /// so does a full collection of distances.
    pub open spec fn accept(self, hb: Heartbeat) -> Tally {
        Tally {
            beats: if self.beats.len() < MAX_HEARTBEATS {
                self.beats.push(hb)
            } else {
                self.beats
            },
            distances: match self.last_high {
                Some(last) => if self.distances.len() < MAX_HEARTBEATS {
                    self.distances.insert((hb.high_idx - last) as usize)
                } else {
                    self.distances
                },
                None => self.distances,
            },
            last_high: Some(hb.high_idx),
            accepted: self.accepted + 1,
        }
    }

    /// The tally of a cycle that accepted `hs`, in that order.
    pub open spec fn after(hs: Seq<Heartbeat>) -> Tally
        decreases hs.len(),
    {
        if hs.len() == 0 {
            Tally::empty()
        } else {
            Tally::after(hs.drop_last()).accept(hs.last())
        }
    }
}

/// Those of `all` that `kept` marks, in order.
pub open spec fn selected(all: Seq<Heartbeat>, kept: Seq<bool>) -> Seq<Heartbeat>
    decreases all.len(),
{
    if all.len() == 0 {
        Seq::empty()
    } else if kept.last() {
        selected(all.drop_last(), kept.drop_last()).push(all.last())
    } else {
        selected(all.drop_last(), kept.drop_last())
    }
}

/// How many of the distances in `m` are greater than `v`.
pub open spec fn count_above(m: Multiset<usize>, v: usize) -> nat {
    m.filter(|x: usize| x > v).len()
}

/// How many of the distances in `m` are `v` or greater.
pub open spec fn count_from(m: Multiset<usize>, v: usize) -> nat {
    m.filter(|x: usize| x >= v).len()
}

/// `v` is what is on top of `m` once the greatest `m.len() / 2` distances are
/// taken away: it occurs in `m`, no more than `m.len() / 2` distances are
/// greater, and more than `m.len() / 2` are at least as great.
pub open spec fn is_trimmed_top(m: Multiset<usize>, v: usize) -> bool {
    &&& m.count(v) > 0
    &&& count_above(m, v) <= m.len() / 2
    &&& m.len() / 2 < count_from(m, v)
}

/// `r` is the distance that stands for the inter-beat interval of a cycle
/// that kept the distances `m`: none where none was kept, else the trimmed
/// top.
pub open spec fn is_interval_of(m: Multiset<usize>, r: Option<usize>) -> bool {
    match r {
        Some(v) => is_trimmed_top(m, v),
        None => m.len() == 0,
    }
}

/// The distances between the high points of neighbours in `hs`, in order.
pub open spec fn gaps(hs: Seq<Heartbeat>) -> Seq<usize> {
    Seq::new(
        if hs.len() == 0 {
            0
        } else {
            (hs.len() - 1) as nat
        },
        |i: int| (hs[i + 1].high_idx - hs[i].high_idx) as usize,
    )
}

/// The first `n` items of `s`, or all of `s` where it has no more.
pub open spec fn first_n<A>(s: Seq<A>, n: int) -> Seq<A> {
    if s.len() <= n {
        s
    } else {
        s.take(n)
    }
}

proof fn lemma_filter_add(a: Multiset<usize>, b: Multiset<usize>, f: spec_fn(usize) -> bool)
    ensures
        a.add(b).filter(f) == a.filter(f).add(b.filter(f)),
{
    broadcast use vstd::multiset::group_multiset_axioms;

    assert(a.add(b).filter(f) =~= a.filter(f).add(b.filter(f)));
}

proof fn lemma_filter_len(m: Multiset<usize>, f: spec_fn(usize) -> bool)
    ensures
        m.filter(f).len() <= m.len(),
{
    broadcast use vstd::multiset::group_multiset_axioms;

    let g = |x: usize| !f(x);
    assert(m =~= m.filter(f).add(m.filter(g)));
}

proof fn lemma_filter_all(m: Multiset<usize>, f: spec_fn(usize) -> bool)
    requires
        forall|x: usize| m.count(x) > 0 ==> f(x),
    ensures
        m.filter(f) == m,
{
    broadcast use vstd::multiset::group_multiset_axioms;

    assert(m.filter(f) =~= m);
}

proof fn lemma_filter_none(m: Multiset<usize>, f: spec_fn(usize) -> bool)
    requires
        forall|x: usize| m.count(x) > 0 ==> !f(x),
    ensures
        m.filter(f).len() == 0,
{
    broadcast use vstd::multiset::group_multiset_axioms;

    assert(m.filter(f) =~= Multiset::empty());
}

proof fn lemma_filter_has(m: Multiset<usize>, f: spec_fn(usize) -> bool, v: usize)
    requires
        m.count(v) > 0,
        f(v),
    ensures
        m.filter(f).len() > 0,
{
    broadcast use vstd::multiset::group_multiset_axioms;

    assert(m.filter(f).count(v) > 0);
}

/// What is on top after the greatest `taken.len()` distances are gone is the
/// trimmed top, where `taken.len()` is half of all there were.
proof fn lemma_top_after_taking(
    all: Multiset<usize>,
    taken: Multiset<usize>,
    rest: Multiset<usize>,
    v: usize,
)
    requires
        all == rest.add(taken),
        taken.len() == all.len() / 2,
        rest.count(v) > 0,
        forall|x: usize| rest.count(x) > 0 ==> x <= v,
        forall|x: usize| taken.count(x) > 0 ==> v <= x,
    ensures
        is_trimmed_top(all, v),
{
    broadcast use vstd::multiset::group_multiset_axioms;

    let above = |x: usize| x > v;
    let from = |x: usize| x >= v;
    lemma_filter_add(rest, taken, above);
    lemma_filter_add(rest, taken, from);
    lemma_filter_none(rest, above);
    lemma_filter_len(taken, above);
    lemma_filter_all(taken, from);
    lemma_filter_has(rest, from, v);
}

/// No two distances are the trimmed top of one collection: which of several
/// equal distances a heap gives up first does not show in the result.
pub proof fn lemma_trimmed_top_unique(m: Multiset<usize>, v: usize, w: usize)
    requires
        is_trimmed_top(m, v),
        is_trimmed_top(m, w),
    ensures
        v == w,
{
    broadcast use vstd::multiset::group_multiset_axioms;

    if v < w {
        let above_v = |x: usize| x > v;
        let from_w = |x: usize| x >= w;
        assert(m.filter(above_v).filter(from_w) =~= m.filter(from_w));
        lemma_filter_len(m.filter(above_v), from_w);
    } else if w < v {
        let above_w = |x: usize| x > w;
        let from_v = |x: usize| x >= v;
        assert(m.filter(above_w).filter(from_v) =~= m.filter(from_v));
        lemma_filter_len(m.filter(above_w), from_v);
    }
}

/// Written down from the greatest to the least, the distances have the
/// trimmed top in the middle: at position `len / 2`, counting from 0.
pub proof fn lemma_trimmed_top_of_sorted(sorted: Seq<usize>)
    requires
        sorted.len() > 0,
        forall|i: int, j: int| 0 <= i <= j < sorted.len() ==> sorted[i] >= sorted[j],
    ensures
        is_trimmed_top(sorted.to_multiset(), sorted[sorted.len() as int / 2]),
{
    broadcast use vstd::seq_lib::group_to_multiset_ensures;
    broadcast use vstd::multiset::group_multiset_axioms;

    let half = sorted.len() as int / 2;
    let taken = sorted.take(half);
    let rest = sorted.skip(half);
    let v = sorted[half];
    assert(sorted.to_multiset() =~= rest.to_multiset().add(taken.to_multiset())) by {
        assert(taken + rest =~= sorted);
        vstd::seq_lib::lemma_multiset_commutative(taken, rest);
    }
    assert(rest[0] == v);
    assert(rest.contains(v));
    assert forall|x: usize| rest.to_multiset().count(x) > 0 implies x <= v by {
        assert(rest.contains(x));
        let i = choose|i: int| 0 <= i < rest.len() && rest[i] == x;
        assert(sorted[half + i] == x);
    }
    assert forall|x: usize| taken.to_multiset().count(x) > 0 implies v <= x by {
        assert(taken.contains(x));
        let i = choose|i: int| 0 <= i < taken.len() && taken[i] == x;
        assert(sorted[i] == x);
    }
    lemma_top_after_taking(sorted.to_multiset(), taken.to_multiset(), rest.to_multiset(), v);
}

/// One collection of distances has one interval: two answers that both fit
/// are the same answer.
pub proof fn lemma_interval_unique(m: Multiset<usize>, r: Option<usize>, q: Option<usize>)
    requires
        is_interval_of(m, r),
        is_interval_of(m, q),
    ensures
        r == q,
{
    match (r, q) {
        (Some(v), Some(w)) => {
            lemma_trimmed_top_unique(m, v, w);
        },
        _ => {},
    }
}

/// A cycle that accepted `hs` counted them all, remembers the high point of
/// the last, kept the first sixteen, and kept the first sixteen distances
/// between neighbours.
pub proof fn lemma_after(hs: Seq<Heartbeat>)
    ensures
        Tally::after(hs).accepted == hs.len(),
        Tally::after(hs).last_high == if hs.len() == 0 {
            None
        } else {
            Some(hs.last().high_idx)
        },
        Tally::after(hs).beats == first_n(hs, MAX_HEARTBEATS as int),
        Tally::after(hs).distances == first_n(gaps(hs), MAX_HEARTBEATS as int).to_multiset(),
    decreases hs.len(),
{
    broadcast use vstd::seq_lib::group_to_multiset_ensures;

    let cap = MAX_HEARTBEATS as int;
    if hs.len() == 0 {
        assert(gaps(hs) =~= Seq::<usize>::empty());
        assert(first_n(gaps(hs), cap).to_multiset() =~= Multiset::<usize>::empty());
    } else {
        let before = hs.drop_last();
        lemma_after(before);
        assert(Tally::after(hs).beats =~= first_n(hs, cap));
        if before.len() == 0 {
            assert(gaps(hs) =~= Seq::<usize>::empty());
        } else {
            let gap = (hs.last().high_idx - before.last().high_idx) as usize;
            assert(gaps(hs) =~= gaps(before).push(gap));
            if gaps(before).len() < cap {
                assert(first_n(gaps(hs), cap) =~= first_n(gaps(before), cap).push(gap));
            } else {
                assert(first_n(gaps(hs), cap) =~= first_n(gaps(before), cap));
            }
        }
    }
}

/// A cycle has an interval exactly if it accepted two heartbeats or more,
/// and the interval is then one of the first sixteen distances between
/// neighbours.
pub proof fn lemma_interval_is_a_gap(hs: Seq<Heartbeat>, r: Option<usize>)
    requires
        is_interval_of(Tally::after(hs).distances, r),
    ensures
        r is Some <==> hs.len() >= 2,
        r matches Some(v) ==> exists|i: int|
            0 <= i < hs.len() - 1 && i < MAX_HEARTBEATS && v == #[trigger] gaps(hs)[i],
{
    broadcast use vstd::seq_lib::group_to_multiset_ensures;
    broadcast use vstd::multiset::group_multiset_axioms;

    lemma_after(hs);
    let kept = first_n(gaps(hs), MAX_HEARTBEATS as int);
    match r {
        Some(v) => {
            assert(kept.contains(v));
            let i = choose|i: int| 0 <= i < kept.len() && kept[i] == v;
            assert(v == gaps(hs)[i]);
        },
        None => {},
    }
}

/// Where each accepted heartbeat has its high point after that of the one
/// before, the interval is not zero.
pub proof fn lemma_interval_positive(hs: Seq<Heartbeat>, v: usize)
    requires
        forall|a: int, b: int|
            0 <= a < b < hs.len() ==> (#[trigger] hs[a]).high_idx < (#[trigger] hs[b]).high_idx,
        is_interval_of(Tally::after(hs).distances, Some(v)),
    ensures
        v > 0,
{
    lemma_interval_is_a_gap(hs, Some(v));
    let i = choose|i: int|
        0 <= i < hs.len() - 1 && i < MAX_HEARTBEATS && v == #[trigger] gaps(hs)[i];
    assert(hs[i].high_idx < hs[i + 1].high_idx);
}

/// Takes the greatest half of the distances off the heap, then the greatest
/// that is left, and returns that one.
pub fn pop_trimmed_top(heap: BinaryHeap<usize, Max, 16>) -> (r: Option<usize>)
    ensures
        is_interval_of(heap_items(heap), r),
{
    broadcast use vstd::multiset::group_multiset_axioms;

    let mut heap = heap;
    let ghost all = heap_items(heap);
    if heap_is_empty(&heap) {
        return None;
    }
    let half = heap_len(&heap) / 2;
    let ghost mut taken: Multiset<usize> = Multiset::empty();
    let mut i: usize = 0;
    assert(all =~= heap_items(heap).add(taken));
    while i < half
        invariant
            i <= half,
            half == all.len() / 2,
            all.len() > 0,
            taken.len() == i,
            all == heap_items(heap).add(taken),
            forall|x: usize, y: usize|
                heap_items(heap).count(x) > 0 && taken.count(y) > 0 ==> x <= y,
        decreases half - i,
    {
        let ghost before = heap_items(heap);
        let top = heap_pop(&mut heap);
        proof {
            let t = top->0;
            assert(all =~= heap_items(heap).add(taken.insert(t)));
            assert forall|x: usize, y: usize|
                heap_items(heap).count(x) > 0 && taken.insert(t).count(y) > 0 implies x <= y by {
                assert(before.count(x) > 0);
            }
            taken = taken.insert(t);
        }
        i += 1;
    }
    let ghost rest = heap_items(heap);
    let top = heap_pop(&mut heap);
    proof {
        let v = top->0;
        assert forall|y: usize| taken.count(y) > 0 implies v <= y by {}
        lemma_top_after_taking(all, taken, rest, v);
    }
    top
}

/// What one analysis cycle hands on: the heartbeats it kept, how many it
/// accepted, and the distance that stands for the inter-beat interval.
pub struct BeatSummary {
    /// The first sixteen accepted heartbeats, in order.
    pub heartbeats: heapless::Vec<Heartbeat, 16>,
    /// How many heartbeats were accepted, kept or not.
    pub accepted: usize,
    /// The distance, in samples, that stands for the inter-beat interval.
    pub interval: Option<usize>,
}

impl BeatSummary {
    /// The summary is that of a cycle that ended with the tally `t`.
    pub open spec fn sums_up(&self, t: Tally) -> bool {
        &&& list_items(self.heartbeats) == t.beats
        &&& self.accepted == t.accepted
        &&& is_interval_of(t.distances, self.interval)
    }
}

/// A cycle keeps nothing from the cycle before, and its outcome does not
/// hang on which of several equal distances left the heap first: two
/// summaries of cycles that detected the same heartbeats and accepted the
/// same ones hold the same heartbeats, the same count and the same interval.
pub proof fn lemma_cycle_repeats(
    all: Seq<Heartbeat>,
    kept: Seq<bool>,
    first: BeatSummary,
    second: BeatSummary,
)
    requires
        first.sums_up(Tally::after(selected(all, kept))),
        second.sums_up(Tally::after(selected(all, kept))),
    ensures
        list_items(first.heartbeats) == list_items(second.heartbeats),
        first.accepted == second.accepted,
        first.interval == second.interval,
{
    lemma_interval_unique(
        Tally::after(selected(all, kept)).distances,
        first.interval,
        second.interval,
    );
}

/// Collects the heartbeats that a cycle accepts, one by one.
pub struct BeatTracker {
    heartbeats: heapless::Vec<Heartbeat, 16>,
    distances: BinaryHeap<usize, Max, 16>,
    last_hb_idx: Option<usize>,
    count: usize,
}

impl View for BeatTracker {
    type V = Tally;

    closed spec fn view(&self) -> Tally {
        Tally {
            beats: list_items(self.heartbeats),
            distances: heap_items(self.distances),
            last_high: self.last_hb_idx,
            accepted: self.count as nat,
        }
    }
}

impl BeatTracker {
    /// `hb` can follow what was accepted: its high point is not before the
    /// last one, and the count of accepted heartbeats has room.
    pub open spec fn admits(&self, hb: Heartbeat) -> bool {
        &&& self@.accepted < usize::MAX
        &&& self@.last_high matches Some(last) ==> last <= hb.high_idx
    }

    /// A tracker at the start of a cycle.
    pub fn new() -> (t: Self)
        ensures
            t@ == Tally::empty(),
    {
        BeatTracker {
            heartbeats: list_new(),
            distances: heap_new(),
            last_hb_idx: None,
            count: 0,
        }
    }

    /// Takes in one accepted heartbeat: keeps it if fewer than sixteen are
    /// kept, and keeps its distance from the one before under the same rule.
    pub fn accept(&mut self, hb: Heartbeat)
        requires
            old(self).admits(hb),
        ensures
            final(self)@ == old(self)@.accept(hb),
    {
        let _ = list_push(&mut self.heartbeats, hb);
        match self.last_hb_idx {
            Some(last) => {
                let _ = heap_push(&mut self.distances, hb.high_idx - last);
            },
            None => {},
        }
        self.last_hb_idx = Some(hb.high_idx);
        self.count += 1;
    }

    /// Whether `hb` can be handed to [`accept`](Self::accept).
    pub fn can_accept(&self, hb: Heartbeat) -> (b: bool)
        ensures
            b == self.admits(hb),
    {
        self.count < usize::MAX && match self.last_hb_idx {
            Some(last) => last <= hb.high_idx,
            None => true,
        }
    }

    /// Ends the cycle.
    pub fn finish(self) -> (s: BeatSummary)
        ensures
            s.sums_up(self@),
    {
        let interval = pop_trimmed_top(self.distances);
        BeatSummary { heartbeats: self.heartbeats, accepted: self.count, interval }
    }
}

/// One analysis cycle over the signs of a window: detects the heartbeats,
/// asks `accept` of each in turn, and sums up those it accepted.
///
/// `accept` decides from the amplitudes, which this crate does not see. So
/// the summary is stated for whatever `accept` answered: some `kept` holds
/// its answers, one for each detected heartbeat, and the summary is that of
/// the heartbeats it marks.
pub fn run_cycle(signs: &[bool], accept: impl Fn(Heartbeat) -> bool) -> (s: BeatSummary)
    requires
        forall|i: int|
            0 <= i < heartbeats(signs@).len() ==> call_requires(
                accept,
                (#[trigger] heartbeats(signs@)[i],),
            ),
    ensures
        exists|kept: Seq<bool>|
            {
                &&& kept.len() == heartbeats(signs@).len()
                &&& forall|i: int|
                    0 <= i < kept.len() ==> call_ensures(
                        accept,
                        (heartbeats(signs@)[i],),
                        #[trigger] kept[i],
                    )
                &&& s.sums_up(Tally::after(selected(heartbeats(signs@), kept)))
            },
{
    let ghost all = heartbeats(signs@);
    let ghost mut kept: Seq<bool> = Seq::empty();
    let mut itr = HeartbeatItr::new(signs);
    let mut tracker = BeatTracker::new();
    proof {
        assert(signs@.len() == signs.len());
        lemma_heartbeats(signs@);
        lemma_heartbeats_fit(signs@);
        assert(all.skip(0) =~= all);
    }
    loop
        invariant
            itr.wf(),
            itr.signs() == signs@,
            all == heartbeats(signs@),
            all.len() <= usize::MAX,
            kept.len() <= all.len(),
            itr.remaining() == all.skip(kept.len() as int),
            forall|i: int|
                0 <= i < all.len() ==> call_requires(accept, (#[trigger] all[i],)),
            forall|i: int|
                0 <= i < kept.len() ==> call_ensures(accept, (all[i],), #[trigger] kept[i]),
            forall|a: int, b: int|
                0 <= a < b < all.len() ==> (#[trigger] all[a]).high_idx <= (#[trigger] all[b]).high_idx,
            tracker@ == Tally::after(selected(all.take(kept.len() as int), kept)),
            tracker@.accepted <= kept.len(),
            tracker@.last_high matches Some(last) ==> exists|j: int|
                0 <= j < kept.len() && last == (#[trigger] all[j]).high_idx,
        decreases all.len() - kept.len(),
    {
        let ghost n = kept.len() as int;
        match itr.next() {
            Some(hb) => {
                assert(hb == all[n]);
                let keep = accept(hb);
                proof {
                    let before = selected(all.take(n), kept);
                    assert(all.take(n + 1).drop_last() =~= all.take(n));
                    assert(kept.push(keep).drop_last() =~= kept);
                    if keep {
                        assert(selected(all.take(n + 1), kept.push(keep)) == before.push(hb));
                        assert(before.push(hb).drop_last() =~= before);
                    }
                    assert(itr.remaining() =~= all.skip(n + 1));
                }
                if keep {
                    tracker.accept(hb);
                }
                proof {
                    kept = kept.push(keep);
                }
            },
            None => {
                proof {
                    assert(all.take(n) =~= all);
                }
                return tracker.finish();
            },
        }
    }
}

} // verus!
