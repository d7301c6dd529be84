//! Heartbeat detection over the signs of a window's first derivative.
//!
//! A window of `n` amplitudes has `n - 1` derivative samples; sample `i` is
//! the step from point `i` to point `i + 1`. The detector reads one flag per
//! sample: whether that step is non-negative. A heartbeat pairs the last point
//! of a rise with the point at which, after a fall, the next rise starts.

use vstd::prelude::*;

verus! {

/// Two positions in a window: the high point of a beat and the low point
/// that closes it.
#[derive(Clone, Copy, Debug, PartialEq, Eq, Structural)]
pub struct Heartbeat {
    pub high_idx: usize,
    pub low_idx: usize,
}

impl Heartbeat {
    /// The heartbeat with both positions at 0.
    pub fn zero() -> (hb: Self)
        ensures
            hb == (Heartbeat { high_idx: 0, low_idx: 0 }),
    {
        Heartbeat { high_idx: 0, low_idx: 0 }
    }
}

/// One derivative sample: its position and whether the step from this point
/// to the next is non-negative.
#[derive(Clone, Copy, Debug, PartialEq, Eq, Structural)]
pub struct DerivItrItem {
    pub idx: usize,
    pub rising: bool,
}

/// The derivative samples of a sign sequence, in order.
pub open spec fn deriv_items(signs: Seq<bool>) -> Seq<DerivItrItem> {
    Seq::new(signs.len(), |i: int| DerivItrItem { idx: i as usize, rising: signs[i] })
}

/// The rise goes on at `j`: the step into `j` and the step out of it are both
/// non-negative.
pub open spec fn rise_continues(signs: Seq<bool>, j: int) -> bool {
    1 <= j < signs.len() && signs[j - 1] && signs[j]
}

/// A rise starts at `i` after a fall.
pub open spec fn rise_starts(signs: Seq<bool>, i: int) -> bool {
    1 <= i < signs.len() && !signs[i - 1] && signs[i]
}

/// The last position before `i` at which the rise goes on, if there is one.
pub open spec fn last_high(signs: Seq<bool>, i: int) -> Option<int>
    decreases i,
{
    if i <= 0 {
        None
    } else if rise_continues(signs, i - 1) {
        Some(i - 1)
    } else {
        last_high(signs, i - 1)
    }
}

/// The heartbeat that closes at `i`: a rise starts there after a fall, and a
/// high point was seen before.
pub open spec fn beat_at(signs: Seq<bool>, i: int) -> Option<Heartbeat> {
    if rise_starts(signs, i) {
        match last_high(signs, i) {
            Some(h) => Some(Heartbeat { high_idx: h as usize, low_idx: i as usize }),
            None => None,
        }
    } else {
        None
    }
}

/// The heartbeats that close at `from` or later, in order.
pub open spec fn beats_from(signs: Seq<bool>, from: int) -> Seq<Heartbeat>
    decreases signs.len() - from,
{
    if from >= signs.len() {
        Seq::empty()
    } else {
        match beat_at(signs, from) {
            Some(hb) => seq![hb] + beats_from(signs, from + 1),
            None => beats_from(signs, from + 1),
        }
    }
}

/// All heartbeats of a sign sequence, in order.
pub open spec fn heartbeats(signs: Seq<bool>) -> Seq<Heartbeat> {
    beats_from(signs, 0)
}

/// [`last_high`] names a position before `i` at which the rise goes on and
/// after which, up to `i`, it does not; it names none where there is none.
pub proof fn lemma_last_high(signs: Seq<bool>, i: int)
    ensures
        match last_high(signs, i) {
            Some(h) => {
                &&& 1 <= h < i
                &&& rise_continues(signs, h)
                &&& forall|j: int| h < j < i ==> !rise_continues(signs, j)
            },
            None => forall|j: int| j < i ==> !rise_continues(signs, j),
        },
    decreases i,
{
    if i > 0 && !rise_continues(signs, i - 1) {
        lemma_last_high(signs, i - 1);
    }
}

/// The high point remembered never moves back as more samples are read.
pub proof fn lemma_last_high_grows(signs: Seq<bool>, i: int, k: int)
    requires
        i <= k,
    ensures
        match last_high(signs, i) {
            Some(h) => last_high(signs, k) matches Some(g) && h <= g,
            None => true,
        },
    decreases k - i,
{
    if i < k {
        lemma_last_high(signs, i);
        lemma_last_high_grows(signs, i, k - 1);
    }
}

/// A heartbeat is among those closing at `from` or later exactly if it is
/// the one that closes at its own low point and that point is not before
/// `from`. They come in the order of their low points.
pub proof fn lemma_beats_from(signs: Seq<bool>, from: int)
    requires
        0 <= from,
        signs.len() <= usize::MAX,
    ensures
        forall|hb: Heartbeat| #[trigger]
            beats_from(signs, from).contains(hb) <==> from <= hb.low_idx && beat_at(
                signs,
                hb.low_idx as int,
            ) == Some(hb),
        forall|a: int, b: int|
            0 <= a < b < beats_from(signs, from).len() ==> (#[trigger] beats_from(
                signs,
                from,
            )[a]).low_idx < (#[trigger] beats_from(signs, from)[b]).low_idx,
    decreases signs.len() - from,
{
    let here = beats_from(signs, from);
    if from >= signs.len() {
    } else {
        let rest = beats_from(signs, from + 1);
        lemma_beats_from(signs, from + 1);
        match beat_at(signs, from) {
            Some(first) => {
                assert(here =~= seq![first] + rest);
                assert(here[0] == first);
                assert forall|hb: Heartbeat| #[trigger]
                    here.contains(hb) <==> from <= hb.low_idx && beat_at(signs, hb.low_idx as int)
                        == Some(hb) by {
                    if here.contains(hb) {
                        let i = choose|i: int| 0 <= i < here.len() && here[i] == hb;
                        if i > 0 {
                            assert(rest[i - 1] == hb);
                            assert(rest.contains(hb));
                        }
                    }
                    if from <= hb.low_idx && beat_at(signs, hb.low_idx as int) == Some(hb) {
                        if hb.low_idx == from {
                            assert(here[0] == hb);
                        } else {
                            assert(rest.contains(hb));
                            let i = choose|i: int| 0 <= i < rest.len() && rest[i] == hb;
                            assert(here[i + 1] == hb);
                        }
                    }
                }
                assert forall|a: int, b: int| 0 <= a < b < here.len() implies (#[trigger] here[a]).low_idx
                    < (#[trigger] here[b]).low_idx by {
                    assert(here[b] == rest[b - 1]);
                    assert(rest.contains(rest[b - 1]));
                    if a > 0 {
                        assert(here[a] == rest[a - 1]);
                    }
                }
            },
            None => {
                assert(here =~= rest);
            },
        }
    }
}

/// Of all heartbeats of a sign sequence: each pairs a point at which a rise
/// starts after a fall with the last point before it at which a rise went
/// on; there is one for each such pair; they come in the order of their low
/// points, and their high points never move back.
pub proof fn lemma_heartbeats(signs: Seq<bool>)
    requires
        signs.len() <= usize::MAX,
    ensures
        forall|hb: Heartbeat| #[trigger]
            heartbeats(signs).contains(hb) <==> {
                &&& rise_starts(signs, hb.low_idx as int)
                &&& last_high(signs, hb.low_idx as int) == Some(hb.high_idx as int)
            },
        forall|a: int, b: int|
            0 <= a < b < heartbeats(signs).len() ==> {
                &&& (#[trigger] heartbeats(signs)[a]).low_idx < (#[trigger] heartbeats(
                    signs,
                )[b]).low_idx
                &&& heartbeats(signs)[a].high_idx <= heartbeats(signs)[b].high_idx
            },
        forall|a: int|
            0 <= a < heartbeats(signs).len() ==> (#[trigger] heartbeats(signs)[a]).high_idx
                < heartbeats(signs)[a].low_idx,
{
    let all = heartbeats(signs);
    lemma_beats_from(signs, 0);
    assert forall|hb: Heartbeat| #[trigger]
        all.contains(hb) <==> {
            &&& rise_starts(signs, hb.low_idx as int)
            &&& last_high(signs, hb.low_idx as int) == Some(hb.high_idx as int)
        } by {
        lemma_last_high(signs, hb.low_idx as int);
    }
    assert forall|a: int, b: int| 0 <= a < b < all.len() implies {
        &&& (#[trigger] all[a]).low_idx < (#[trigger] all[b]).low_idx
        &&& all[a].high_idx <= all[b].high_idx
    } by {
        assert(all.contains(all[a]));
        assert(all.contains(all[b]));
        lemma_last_high(signs, all[a].low_idx as int);
        lemma_last_high(signs, all[b].low_idx as int);
        lemma_last_high_grows(signs, all[a].low_idx as int, all[b].low_idx as int);
    }
    assert forall|a: int| 0 <= a < all.len() implies (#[trigger] all[a]).high_idx
        < all[a].low_idx by {
        assert(all.contains(all[a]));
        lemma_last_high(signs, all[a].low_idx as int);
    }
}

/// No more heartbeats close at `from` or later than there are samples left.
pub proof fn lemma_beats_from_fit(signs: Seq<bool>, from: int)
    requires
        0 <= from <= signs.len(),
    ensures
        beats_from(signs, from).len() <= signs.len() - from,
    decreases signs.len() - from,
{
    if from < signs.len() {
        lemma_beats_from_fit(signs, from + 1);
    }
}

/// A sign sequence has no more heartbeats than samples.
pub proof fn lemma_heartbeats_fit(signs: Seq<bool>)
    ensures
        heartbeats(signs).len() <= signs.len(),
{
    lemma_beats_from_fit(signs, 0);
}

/// Walks the derivative samples of a sign sequence.
pub struct DerivItr<'a> {
    signs: &'a [bool],
    idx: usize,
}

impl<'a> DerivItr<'a> {
    /// The sign sequence that is walked.
    pub closed spec fn signs(&self) -> Seq<bool> {
        self.signs@
    }

    /// How many samples were handed out.
    pub closed spec fn position(&self) -> int {
        self.idx as int
    }

    /// The walk has not run past the last sample.
    pub open spec fn wf(&self) -> bool {
        0 <= self.position() <= self.signs().len()
    }

    /// The samples still to come.
    pub open spec fn remaining(&self) -> Seq<DerivItrItem> {
        deriv_items(self.signs()).skip(self.position())
    }

    /// Starts at the first sample.
    pub fn new(signs: &'a [bool]) -> (it: Self)
        ensures
            it.wf(),
            it.signs() == signs@,
            it.position() == 0,
            it.remaining() == deriv_items(signs@),
    {
        DerivItr { signs, idx: 0 }
    }

    /// Hands out the next sample, or `None` after the last.
    pub fn next(&mut self) -> (r: Option<DerivItrItem>)
        requires
            old(self).wf(),
        ensures
            final(self).wf(),
            final(self).signs() == old(self).signs(),
            match r {
                Some(d) => {
                    &&& old(self).position() < old(self).signs().len()
                    &&& final(self).position() == old(self).position() + 1
                    &&& d == old(self).remaining()[0]
                    &&& final(self).remaining() == old(self).remaining().drop_first()
                },
                None => {
                    &&& old(self).position() == old(self).signs().len()
                    &&& final(self).position() == old(self).position()
                    &&& old(self).remaining().len() == 0
                },
            },
    {
        if self.idx >= self.signs.len() {
            None
        } else {
            let i = self.idx;
            self.idx += 1;
            let rising = self.signs[i];
            Some(DerivItrItem { idx: i, rising })
        }
    }
}

/// Pulls derivative samples and hands out the heartbeats they close.
pub struct HeartbeatItr<'a> {
    deriv_itr: DerivItr<'a>,
    high: Option<DerivItrItem>,
    last_deriv: Option<bool>,
}

impl<'a> HeartbeatItr<'a> {
    /// The sign sequence that is read.
    pub closed spec fn signs(&self) -> Seq<bool> {
        self.deriv_itr.signs()
    }

    /// How many derivative samples were read.
    pub closed spec fn position(&self) -> int {
        self.deriv_itr.position()
    }

    /// The remembered high point and the last sign agree with what was read.
    pub closed spec fn wf(&self) -> bool {
        let k = self.position();
        &&& self.deriv_itr.wf()
        &&& self.last_deriv == if k == 0 {
            None
        } else {
            Some(self.signs()[k - 1])
        }
        &&& match last_high(self.signs(), k) {
            Some(h) => self.high == Some(DerivItrItem { idx: h as usize, rising: true }),
            None => self.high is None,
        }
    }

    /// The heartbeats still to come.
    pub open spec fn remaining(&self) -> Seq<Heartbeat> {
        beats_from(self.signs(), self.position())
    }

    /// Starts before the first derivative sample, with nothing remembered.
    pub fn new(signs: &'a [bool]) -> (it: Self)
        ensures
            it.wf(),
            it.signs() == signs@,
            it.position() == 0,
            it.remaining() == heartbeats(signs@),
    {
        HeartbeatItr { deriv_itr: DerivItr::new(signs), high: None, last_deriv: None }
    }

    /// Reads on until a heartbeat closes and hands it out, or `None` when the
    /// samples run out first.
    pub fn next(&mut self) -> (r: Option<Heartbeat>)
        requires
            old(self).wf(),
        ensures
            final(self).wf(),
            final(self).signs() == old(self).signs(),
            match r {
                Some(hb) => {
                    &&& old(self).remaining().len() > 0
                    &&& hb == old(self).remaining()[0]
                    &&& final(self).remaining() == old(self).remaining().drop_first()
                },
                None => {
                    &&& old(self).remaining().len() == 0
                    &&& final(self).remaining().len() == 0
                },
            },
    {
        loop
            invariant
                self.wf(),
                self.signs() == old(self).signs(),
                self.remaining() == old(self).remaining(),
            decreases self.signs().len() - self.position(),
        {
            let ghost signs = self.signs();
            let ghost k = self.position();
            let d = match self.deriv_itr.next() {
                Some(d) => d,
                None => {
                    return None;
                },
            };
            assert(d.idx == k && d.rising == signs[k]);
            let last_deriv = self.last_deriv;
            self.last_deriv = Some(d.rising);
            match last_deriv {
                None => {},
                Some(last) => {
                    if d.rising {
                        if last {
                            self.high = Some(d);
                        } else {
                            match self.high {
                                Some(h) => {
                                    assert(beats_from(signs, k) =~= seq![
                                        Heartbeat { high_idx: h.idx, low_idx: d.idx },
                                    ] + beats_from(signs, k + 1));
                                    assert((seq![Heartbeat { high_idx: h.idx, low_idx: d.idx }]
                                        + beats_from(signs, k + 1)).drop_first() =~= beats_from(
                                        signs,
                                        k + 1,
                                    ));
                                    return Some(Heartbeat { high_idx: h.idx, low_idx: d.idx });
                                },
                                None => {},
                            }
                        }
                    }
                },
            }
        }
    }
}

} // verus!
