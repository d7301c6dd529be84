//! Fixed-capacity rolling window.

use vstd::prelude::*;

verus! {

/// The slot after `n` in a ring of `count` slots.
pub open spec fn spec_wrap_next(count: int, n: int) -> int {
    if n + 1 >= count {
        0
    } else {
        n + 1
    }
}

/// The slots of a ring read from `cursor` on, wrapping once: oldest first when
/// `cursor` is the slot that is written next.
pub open spec fn window_of<T>(slots: Seq<T>, cursor: int) -> Seq<T> {
    slots.subrange(cursor, slots.len() as int) + slots.subrange(0, cursor)
}

/// A window after one more write: the oldest value leaves, `s` becomes the newest.
pub open spec fn rolled<T>(w: Seq<T>, s: T) -> Seq<T> {
    w.drop_first().push(s)
}

/// A window after the values of `writes` were written, first to last.
pub open spec fn rolled_all<T>(w: Seq<T>, writes: Seq<T>) -> Seq<T>
    decreases writes.len(),
{
    if writes.len() == 0 {
        w
    } else {
        rolled(rolled_all(w, writes.drop_last()), writes.last())
    }
}

/// Writing never resizes a window, and what it holds afterwards is the tail
/// of what it held followed by what was written.
pub proof fn lemma_rolled_all<T>(w: Seq<T>, writes: Seq<T>)
    requires
        w.len() > 0,
    ensures
        rolled_all(w, writes).len() == w.len(),
        rolled_all(w, writes) == (w + writes).skip(writes.len() as int),
    decreases writes.len(),
{
    if writes.len() == 0 {
        assert(rolled_all(w, writes) =~= (w + writes).skip(0));
    } else {
        let before = writes.drop_last();
        lemma_rolled_all(w, before);
        assert(rolled_all(w, writes) =~= (w + writes).skip(writes.len() as int)) by {
            assert forall|i: int| 0 <= i < w.len() implies rolled_all(w, writes)[i] == (w
                + writes).skip(writes.len() as int)[i] by {
                if i < w.len() - 1 {
                    assert(rolled_all(w, before)[i + 1] == (w + before)[before.len() + i + 1]);
                }
            }
        }
    }
}

/// After at least as many writes as a buffer has slots, it holds the last
/// `n` values written and nothing else, oldest first.
pub proof fn lemma_last_writes_stay<T>(zero: T, n: nat, writes: Seq<T>)
    requires
        n > 0,
        writes.len() >= n,
    ensures
        rolled_all(Seq::new(n, |i: int| zero), writes) == writes.skip(writes.len() - n),
{
    let w = Seq::new(n, |i: int| zero);
    lemma_rolled_all(w, writes);
    assert((w + writes).skip(writes.len() as int) =~= writes.skip(writes.len() - n));
}

/// After fewer writes than a buffer has slots, the slots never written still
/// hold the initial value, and come before the values written.
pub proof fn lemma_unwritten_stay_zero<T>(zero: T, n: nat, writes: Seq<T>)
    requires
        writes.len() < n,
    ensures
        rolled_all(Seq::new(n, |i: int| zero), writes) == Seq::new(
            (n - writes.len()) as nat,
            |i: int| zero,
        ) + writes,
{
    let w = Seq::new(n, |i: int| zero);
    lemma_rolled_all(w, writes);
    assert((w + writes).skip(writes.len() as int) =~= Seq::new(
        (n - writes.len()) as nat,
        |i: int| zero,
    ) + writes);
}

/// Whatever was written and whenever the window is read, each value read is
/// the initial value or one that a write put there whole; once every slot
/// was written, it is one that was written.
pub proof fn lemma_read_was_written<T>(zero: T, n: nat, writes: Seq<T>, i: int)
    requires
        n > 0,
        0 <= i < n,
    ensures
        rolled_all(Seq::new(n, |i: int| zero), writes)[i] == zero || writes.contains(
            rolled_all(Seq::new(n, |i: int| zero), writes)[i],
        ),
        writes.len() >= n ==> writes.contains(rolled_all(Seq::new(n, |i: int| zero), writes)[i]),
{
    let w = Seq::new(n, |i: int| zero);
    lemma_rolled_all(w, writes);
    if writes.len() + i >= n {
        assert((w + writes)[writes.len() + i] == writes[writes.len() + i - n]);
    }
}

/// One access to a shared buffer. Each is made whole: the buffer is handed
/// out to one side at a time.
pub enum Access<T> {
    /// A value is written.
    Write(T),
    /// The window is copied out.
    Read,
}

/// The values that the writes among `trace` wrote, in order.
pub open spec fn writes_of<T>(trace: Seq<Access<T>>) -> Seq<T>
    decreases trace.len(),
{
    if trace.len() == 0 {
        Seq::empty()
    } else {
        match trace.last() {
            Access::Write(v) => writes_of(trace.drop_last()).push(v),
            Access::Read => writes_of(trace.drop_last()),
        }
    }
}

/// What an access at position `at` of `trace` finds in a buffer of `n` slots
/// that started out holding `zero`.
pub open spec fn window_at<T>(zero: T, n: nat, trace: Seq<Access<T>>, at: int) -> Seq<T> {
    rolled_all(Seq::new(n, |i: int| zero), writes_of(trace.take(at)))
}

/// Each value that [`writes_of`] lists was written by an access of the trace.
pub proof fn lemma_writes_of<T>(trace: Seq<Access<T>>, v: T)
    requires
        writes_of(trace).contains(v),
    ensures
        exists|j: int| 0 <= j < trace.len() && #[trigger] trace[j] == Access::Write(v),
    decreases trace.len(),
{
    if trace.len() > 0 {
        let before = trace.drop_last();
        let found = writes_of(before).contains(v);
        if trace.last() == Access::Write(v) {
            assert(trace[trace.len() - 1] == Access::Write(v));
        } else {
            match trace.last() {
                Access::Write(w) => {
                    let all = writes_of(before).push(w);
                    let i = choose|i: int| 0 <= i < all.len() && all[i] == v;
                    assert(writes_of(before)[i] == v);
                },
                Access::Read => {},
            }
            assert(found);
            lemma_writes_of(before, v);
            let j = choose|j: int| 0 <= j < before.len() && #[trigger] before[j] == Access::Write(v);
            assert(trace[j] == Access::Write(v));
        }
    }
}

/// However writes and reads alternate, a read finds in each slot the initial
/// value or a value that an earlier write put there: nothing that is part of
/// one value and part of another.
pub proof fn lemma_read_sees_whole_writes<T>(
    zero: T,
    n: nat,
    trace: Seq<Access<T>>,
    at: int,
    i: int,
)
    requires
        n > 0,
        0 <= at < trace.len(),
        trace[at] is Read,
        0 <= i < n,
    ensures
        window_at(zero, n, trace, at)[i] == zero || exists|j: int|
            0 <= j < at && #[trigger] trace[j] == Access::Write(window_at(zero, n, trace, at)[i]),
{
    let seen = window_at(zero, n, trace, at)[i];
    let earlier = trace.take(at);
    lemma_read_was_written(zero, n, writes_of(earlier), i);
    if seen != zero {
        lemma_writes_of(earlier, seen);
        let j = choose|j: int| 0 <= j < earlier.len() && #[trigger] earlier[j] == Access::Write(seen);
        assert(trace[j] == Access::Write(seen));
    }
}

/// Advances a slot index by one, wrapping to 0 at `COUNT`.
pub fn wrap_next<const COUNT: usize>(n: usize) -> (r: usize)
    ensures
        r == spec_wrap_next(COUNT as int, n as int),
{
    if COUNT == 0 || n >= COUNT - 1 {
        0
    } else {
        n + 1
    }
}

/// `COUNT` slots and a write cursor. Every write overwrites the oldest value.
#[derive(Debug)]
pub struct Circ<T, const COUNT: usize> {
    /// The slots, in storage order.
    pub data: [T; COUNT],
    next: usize,
}

impl<T: Copy, const COUNT: usize> Copy for Circ<T, COUNT> {

}

impl<T: Copy, const COUNT: usize> Clone for Circ<T, COUNT> {
    fn clone(&self) -> (c: Self)
        ensures
            c == *self,
    {
        *self
    }
}

impl<T: Copy, const COUNT: usize> View for Circ<T, COUNT> {
    type V = Seq<T>;

    /// The stored values, oldest first.
    open spec fn view(&self) -> Seq<T> {
        window_of(self.slots(), self.cursor())
    }
}

impl<T: Copy, const COUNT: usize> Circ<T, COUNT> {
    /// The array `data` as a sequence: the slots in storage order.
    pub closed spec fn slots(&self) -> Seq<T> {
        self.data@
    }

    /// The slot that the next write goes to.
    pub closed spec fn cursor(&self) -> int {
        self.next as int
    }

    /// There are `COUNT` slots, and the cursor names one of them.
    pub open spec fn wf(&self) -> bool {
        &&& self.slots().len() == COUNT
        &&& 0 <= self.cursor() < COUNT
    }

    /// A buffer whose every slot holds `zero`.
    pub fn new(zero: T) -> (c: Self)
        requires
            COUNT > 0,
        ensures
            c.wf(),
            c.cursor() == 0,
            c.slots() == Seq::new(COUNT as nat, |i: int| zero),
            c@ == Seq::new(COUNT as nat, |i: int| zero),
    {
        let c = Circ { data: [zero; COUNT], next: 0 };
        assert(c.slots() =~= Seq::new(COUNT as nat, |i: int| zero));
        assert(c@ =~= Seq::new(COUNT as nat, |i: int| zero));
        c
    }

    /// Writes `s` over the oldest value and moves the cursor on.
    pub fn add(&mut self, s: T)
        requires
            old(self).wf(),
        ensures
            final(self).wf(),
            final(self).slots() == old(self).slots().update(old(self).cursor(), s),
            final(self).cursor() == spec_wrap_next(COUNT as int, old(self).cursor()),
            final(self)@ == rolled(old(self)@, s),
    {
        self.data[self.next] = s;
        self.next = wrap_next::<COUNT>(self.next);
        assert(self@ =~= rolled(old(self)@, s));
    }

    /// Starts a walk over the stored values, oldest first.
    pub fn iter<'a>(&'a self) -> (it: CircIter<'a, T, COUNT>)
        requires
            self.wf(),
        ensures
            it.wf(),
            it.source() == *self,
            it.position() == 0,
            it.remaining() == self@,
    {
        CircIter { circ: self, idx: self.next, done: false }
    }

    /// A copy of the stored values, oldest first.
    pub fn snapshot(&self) -> (out: [T; COUNT])
        requires
            self.wf(),
        ensures
            out@ == self@,
    {
        let mut out = self.data;
        let mut from = self.next;
        let mut i: usize = 0;
        while i < COUNT
            invariant
                self.wf(),
                i <= COUNT,
                from < COUNT,
                from == if self.next + i < COUNT {
                    self.next + i
                } else {
                    self.next + i - COUNT
                },
                forall|j: int| 0 <= j < i ==> out@[j] == self@[j],
            decreases COUNT - i,
        {
            out[i] = self.data[from];
            from = wrap_next::<COUNT>(from);
            i += 1;
        }
        assert(out@ =~= self@);
        out
    }
}

/// A walk over the values of a [`Circ`], oldest first.
pub struct CircIter<'a, T, const COUNT: usize> {
    circ: &'a Circ<T, COUNT>,
    idx: usize,
    done: bool,
}

impl<'a, T: Copy, const COUNT: usize> CircIter<'a, T, COUNT> {
    /// The buffer that is walked.
    pub closed spec fn source(&self) -> Circ<T, COUNT> {
        *self.circ
    }

    /// How many values were handed out.
    pub closed spec fn position(&self) -> int {
        if self.done {
            COUNT as int
        } else if self.idx >= self.circ.next {
            self.idx - self.circ.next
        } else {
            self.idx + COUNT - self.circ.next
        }
    }

    /// The walk stands on a slot of a well-formed buffer, and is over only
    /// where it has come round to the cursor.
    pub closed spec fn wf(&self) -> bool {
        &&& self.circ.wf()
        &&& self.idx < COUNT
        &&& self.done ==> self.idx == self.circ.next
    }

    /// The values still to come.
    pub open spec fn remaining(&self) -> Seq<T> {
        self.source()@.skip(self.position())
    }

    /// Hands out the next value, or `None` after the newest.
    pub fn next(&mut self) -> (r: Option<T>)
        requires
            old(self).wf(),
        ensures
            final(self).wf(),
            final(self).source() == old(self).source(),
            match r {
                Some(x) => {
                    &&& old(self).position() < COUNT
                    &&& final(self).position() == old(self).position() + 1
                    &&& x == old(self).remaining()[0]
                    &&& final(self).remaining() == old(self).remaining().drop_first()
                },
                None => {
                    &&& old(self).position() == COUNT
                    &&& final(self).position() == COUNT
                    &&& old(self).remaining().len() == 0
                },
            },
    {
        if self.done {
            None
        } else {
            let res = self.circ.data[self.idx];
            self.idx = wrap_next::<COUNT>(self.idx);
            if self.idx == self.circ.next {
                self.done = true;
            }
            assert(self.remaining() =~= old(self).remaining().drop_first());
            Some(res)
        }
    }

    /// Hands out all the values still to come.
    pub fn collect(self) -> (v: Vec<T>)
        requires
            self.wf(),
        ensures
            v@ == self.remaining(),
    {
        let mut it = self;
        let mut v: Vec<T> = Vec::new();
        loop
            invariant
                it.wf(),
                it.source() == self.source(),
                self.remaining() == v@ + it.remaining(),
            decreases COUNT - it.position(),
        {
            match it.next() {
                Some(x) => {
                    v.push(x);
                    assert(self.remaining() =~= v@ + it.remaining());
                },
                None => {
                    assert(self.remaining() =~= v@);
                    return v;
                },
            }
        }
    }
}

} // verus!
