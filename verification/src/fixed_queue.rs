//! A queue of a fixed number of slots that keeps the latest values added,
//! overwriting the oldest (the player's recent movement directions).

use vstd::prelude::*;

verus! {

/// `N` slots, written in turn from `head` on.
pub struct FixedQueue<T, const N: usize> {
    pub buffer: Vec<Option<T>>,
    pub head: usize,
}

/// The value that slot `i` of a queue of `n` slots holds after the values
/// `vs` were added to an empty queue: the last of them added at a position
/// that is `i` modulo `n`.
pub open spec fn slot_after<T>(vs: Seq<T>, n: nat, i: int) -> Option<T>
    decreases vs.len(),
{
    if vs.len() == 0 {
        None
    } else if (vs.len() - 1) % (n as int) == i {
        Some(vs.last())
    } else {
        slot_after(vs.drop_last(), n, i)
    }
}

impl<T: Copy, const N: usize> FixedQueue<T, N> {
    /// The slots hold `N` values or nothing and the next slot to write is
    /// one of them.
    pub open spec fn wf(&self) -> bool {
        &&& self.buffer@.len() == N
        &&& (N > 0 ==> self.head < N)
    }

    /// A queue with all slots empty.
    pub fn new() -> (q: Self)
        ensures
            q.wf(),
            q.head == 0,
            forall|i: int| 0 <= i < N ==> (#[trigger] q.buffer@[i]) is None,
    {
        let mut buffer: Vec<Option<T>> = Vec::new();
        let mut k: usize = 0;
        while k < N
            invariant
                k <= N,
                buffer@.len() == k,
                forall|i: int| 0 <= i < k ==> (#[trigger] buffer@[i]) is None,
            decreases N - k,
        {
            buffer.push(None);
            k = k + 1;
        }
        FixedQueue { buffer, head: 0 }
    }

    /// Writes `value` into the next slot, the oldest one once all are full.
    pub fn add(&mut self, value: T)
        requires
            old(self).wf(),
            N > 0,
        ensures
            final(self).wf(),
            final(self).buffer@ == old(self).buffer@.update(old(self).head as int, Some(value)),
            final(self).head == (old(self).head + 1) % (N as int),
    {
        self.buffer.set(self.head, Some(value));
        self.head = (self.head + 1) % N;
    }

    /// The values in the slots, slot by slot.
    pub fn values(&self) -> (v: Vec<Option<T>>)
        ensures
            v@ == self.buffer@,
    {
        let mut v: Vec<Option<T>> = Vec::new();
        let mut k: usize = 0;
        while k < self.buffer.len()
            invariant
                k <= self.buffer@.len(),
                v@ == self.buffer@.take(k as int),
            decreases self.buffer@.len() - k,
        {
            v.push(self.buffer[k]);
            k = k + 1;
            assert(v@ =~= self.buffer@.take(k as int));
        }
        assert(self.buffer@.take(k as int) =~= self.buffer@);
        v
    }
}

/// A queue keeps the latest values: starting empty and adding the values
/// `vs` in turn, slot `i` holds the last value added at a position that is
/// `i` modulo `n`, and the next slot to write is the count modulo `n`. So
/// once `n` values were added, the slots hold exactly the last `n` of them.
pub proof fn lemma_keeps_latest<T>(
    buffer: Seq<Option<T>>,
    head: int,
    vs: Seq<T>,
    n: nat,
    v: T,
)
    requires
        n > 0,
        buffer.len() == n,
        head == (vs.len() as int) % (n as int),
        forall|i: int| 0 <= i < n ==> #[trigger] buffer[i] == slot_after(vs, n, i),
    ensures
        (head + 1) % (n as int) == (vs.push(v).len() as int) % (n as int),
        forall|i: int|
            0 <= i < n ==> #[trigger] buffer.update(head, Some(v))[i] == slot_after(
                vs.push(v),
                n,
                i,
            ),
{
    let m = vs.len() as int;
    assert((head + 1) % (n as int) == (m + 1) % (n as int)) by (nonlinear_arith)
        requires
            head == m % (n as int),
            n > 0,
            m >= 0,
    ;
    assert(vs.push(v).drop_last() =~= vs);
    assert forall|i: int| 0 <= i < n implies #[trigger] buffer.update(head, Some(v))[i]
        == slot_after(vs.push(v), n, i) by {
        assert(vs.push(v).last() == v);
    }
}

} // verus!
