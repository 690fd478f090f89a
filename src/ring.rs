//! A fixed-capacity ring of the most recent render samples, read by lag.
use vstd::prelude::*;

verus! {

/// Position in a ring of `n` slots, cursor at `pos`, of the sample seen `j + 1`
/// pushes ago; `j == -1` gives the cursor itself.
pub open spec fn lag_index(n: int, pos: int, j: int) -> int {
    if j < pos {
        pos - 1 - j
    } else {
        pos - 1 - j + n
    }
}

/// Steps a ring index back by one, wrapping from the first slot to the last.
pub fn dec_idx(len: usize, idx: usize) -> (r: usize)
    requires
        0 < len,
        idx < len,
    ensures
        r < len,
        r as int == if idx == 0 { len - 1 } else { idx - 1 },
{
    if idx == 0 {
        len - 1
    } else {
        idx - 1
    }
}

/// The last `N` render samples; `history[pos]` is the oldest, next to be replaced.
pub struct RingBuffer {
    pub history: Vec<i16>,
    pub pos: usize,
}

impl RingBuffer {
    pub open spec fn wf(&self) -> bool {
        &&& self.history@.len() > 0
        &&& self.pos < self.history@.len()
    }

    pub open spec fn capacity(&self) -> nat {
        self.history@.len()
    }

    /// The stored samples by lag: element `k` was pushed `k + 1` pushes ago.
    pub open spec fn recent(&self) -> Seq<i16> {
        Seq::new(
            self.history@.len(),
            |k: int| self.history@[lag_index(self.history@.len() as int, self.pos as int, k)],
        )
    }

    /// A ring of `n` zero samples.
    pub fn new(n: usize) -> (r: RingBuffer)
        requires
            n > 0,
        ensures
            r.wf(),
            r.capacity() == n,
            r.recent() == Seq::new(n as nat, |k: int| 0i16),
    {
        let r = RingBuffer { history: vec![0i16; n], pos: 0 };
        assert(r.recent() =~= Seq::new(n as nat, |k: int| 0i16));
        r
    }

    /// Pushes `x` as the newest sample and returns the oldest one, which leaves.
    pub fn push(&mut self, x: i16) -> (evicted: i16)
        requires
            old(self).wf(),
        ensures
            final(self).wf(),
            final(self).capacity() == old(self).capacity(),
            evicted == old(self).recent().last(),
            final(self).recent() == seq![x] + old(self).recent().take(
                old(self).capacity() - 1,
            ),
    {
        let ghost before = self.recent();
        let n = self.history.len();
        let evicted = self.history[self.pos];
        self.history.set(self.pos, x);
        self.pos = if self.pos + 1 == n { 0 } else { self.pos + 1 };
        assert(self.recent() =~= seq![x] + before.take(n - 1));
        evicted
    }

    /// The sample pushed `k + 1` pushes ago.
    pub fn lag(&self, k: usize) -> (r: i16)
        requires
            self.wf(),
            k < self.capacity(),
        ensures
            r == self.recent()[k as int],
    {
        let n = self.history.len();
        let idx = if k < self.pos { self.pos - 1 - k } else { (n - 1 - k) + self.pos };
        self.history[idx]
    }
}

} // verus!
