//! The double-talk gate: block levels, and the per-block decision whether the
//! filter may adapt.
use crate::nlms::{lemma_sum_sq_bounds, square, sum_sq};
use vstd::prelude::*;

verus! {

/// Full scale of a level: a level of 1.0 is `LEVEL_ONE`.
pub const LEVEL_ONE: u32 = 65536;

/// The square of `i16::MAX`, the full-scale amplitude.
pub const FULL_SCALE_SQ: u128 = 1073676289;

/// `LEVEL_ONE^2 * sum(s[i]^2)`: with [`level_den`], the square of a block's
/// level before it is capped is `level_num(s) / level_den(s)`.
pub open spec fn level_num(s: Seq<i16>) -> int {
    sum_sq(s) * 4294967296
}

/// `len(s) * i16::MAX^2`.
pub open spec fn level_den(s: Seq<i16>) -> int {
    s.len() * FULL_SCALE_SQ
}

/// The smallest `r` from `j` on with `r * r * den >= num`, capped at `LEVEL_ONE`:
/// the square root of `num / den`, rounded up.
pub open spec fn capped_ceil_sqrt_from(num: int, den: int, j: int) -> int
    decreases LEVEL_ONE - j,
{
    if j >= LEVEL_ONE {
        LEVEL_ONE as int
    } else if j * j * den >= num {
        j
    } else {
        capped_ceil_sqrt_from(num, den, j + 1)
    }
}

/// The level of a block: its root mean square over `i16::MAX`, clamped to
/// `[0, 1]`, in `LEVEL_ONE` units and rounded up, so that only silence has
/// level zero. An empty block has level zero.
pub open spec fn level(s: Seq<i16>) -> int {
    if s.len() == 0 {
        0
    } else {
        capped_ceil_sqrt_from(level_num(s), level_den(s), 0)
    }
}

proof fn lemma_capped_ceil_sqrt(num: int, den: int, j: int, r: int)
    requires
        0 <= j <= r <= LEVEL_ONE,
        den > 0,
        r == 0 || (r - 1) * (r - 1) * den < num,
        r == LEVEL_ONE || r * r * den >= num,
    ensures
        capped_ceil_sqrt_from(num, den, j) == r,
    decreases LEVEL_ONE - j,
{
    if j < r {
        assert(j * j * den <= (r - 1) * (r - 1) * den) by (nonlinear_arith)
            requires
                0 <= j <= r - 1,
                den > 0,
        ;
        lemma_capped_ceil_sqrt(num, den, j + 1, r);
    }
}

/// A block has no energy exactly when every sample is zero.
pub proof fn lemma_sum_sq_zero_iff(s: Seq<i16>)
    ensures
        sum_sq(s) == 0 <==> forall|i: int| 0 <= i < s.len() ==> s[i] == 0,
    decreases s.len(),
{
    if s.len() > 0 {
        let t = s.drop_last();
        lemma_sum_sq_zero_iff(t);
        lemma_sum_sq_bounds(t);
        let x = s.last();
        assert(x * x >= 0) by (nonlinear_arith);
        assert(x * x == 0 ==> x == 0) by (nonlinear_arith);
        if sum_sq(s) == 0 {
            assert forall|i: int| 0 <= i < s.len() implies s[i] == 0 by {
                if i < t.len() {
                    assert(s[i] == t[i]);
                }
            }
        }
        if forall|i: int| 0 <= i < s.len() ==> s[i] == 0 {
            assert forall|i: int| 0 <= i < t.len() implies t[i] == 0 by {
                assert(s[i] == t[i]);
            }
            assert(x == s[s.len() - 1]);
        }
    }
}

/// The level of a block of samples: its root mean square over `i16::MAX`,
/// clamped to `[0, 1]` and given in `LEVEL_ONE` units, rounded up. Only an
/// empty or silent block has level zero.
pub fn rms_level(samples: &[i16]) -> (r: u32)
    ensures
        r == level(samples@),
        r <= LEVEL_ONE,
        r == 0 <==> (samples@.len() == 0 || forall|i: int|
            0 <= i < samples@.len() ==> samples@[i] == 0),
{
    let n = samples.len();
    if n == 0 {
        return 0;
    }
    let mut acc: u128 = 0;
    let mut i: usize = 0;
    while i < n
        invariant
            n == samples@.len(),
            i <= n,
            acc == sum_sq(samples@.take(i as int)),
            acc <= i * 1073741824,
        decreases n - i,
    {
        proof {
            assert(samples@.take(i + 1).drop_last() =~= samples@.take(i as int));
        }
        acc = acc + square(samples[i]) as u128;
        i = i + 1;
    }
    assert(samples@.take(n as int) =~= samples@);
    proof {
        lemma_sum_sq_zero_iff(samples@);
    }
    let num = acc * 4294967296;
    let den = n as u128 * FULL_SCALE_SQ;
    if num == 0 {
        proof {
            lemma_capped_ceil_sqrt(num as int, den as int, 0, 0);
        }
        return 0;
    }
    let mut lo: u64 = 0;
    let mut hi: u64 = 65536;
    assert(0 * 0 * den == 0) by (nonlinear_arith);
    while hi - lo > 1
        invariant
            lo < hi <= 65536,
            lo * lo * den < num,
            hi == 65536 || hi * hi * den >= num,
            den == n * FULL_SCALE_SQ,
            n > 0,
        decreases hi - lo,
    {
        let mid = lo + (hi - lo) / 2;
        let m128 = mid as u128;
        assert(m128 * m128 <= 4294967296) by (nonlinear_arith)
            requires
                m128 <= 65536,
        ;
        let mm = m128 * m128;
        assert(mm * den <= 4294967296 * 0xffff_ffff_ffff_ffff * FULL_SCALE_SQ) by (nonlinear_arith)
            requires
                mm <= 4294967296,
                den == n * FULL_SCALE_SQ,
                0 < n <= 0xffff_ffff_ffff_ffff,
        ;
        if mm * den >= num {
            hi = mid;
        } else {
            lo = mid;
        }
    }
    proof {
        lemma_capped_ceil_sqrt(num as int, den as int, 0, hi as int);
    }
    hi as u32
}

/// Thresholds of the double-talk gate, both in `LEVEL_ONE` units.
pub struct GateConfig {
    /// The render level must exceed this for the filter to adapt.
    pub min_render_level: u32,
    /// The capture level may be at most this multiple of the render level.
    pub double_talk_ratio: u32,
}

impl GateConfig {
    /// Adaptation is allowed when the render path is loud enough to be a
    /// reference and the capture level is no more than the echo the render
    /// level could explain.
    pub open spec fn allows(self, render_level: int, capture_level: int) -> bool {
        &&& render_level > self.min_render_level
        &&& capture_level * LEVEL_ONE <= render_level * self.double_talk_ratio
    }

    /// Decides from two block levels whether the filter may adapt.
    pub fn should_adapt(&self, render_level: u32, capture_level: u32) -> (r: bool)
        ensures
            r == self.allows(render_level as int, capture_level as int),
    {
        let rl = render_level as u64;
        let ratio = self.double_talk_ratio as u64;
        assert(rl * ratio <= 0xffff_ffff * 0xffff_ffff) by (nonlinear_arith)
            requires
                rl <= 0xffff_ffff,
                ratio <= 0xffff_ffff,
        ;
        let cl = capture_level as u64;
        let one = LEVEL_ONE as u64;
        assert(cl * one <= 0xffff_ffff * 65536) by (nonlinear_arith)
            requires
                cl <= 0xffff_ffff,
                one == 65536,
        ;
        render_level > self.min_render_level && cl * one <= rl * ratio
    }

    /// Decides from a render block and a capture block whether the filter may
    /// adapt while it processes them.
    pub fn adapt_for_blocks(&self, render: &[i16], capture: &[i16]) -> (r: bool)
        ensures
            r == self.allows(level(render@), level(capture@)),
    {
        let render_level = rms_level(render);
        let capture_level = rms_level(capture);
        self.should_adapt(render_level, capture_level)
    }
}

/// A silent render block never lets the filter adapt, whatever the capture
/// level and the double-talk ratio.
pub proof fn lemma_silent_render_blocks_adaptation(g: GateConfig, capture_level: int)
    ensures
        !g.allows(0, capture_level),
{
}

} // verus!
