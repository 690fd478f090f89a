//! Laws of the canceller, stated over its model and proved.
use crate::nlms::{
    block_output, dot, error_of, lemma_state_after_wf, residual_sample, state_after,
    FilterModel, TAP_LIMIT, TAP_ONE, TERM_BOUND,
};
use vstd::arithmetic::div_mod::{lemma_div_is_ordered, lemma_div_multiples_vanish};
use vstd::prelude::*;

verus! {

/// A run leaves the step size, the floor and the tap count as they were.
pub proof fn lemma_state_after_frame(m: FilterModel, render: Seq<i16>, capture: Seq<i16>, adapt: bool)
    requires
        m.wf(),
    ensures
        state_after(m, render, capture, adapt).mu == m.mu,
        state_after(m, render, capture, adapt).epsilon == m.epsilon,
        state_after(m, render, capture, adapt).taps.len() == m.taps.len(),
    decreases render.len(),
{
    if render.len() > 0 {
        lemma_state_after_frame(m, render.drop_last(), capture.drop_last(), adapt);
        lemma_state_after_wf(m, render.drop_last(), capture.drop_last(), adapt);
    }
}

/// The energy never falls below the floor `epsilon`, whatever the input.
pub proof fn lemma_energy_floor(m: FilterModel, render: Seq<i16>, capture: Seq<i16>, adapt: bool)
    requires
        m.wf(),
    ensures
        state_after(m, render, capture, adapt).energy >= m.epsilon,
{
    lemma_state_after_wf(m, render, capture, adapt);
    lemma_state_after_frame(m, render, capture, adapt);
}

proof fn lemma_dot_zero_taps(taps: Seq<i64>, recent: Seq<i16>, k: int)
    requires
        0 <= k <= taps.len(),
        forall|j: int| 0 <= j < taps.len() ==> #[trigger] taps[j] == 0,
    ensures
        dot(taps, recent, k) == 0,
    decreases k,
{
    if k > 0 {
        lemma_dot_zero_taps(taps, recent, k - 1);
    }
}

/// A residual with no estimate is the capture sample itself.
proof fn lemma_residual_of_zero_estimate(c: i16)
    ensures
        residual_sample(c, 0) == c,
{
    let t = TAP_ONE as int;
    if c >= 0 {
        lemma_div_multiples_vanish(c as int, t);
        assert(c * t == t * c);
    } else {
        lemma_div_multiples_vanish(-c, t);
        assert((-c) * t == t * (-c));
        assert(-(c * t) == (-c) * t);
    }
}

/// Zero taps with a zero step size stay zero, whatever the input.
proof fn lemma_state_after_zero_step(m: FilterModel, render: Seq<i16>, capture: Seq<i16>, adapt: bool)
    requires
        m.wf(),
        m.mu == 0,
        forall|k: int| 0 <= k < m.taps.len() ==> #[trigger] m.taps[k] == 0,
    ensures
        state_after(m, render, capture, adapt).taps == m.taps,
        state_after(m, render, capture, adapt).mu == 0,
        state_after(m, render, capture, adapt).wf(),
    decreases render.len(),
{
    lemma_state_after_wf(m, render, capture, adapt);
    if render.len() > 0 {
        let p = state_after(m, render.drop_last(), capture.drop_last(), adapt);
        lemma_state_after_zero_step(m, render.drop_last(), capture.drop_last(), adapt);
        let q = p.ingest(render.last());
        let err = error_of(capture.last(), q.estimate());
        assert forall|k: int| 0 <= k < q.taps.len() implies q.tap_delta(err, q.recent[k]) == 0 by {
            assert(q.mu * err * q.recent[k] == 0);
        }
        if adapt {
            assert(q.adapt(err).taps =~= m.taps);
        }
    }
}

/// With a zero step size, zero taps stay zero and every output block equals
/// its capture block: the estimate is always zero.
pub proof fn lemma_zero_step_size_passes_capture(
    m: FilterModel,
    render: Seq<i16>,
    capture: Seq<i16>,
    adapt: bool,
)
    requires
        m.wf(),
        m.mu == 0,
        forall|k: int| 0 <= k < m.taps.len() ==> #[trigger] m.taps[k] == 0,
        render.len() == capture.len(),
    ensures
        forall|k: int|
            0 <= k < m.taps.len() ==> #[trigger] state_after(m, render, capture, adapt).taps[k] == 0,
        block_output(m, render, capture, adapt) == capture,
{
    lemma_state_after_zero_step(m, render, capture, adapt);
    assert forall|i: int| 0 <= i < render.len() implies #[trigger] block_output(
        m,
        render,
        capture,
        adapt,
    )[i] == capture[i] by {
        let p = state_after(m, render.take(i), capture.take(i), adapt);
        lemma_state_after_zero_step(m, render.take(i), capture.take(i), adapt);
        let q = p.ingest(render[i]);
        lemma_dot_zero_taps(q.taps, q.recent, q.taps.len() as int);
        lemma_residual_of_zero_estimate(capture[i]);
    }
    assert(block_output(m, render, capture, adapt) =~= capture);
}

proof fn lemma_dot_single_lag(taps: Seq<i64>, recent: Seq<i16>, k: int)
    requires
        1 <= k <= taps.len(),
        k <= recent.len(),
        forall|j: int| 1 <= j < recent.len() ==> #[trigger] recent[j] == 0,
    ensures
        dot(taps, recent, k) == taps[0] * recent[0],
    decreases k,
{
    if k > 1 {
        lemma_dot_single_lag(taps, recent, k - 1);
        assert(taps[k - 1] * recent[k - 1] == 0);
    } else {
        assert(dot(taps, recent, 0) == 0);
    }
}

/// With every tap equal to `w` and a silent ring, taking in the render sample
/// `r` gives the estimate `w * r`: tap 0 faces the sample at lag 1.
pub proof fn lemma_fixed_lag(m: FilterModel, w: i64, r: i16)
    requires
        m.wf(),
        forall|k: int| 0 <= k < m.taps.len() ==> #[trigger] m.taps[k] == w,
        forall|k: int| 0 <= k < m.recent.len() ==> #[trigger] m.recent[k] == 0,
    ensures
        m.ingest(r).estimate() == w * r,
{
    let q = m.ingest(r);
    assert(q.recent[0] == r);
    assert forall|j: int| 1 <= j < q.recent.len() implies #[trigger] q.recent[j] == 0 by {
        assert(q.recent[j] == m.recent[j - 1]);
    }
    lemma_dot_single_lag(q.taps, q.recent, q.taps.len() as int);
    assert(m.taps[0] == w);
    assert(-TERM_BOUND <= w * r <= TERM_BOUND) by (nonlinear_arith)
        requires
            -TAP_LIMIT <= w <= TAP_LIMIT,
            -32768 <= r <= 32767,
    ;
}

/// A residual above the largest sample comes out as the largest sample, and
/// one below the smallest as the smallest: the output saturates, never wraps.
pub proof fn lemma_residual_saturates(c: i16, estimate: int)
    ensures
        error_of(c, estimate) > i16::MAX * TAP_ONE ==> residual_sample(c, estimate) == i16::MAX,
        error_of(c, estimate) < i16::MIN * TAP_ONE ==> residual_sample(c, estimate) == i16::MIN,
{
    let t = TAP_ONE as int;
    let e = error_of(c, estimate);
    if e > 32767 * t {
        lemma_div_multiples_vanish(32767, t);
        assert(32767 * t == t * 32767);
        lemma_div_is_ordered(32767 * t, e, t);
    }
    if e < -32768 * t {
        lemma_div_multiples_vanish(32768, t);
        assert(32768 * t == t * 32768);
        lemma_div_is_ordered(32768 * t, -e, t);
    }
}

/// Processing two blocks one after the other leaves the same state as
/// processing their concatenation at once.
pub proof fn lemma_block_continuity(
    m: FilterModel,
    r1: Seq<i16>,
    c1: Seq<i16>,
    r2: Seq<i16>,
    c2: Seq<i16>,
    adapt: bool,
)
    requires
        r1.len() == c1.len(),
        r2.len() == c2.len(),
    ensures
        state_after(state_after(m, r1, c1, adapt), r2, c2, adapt) == state_after(m, r1 + r2, c1 + c2, adapt),
    decreases r2.len(),
{
    if r2.len() == 0 {
        assert(r1 + r2 =~= r1);
        assert(c1 + c2 =~= c1);
    } else {
        lemma_block_continuity(m, r1, c1, r2.drop_last(), c2.drop_last(), adapt);
        assert((r1 + r2).drop_last() =~= r1 + r2.drop_last());
        assert((c1 + c2).drop_last() =~= c1 + c2.drop_last());
    }
}

/// The output of the concatenation of two blocks is the output of the first
/// followed by that of the second, taken from where the first left off.
pub proof fn lemma_block_output_continuity(
    m: FilterModel,
    r1: Seq<i16>,
    c1: Seq<i16>,
    r2: Seq<i16>,
    c2: Seq<i16>,
    adapt: bool,
)
    requires
        r1.len() == c1.len(),
        r2.len() == c2.len(),
    ensures
        block_output(m, r1 + r2, c1 + c2, adapt) == block_output(m, r1, c1, adapt)
            + block_output(state_after(m, r1, c1, adapt), r2, c2, adapt),
{
    let whole = block_output(m, r1 + r2, c1 + c2, adapt);
    let parts = block_output(m, r1, c1, adapt) + block_output(state_after(m, r1, c1, adapt), r2, c2, adapt);
    let n1 = r1.len() as int;
    assert forall|i: int| 0 <= i < whole.len() implies whole[i] == parts[i] by {
        if i < n1 {
            assert((r1 + r2).take(i) =~= r1.take(i));
            assert((c1 + c2).take(i) =~= c1.take(i));
        } else {
            assert((r1 + r2).take(i) =~= r1 + r2.take(i - n1));
            assert((c1 + c2).take(i) =~= c1 + c2.take(i - n1));
            lemma_block_continuity(m, r1, c1, r2.take(i - n1), c2.take(i - n1), adapt);
        }
    }
    assert(whole =~= parts);
}


proof fn lemma_dot_zero_recent(taps: Seq<i64>, recent: Seq<i16>, k: int)
    requires
        0 <= k <= recent.len(),
        forall|j: int| 0 <= j < recent.len() ==> #[trigger] recent[j] == 0,
    ensures
        dot(taps, recent, k) == 0,
    decreases k,
{
    if k > 0 {
        lemma_dot_zero_recent(taps, recent, k - 1);
        assert(taps[k - 1] * recent[k - 1] == 0);
    }
}

/// After `k` silent render samples the newest `k` lags of the ring are zero.
proof fn lemma_silent_lags(m: FilterModel, render: Seq<i16>, capture: Seq<i16>, adapt: bool)
    requires
        m.wf(),
        forall|i: int| 0 <= i < render.len() ==> #[trigger] render[i] == 0,
    ensures
        forall|j: int|
            0 <= j < render.len() && j < m.taps.len() ==> #[trigger] state_after(
                m,
                render,
                capture,
                adapt,
            ).recent[j] == 0,
    decreases render.len(),
{
    if render.len() > 0 {
        let r0 = render.drop_last();
        let c0 = capture.drop_last();
        lemma_silent_lags(m, r0, c0, adapt);
        lemma_state_after_wf(m, r0, c0, adapt);
        lemma_state_after_frame(m, r0, c0, adapt);
        let p = state_after(m, r0, c0, adapt);
        let q = p.ingest(render.last());
        assert forall|j: int| 0 <= j < render.len() && j < m.taps.len() implies #[trigger] q.recent[j] == 0 by {
            if j > 0 {
                assert(q.recent[j] == p.recent[j - 1]);
            }
        }
    }
}

/// Once as many silent render samples as there are taps have come in, a
/// silent capture gives silent output: the estimate has nothing left to echo.
pub proof fn lemma_silence_flushes_output(
    m: FilterModel,
    render: Seq<i16>,
    capture: Seq<i16>,
    adapt: bool,
)
    requires
        m.wf(),
        render.len() == capture.len(),
        forall|i: int| 0 <= i < render.len() ==> #[trigger] render[i] == 0,
        forall|i: int| 0 <= i < capture.len() ==> #[trigger] capture[i] == 0,
    ensures
        forall|i: int|
            m.taps.len() - 1 <= i < render.len() ==> #[trigger] block_output(
                m,
                render,
                capture,
                adapt,
            )[i] == 0,
{
    assert forall|i: int| m.taps.len() - 1 <= i < render.len() implies #[trigger] block_output(
        m,
        render,
        capture,
        adapt,
    )[i] == 0 by {
        let r0 = render.take(i);
        let c0 = capture.take(i);
        lemma_silent_lags(m, r0, c0, adapt);
        lemma_state_after_wf(m, r0, c0, adapt);
        lemma_state_after_frame(m, r0, c0, adapt);
        let p = state_after(m, r0, c0, adapt);
        let q = p.ingest(render[i]);
        assert forall|j: int| 0 <= j < q.recent.len() implies #[trigger] q.recent[j] == 0 by {
            if j > 0 {
                assert(q.recent[j] == p.recent[j - 1]);
                assert(p.recent[j - 1] == 0);
            }
        }
        lemma_dot_zero_recent(q.taps, q.recent, q.taps.len() as int);
        assert(capture[i] == 0);
        assert(error_of(capture[i], 0) == 0);
    }
}

} // verus!
