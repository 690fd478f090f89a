//! The NLMS echo canceller: filter state, its mathematical model, and the
//! per-block pipeline.
//!
//! All arithmetic is exact integer arithmetic. A tap weight `w` is stored as
//! the integer `w * TAP_ONE`; the echo estimate is in the same units, so that
//! `capture * TAP_ONE - estimate` is the residual before it is narrowed to a
//! sample. The step size `mu` is stored as `mu * MU_ONE`, and the energy in
//! thousandths of a squared sample (`ENERGY_ONE`). Taps saturate at
//! `TAP_LIMIT` and the estimate at `ESTIMATE_LIMIT`, far beyond any sample.
use crate::ring::RingBuffer;
use vstd::arithmetic::div_mod::lemma_div_is_ordered_by_denominator;
use vstd::prelude::*;

verus! {

/// Fixed-point unit of a tap weight and of the echo estimate.
pub const TAP_ONE: i128 = 4294967296;

/// Largest magnitude of a stored tap (a weight of 32768).
pub const TAP_LIMIT: i64 = 140737488355328;

/// Fixed-point unit of the step size.
pub const MU_ONE: i128 = 65536;

/// Fixed-point unit of the energy and of its floor: one squared sample is
/// `ENERGY_ONE`.
pub const ENERGY_ONE: u128 = 1000;

/// Energy floor used by [`NlmsCanceller::new`]: 1e-3 squared samples.
pub const DEFAULT_EPSILON: u32 = 1;

/// Bound on `|tap * sample|` for one stored tap and one sample.
pub const TERM_BOUND: i128 = 4611686018427387904;

/// Largest magnitude of an echo estimate (2^36 samples); beyond it the
/// estimate saturates.
pub const ESTIMATE_LIMIT: i128 = 295147905179352825856;

/// Bound on the magnitude of a residual before narrowing:
/// `ESTIMATE_LIMIT + 32768 * TAP_ONE`.
pub const ERROR_BOUND: i128 = 295148045916841181184;

/// Why a canceller could not be built or a block could not be processed.
#[derive(Debug, Clone, Copy, PartialEq, Eq, Structural)]
pub enum AecError {
    /// The tap length is zero.
    InvalidTapLength,
    /// The energy floor is zero.
    InvalidEpsilon,
    /// Render, capture and output blocks differ in length.
    LengthMismatch,
    /// The blocks are empty.
    EmptyBlock,
}

pub open spec fn clamp(v: int, lo: int, hi: int) -> int {
    if v < lo {
        lo
    } else if v > hi {
        hi
    } else {
        v
    }
}

/// Integer division rounding toward zero, for a positive divisor.
pub open spec fn div_trunc(n: int, d: int) -> int {
    if n >= 0 {
        n / d
    } else {
        -((-n) / d)
    }
}

/// `sum(taps[j] * recent[j])` over the first `k` lags.
pub open spec fn dot(taps: Seq<i64>, recent: Seq<i16>, k: int) -> int
    decreases k,
{
    if k <= 0 {
        0
    } else {
        dot(taps, recent, k - 1) + taps[k - 1] * recent[k - 1]
    }
}

/// Sum of the squares of the samples.
pub open spec fn sum_sq(s: Seq<i16>) -> int
    decreases s.len(),
{
    if s.len() == 0 {
        0
    } else {
        sum_sq(s.drop_last()) + s.last() * s.last()
    }
}

/// The residual of capture sample `c` against an estimate, in estimate units.
pub open spec fn error_of(c: i16, estimate: int) -> int {
    c * TAP_ONE - estimate
}

/// The residual narrowed to a sample: rounded toward zero, then saturated.
pub open spec fn residual_sample(c: i16, estimate: int) -> i16 {
    clamp(div_trunc(error_of(c, estimate), TAP_ONE as int), i16::MIN as int, i16::MAX as int) as i16
}

/// The state of a canceller, with the samples of its ring listed by lag.
pub ghost struct FilterModel {
    pub taps: Seq<i64>,
    /// `recent[k]` is the render sample seen `k + 1` samples ago.
    pub recent: Seq<i16>,
    pub energy: int,
    pub mu: int,
    pub epsilon: int,
}

impl FilterModel {
    pub open spec fn wf(self) -> bool {
        &&& 0 < self.taps.len() <= usize::MAX
        &&& self.recent.len() == self.taps.len()
        &&& forall|k: int|
            0 <= k < self.taps.len() ==> -TAP_LIMIT <= #[trigger] self.taps[k] <= TAP_LIMIT
        &&& 0 <= self.mu <= u32::MAX
        &&& 1 <= self.epsilon <= u32::MAX
        &&& self.epsilon <= self.energy
        &&& ENERGY_ONE * sum_sq(self.recent) <= self.energy <= ENERGY_ONE * sum_sq(self.recent)
            + self.epsilon
    }

    /// A filter of `n` zero taps that has seen only silence.
    pub open spec fn fresh(n: nat, mu: int, epsilon: int) -> FilterModel {
        FilterModel {
            taps: Seq::new(n, |k: int| 0i64),
            recent: Seq::new(n, |k: int| 0i16),
            energy: epsilon,
            mu,
            epsilon,
        }
    }

    /// Takes in render sample `x`: it becomes lag 1, the oldest sample leaves,
    /// and the energy follows, floored at `epsilon`.
    pub open spec fn ingest(self, x: i16) -> FilterModel {
        let gone = self.recent.last();
        let e = self.energy + ENERGY_ONE * (x * x - gone * gone);
        FilterModel {
            recent: seq![x] + self.recent.take(self.recent.len() - 1),
            energy: if e < self.epsilon { self.epsilon } else { e },
            ..self
        }
    }

    /// The echo estimate: `sum(taps[k] * recent[k])`, saturated at
    /// `ESTIMATE_LIMIT`.
    pub open spec fn estimate(self) -> int {
        clamp(
            dot(self.taps, self.recent, self.taps.len() as int),
            -ESTIMATE_LIMIT as int,
            ESTIMATE_LIMIT as int,
        )
    }

    /// The NLMS correction of the tap facing sample `x` for residual `err`:
    /// `mu * err * x / (energy + epsilon)`, rounded toward zero.
    pub open spec fn tap_delta(self, err: int, x: i16) -> int {
        div_trunc(self.mu * err * x * ENERGY_ONE, MU_ONE * (self.energy + self.epsilon))
    }

    /// One NLMS update of every tap, each saturated at `TAP_LIMIT`.
    pub open spec fn adapt(self, err: int) -> FilterModel {
        FilterModel {
            taps: Seq::new(
                self.taps.len(),
                |k: int|
                    clamp(
                        self.taps[k] + self.tap_delta(err, self.recent[k]),
                        -TAP_LIMIT as int,
                        TAP_LIMIT as int,
                    ) as i64,
            ),
            ..self
        }
    }

    /// The state after one render/capture pair.
    pub open spec fn step(self, r: i16, c: i16, adapt: bool) -> FilterModel {
        let m = self.ingest(r);
        if adapt {
            m.adapt(error_of(c, m.estimate()))
        } else {
            m
        }
    }

    /// The output sample for one render/capture pair.
    pub open spec fn step_output(self, r: i16, c: i16) -> i16 {
        residual_sample(c, self.ingest(r).estimate())
    }
}

/// The state after a sequence of render/capture pairs.
pub open spec fn state_after(m: FilterModel, render: Seq<i16>, capture: Seq<i16>, adapt: bool) -> FilterModel
    decreases render.len(),
{
    if render.len() == 0 {
        m
    } else {
        state_after(m, render.drop_last(), capture.drop_last(), adapt).step(
            render.last(),
            capture.last(),
            adapt,
        )
    }
}

/// The output block for a sequence of render/capture pairs.
pub open spec fn block_output(
    m: FilterModel,
    render: Seq<i16>,
    capture: Seq<i16>,
    adapt: bool,
) -> Seq<i16> {
    Seq::new(
        render.len(),
        |i: int| state_after(m, render.take(i), capture.take(i), adapt).step_output(render[i], capture[i]),
    )
}

pub proof fn lemma_sum_sq_bounds(s: Seq<i16>)
    ensures
        0 <= sum_sq(s) <= s.len() * 1073741824,
        s.len() > 0 ==> s.last() * s.last() <= sum_sq(s),
    decreases s.len(),
{
    if s.len() > 0 {
        lemma_sum_sq_bounds(s.drop_last());
        let x = s.last();
        assert(0 <= x * x <= 1073741824) by (nonlinear_arith)
            requires
                -32768 <= x <= 32767,
        ;
    }
}

pub proof fn lemma_sum_sq_prepend(x: i16, t: Seq<i16>)
    ensures
        sum_sq(seq![x] + t) == x * x + sum_sq(t),
    decreases t.len(),
{
    let s = seq![x] + t;
    if t.len() > 0 {
        assert(s.drop_last() =~= seq![x] + t.drop_last());
        assert(s.last() == t.last());
        lemma_sum_sq_prepend(x, t.drop_last());
        assert(sum_sq(s) == sum_sq(s.drop_last()) + s.last() * s.last());
    } else {
        assert(s.drop_last() =~= Seq::<i16>::empty());
        assert(sum_sq(s) == sum_sq(s.drop_last()) + s.last() * s.last());
        assert(sum_sq(t) == 0);
    }
}

/// Ingesting a sample keeps a well-formed model well-formed.
pub proof fn lemma_ingest_wf(m: FilterModel, x: i16)
    requires
        m.wf(),
    ensures
        m.ingest(x).wf(),
        m.ingest(x).taps == m.taps,
        m.ingest(x).recent.len() == m.recent.len(),
        m.energy + ENERGY_ONE * (x * x - m.recent.last() * m.recent.last()) >= 0,
{
    let n = m.recent.len() as int;
    let t = m.recent.take(n - 1);
    assert(m.recent.drop_last() =~= t);
    assert(sum_sq(m.recent) == sum_sq(t) + m.recent.last() * m.recent.last());
    lemma_sum_sq_prepend(x, t);
    lemma_sum_sq_bounds(t);
    lemma_sum_sq_bounds(seq![x] + t);
}

pub proof fn lemma_dot_bound(taps: Seq<i64>, recent: Seq<i16>, k: int)
    requires
        0 <= k <= taps.len(),
        k <= recent.len(),
        forall|j: int| 0 <= j < taps.len() ==> -TAP_LIMIT <= #[trigger] taps[j] <= TAP_LIMIT,
    ensures
        -k * TERM_BOUND <= dot(taps, recent, k) <= k * TERM_BOUND,
    decreases k,
{
    if k > 0 {
        lemma_dot_bound(taps, recent, k - 1);
        let t = taps[k - 1];
        let x = recent[k - 1];
        assert(-TERM_BOUND <= t * x <= TERM_BOUND) by (nonlinear_arith)
            requires
                -TAP_LIMIT <= t <= TAP_LIMIT,
                -32768 <= x <= 32767,
        ;
    }
}

/// An update keeps a well-formed model well-formed.
pub proof fn lemma_adapt_wf(m: FilterModel, err: int)
    requires
        m.wf(),
    ensures
        m.adapt(err).wf(),
        m.adapt(err).recent == m.recent,
{
}

/// One step keeps a well-formed model well-formed.
pub proof fn lemma_step_wf(m: FilterModel, r: i16, c: i16, adapt: bool)
    requires
        m.wf(),
    ensures
        m.step(r, c, adapt).wf(),
{
    lemma_ingest_wf(m, r);
    lemma_adapt_wf(m.ingest(r), error_of(c, m.ingest(r).estimate()));
}

/// Running over any input keeps a well-formed model well-formed.
pub proof fn lemma_state_after_wf(m: FilterModel, render: Seq<i16>, capture: Seq<i16>, adapt: bool)
    requires
        m.wf(),
    ensures
        state_after(m, render, capture, adapt).wf(),
    decreases render.len(),
{
    if render.len() > 0 {
        lemma_state_after_wf(m, render.drop_last(), capture.drop_last(), adapt);
        lemma_step_wf(
            state_after(m, render.drop_last(), capture.drop_last(), adapt),
            render.last(),
            capture.last(),
            adapt,
        );
    }
}

/// Rounding toward zero never grows a magnitude.
pub proof fn lemma_div_trunc_bound(n: int, d: int)
    requires
        d >= 1,
    ensures
        n >= 0 ==> 0 <= div_trunc(n, d) <= n,
        n < 0 ==> n <= div_trunc(n, d) <= 0,
{
    if n >= 0 {
        lemma_div_is_ordered_by_denominator(n, 1, d);
    } else {
        lemma_div_is_ordered_by_denominator(-n, 1, d);
    }
}

/// `div_trunc` computed on machine integers.
fn div_trunc_exec(n: i128, d: i128) -> (q: i128)
    requires
        d >= 1,
        n > i128::MIN,
    ensures
        q == div_trunc(n as int, d as int),
{
    proof {
        lemma_div_trunc_bound(n as int, d as int);
    }
    if n >= 0 {
        n / d
    } else {
        -((-n) / d)
    }
}

/// Narrows a residual to an output sample, saturating at the sample range.
fn narrow_residual(c: i16, estimate: i128) -> (r: i16)
    requires
        -ESTIMATE_LIMIT <= estimate <= ESTIMATE_LIMIT,
    ensures
        r == residual_sample(c, estimate as int),
{
    let err = (c as i128) * TAP_ONE - estimate;
    let q = div_trunc_exec(err, TAP_ONE);
    if q < i16::MIN as i128 {
        i16::MIN
    } else if q > i16::MAX as i128 {
        i16::MAX
    } else {
        q as i16
    }
}


/// An NLMS echo canceller: tap weights, the ring of recent render samples,
/// and the running energy of that ring.
pub struct NlmsCanceller {
    taps: Vec<i64>,
    ring: RingBuffer,
    energy: u128,
    mu: u32,
    epsilon: u32,
}

impl View for NlmsCanceller {
    type V = FilterModel;

    closed spec fn view(&self) -> FilterModel {
        FilterModel {
            taps: self.taps@,
            recent: self.ring.recent(),
            energy: self.energy as int,
            mu: self.mu as int,
            epsilon: self.epsilon as int,
        }
    }
}

impl NlmsCanceller {
    /// The canceller's invariant: its model is well formed and the ring holds
    /// one sample per tap.
    pub closed spec fn wf(&self) -> bool {
        &&& self@.wf()
        &&& self.ring.wf()
        &&& self.ring.capacity() == self.taps@.len()
    }

    /// A well-formed canceller has a well-formed model, so the laws stated over
    /// models apply to it.
    pub proof fn lemma_model_wf(&self)
        requires
            self.wf(),
        ensures
            self@.wf(),
    {
    }

    /// Creates a canceller of `tap_len` zero taps with step size `mu / MU_ONE`
    /// and the default energy floor.
    pub fn new(tap_len: usize, mu: u32) -> (r: Result<NlmsCanceller, AecError>)
        ensures
            r is Ok <==> tap_len > 0,
            tap_len == 0 ==> r == Err::<NlmsCanceller, AecError>(AecError::InvalidTapLength),
            r matches Ok(c) ==> c.wf() && c@.wf() && c@ == FilterModel::fresh(
                tap_len as nat,
                mu as int,
                DEFAULT_EPSILON as int,
            ),
    {
        NlmsCanceller::with_epsilon(tap_len, mu, DEFAULT_EPSILON)
    }

    /// Creates a canceller of `tap_len` zero taps with step size `mu / MU_ONE`
    /// and energy floor `epsilon / ENERGY_ONE`.
    pub fn with_epsilon(tap_len: usize, mu: u32, epsilon: u32) -> (r: Result<
        NlmsCanceller,
        AecError,
    >)
        ensures
            r is Ok <==> (tap_len > 0 && epsilon > 0),
            tap_len == 0 ==> r == Err::<NlmsCanceller, AecError>(AecError::InvalidTapLength),
            (tap_len > 0 && epsilon == 0) ==> r == Err::<NlmsCanceller, AecError>(
                AecError::InvalidEpsilon,
            ),
            r matches Ok(c) ==> c.wf() && c@.wf() && c@ == FilterModel::fresh(
                tap_len as nat,
                mu as int,
                epsilon as int,
            ),
    {
        if tap_len == 0 {
            return Err(AecError::InvalidTapLength);
        }
        if epsilon == 0 {
            return Err(AecError::InvalidEpsilon);
        }
        let c = NlmsCanceller {
            taps: vec![0i64; tap_len],
            ring: RingBuffer::new(tap_len),
            energy: epsilon as u128,
            mu,
            epsilon,
        };
        assert(c@.taps =~= FilterModel::fresh(tap_len as nat, mu as int, epsilon as int).taps);
        assert(sum_sq(c@.recent) == 0) by {
            lemma_sum_sq_zero(c@.recent);
        }
        Ok(c)
    }

    /// Takes in one render sample: pushes it into the ring and updates the
    /// energy, floored at `epsilon`.
    fn ingest(&mut self, x: i16)
        requires
            old(self).wf(),
        ensures
            final(self).wf(),
            final(self)@ == old(self)@.ingest(x),
    {
        proof {
            lemma_ingest_wf(self@, x);
            lemma_sum_sq_bounds(self@.recent);
        }
        let gone = self.ring.push(x);
        let xx = square(x) as u128 * ENERGY_ONE;
        let gg = square(gone) as u128 * ENERGY_ONE;
        let e = self.energy + xx - gg;
        self.energy = if e < self.epsilon as u128 { self.epsilon as u128 } else { e };
    }

    /// The echo estimate for the samples now in the ring, in `TAP_ONE` units,
    /// saturated at `ESTIMATE_LIMIT`.
    pub fn estimate_echo(&self) -> (r: i128)
        requires
            self.wf(),
        ensures
            r == self@.estimate(),
            -ESTIMATE_LIMIT <= r <= ESTIMATE_LIMIT,
    {
        let n = self.taps.len();
        let mut acc: i128 = 0;
        let mut k: usize = 0;
        while k < n
            invariant
                self.wf(),
                n == self.taps@.len(),
                k <= n,
                acc == dot(self.taps@, self@.recent, k as int),
            decreases n - k,
        {
            proof {
                lemma_dot_bound(self.taps@, self@.recent, k as int);
            }
            let t = self.taps[k];
            let x = self.ring.lag(k);
            assert(-TERM_BOUND <= t * x <= TERM_BOUND) by (nonlinear_arith)
                requires
                    -TAP_LIMIT <= t <= TAP_LIMIT,
                    -32768 <= x <= 32767,
            ;
            acc = acc + (t as i128) * (x as i128);
            k = k + 1;
        }
        if acc < -ESTIMATE_LIMIT {
            -ESTIMATE_LIMIT
        } else if acc > ESTIMATE_LIMIT {
            ESTIMATE_LIMIT
        } else {
            acc
        }
    }

    /// Cancels the echo of `render` in `capture` sample by sample, writing each
    /// residual into `output`; with `adapt` the taps also learn from each
    /// residual. Blocks of different lengths, or empty ones, are refused
    /// before anything changes.
    pub fn process_block(
        &mut self,
        render: &[i16],
        capture: &[i16],
        output: &mut [i16],
        adapt: bool,
    ) -> (r: Result<(), AecError>)
        requires
            old(self).wf(),
        ensures
            final(self).wf(),
            final(self)@.wf(),
            r is Ok <==> (render@.len() == capture@.len() && capture@.len() == old(output)@.len()
                && render@.len() > 0),
            !(render@.len() == capture@.len() && capture@.len() == old(output)@.len()) ==> r
                == Err::<(), AecError>(AecError::LengthMismatch),
            (render@.len() == capture@.len() && capture@.len() == old(output)@.len()
                && render@.len() == 0) ==> r == Err::<(), AecError>(AecError::EmptyBlock),
            r is Err ==> *final(self) == *old(self) && final(output)@ == old(output)@,
            r is Ok ==> final(self)@ == state_after(old(self)@, render@, capture@, adapt),
            r is Ok ==> final(output)@ == block_output(old(self)@, render@, capture@, adapt),
    {
        if render.len() != capture.len() || capture.len() != output.len() {
            return Err(AecError::LengthMismatch);
        }
        if render.len() == 0 {
            return Err(AecError::EmptyBlock);
        }
        let ghost m0 = self@;
        let n = render.len();
        let mut i: usize = 0;
        while i < n
            invariant
                self.wf(),
                n == render@.len(),
                n == capture@.len(),
                n == output@.len(),
                i <= n,
                self@ == state_after(m0, render@.take(i as int), capture@.take(i as int), adapt),
                forall|j: int|
                    0 <= j < i ==> #[trigger] output@[j] == block_output(
                        m0,
                        render@,
                        capture@,
                        adapt,
                    )[j],
            decreases n - i,
        {
            self.ingest(render[i]);
            let est = self.estimate_echo();
            output[i] = narrow_residual(capture[i], est);
            if adapt {
                let err = capture[i] as i128 * TAP_ONE - est;
                self.update_taps(err);
            }
            proof {
                assert(render@.take(i + 1).drop_last() =~= render@.take(i as int));
                assert(capture@.take(i + 1).drop_last() =~= capture@.take(i as int));
            }
            i = i + 1;
        }
        assert(render@.take(n as int) =~= render@);
        assert(capture@.take(n as int) =~= capture@);
        Ok(())
    }

    /// The tap weights, in `TAP_ONE` units.
    pub fn taps(&self) -> (r: &[i64])
        ensures
            r@ == self@.taps,
    {
        self.taps.as_slice()
    }

    /// The render samples held, by lag: element `k` was seen `k + 1` samples ago.
    pub fn history(&self) -> (r: Vec<i16>)
        requires
            self.wf(),
        ensures
            r@ == self@.recent,
    {
        let n = self.taps.len();
        let mut out: Vec<i16> = Vec::with_capacity(n);
        let mut k: usize = 0;
        while k < n
            invariant
                self.wf(),
                n == self.taps@.len(),
                k <= n,
                out@ == self@.recent.take(k as int),
            decreases n - k,
        {
            out.push(self.ring.lag(k));
            assert(out@ =~= self@.recent.take(k + 1));
            k = k + 1;
        }
        assert(self@.recent.take(n as int) =~= self@.recent);
        out
    }

    /// The running energy of the held render samples, in `ENERGY_ONE` units.
    pub fn energy(&self) -> (r: u128)
        requires
            self.wf(),
        ensures
            r == self@.energy,
            r >= self@.epsilon,
    {
        self.energy
    }

    /// The energy floor, in `ENERGY_ONE` units.
    pub fn epsilon(&self) -> (r: u32)
        ensures
            r == self@.epsilon,
    {
        self.epsilon
    }

    /// Moves every tap one NLMS step along the residual `err`.
    fn update_taps(&mut self, err: i128)
        requires
            old(self).wf(),
            -ERROR_BOUND <= err <= ERROR_BOUND,
        ensures
            final(self).wf(),
            final(self)@ == old(self)@.adapt(err as int),
    {
        let ghost m = self@;
        let n = self.taps.len();
        proof {
            lemma_sum_sq_bounds(m.recent);
        }
        let denom: i128 = MU_ONE * (self.energy as i128 + self.epsilon as i128);
        let mut k: usize = 0;
        while k < n
            invariant
                m.wf(),
                self.ring.wf(),
                self.ring.capacity() == n,
                self.ring.recent() == m.recent,
                self.energy == m.energy,
                self.epsilon == m.epsilon,
                self.mu == m.mu,
                -ERROR_BOUND <= err <= ERROR_BOUND,
                denom == MU_ONE * (m.energy + m.epsilon),
                n == self.taps@.len(),
                n == m.taps.len(),
                k <= n,
                forall|j: int| 0 <= j < k ==> #[trigger] self.taps@[j] == m.adapt(err as int).taps[j],
                forall|j: int| k <= j < n ==> #[trigger] self.taps@[j] == m.taps[j],
            decreases n - k,
        {
            let x = self.ring.lag(k);
            let mu = self.mu as i128;
            assert(-ERROR_BOUND * 4294967295 <= mu * err <= ERROR_BOUND * 4294967295)
                by (nonlinear_arith)
                requires
                    0 <= mu <= 4294967295,
                    -ERROR_BOUND <= err <= ERROR_BOUND,
            ;
            let me = mu * err;
            assert(-ERROR_BOUND * 4294967295 * 32768 <= me * x <= ERROR_BOUND * 4294967295 * 32768)
                by (nonlinear_arith)
                requires
                    -ERROR_BOUND * 4294967295 <= me <= ERROR_BOUND * 4294967295,
                    -32768 <= x <= 32767,
            ;
            let mex = me * (x as i128);
            let num = mex * (ENERGY_ONE as i128);
            assert(num == m.mu * (err as int) * x * ENERGY_ONE) by (nonlinear_arith)
                requires
                    num == mex * 1000,
                    mex == me * x,
                    me == mu * err,
                    mu == m.mu,
                    ENERGY_ONE == 1000,
            ;
            let d = div_trunc_exec(num, denom);
            proof {
                lemma_div_trunc_bound(num as int, denom as int);
            }
            let v = self.taps[k] as i128 + d;
            let t = if v < -(TAP_LIMIT as i128) {
                -TAP_LIMIT
            } else if v > TAP_LIMIT as i128 {
                TAP_LIMIT
            } else {
                v as i64
            };
            self.taps.set(k, t);
            k = k + 1;
        }
        assert(self.taps@ =~= m.adapt(err as int).taps);
    }
}

/// The square of a sample.
pub(crate) fn square(x: i16) -> (r: u64)
    ensures
        r == x * x,
        r <= 1073741824,
{
    let v = x as i64;
    assert(0 <= v * v <= 1073741824) by (nonlinear_arith)
        requires
            -32768 <= v <= 32767,
    ;
    (v * v) as u64
}

/// A run of zero samples has no energy.
pub proof fn lemma_sum_sq_zero(s: Seq<i16>)
    requires
        forall|k: int| 0 <= k < s.len() ==> s[k] == 0,
    ensures
        sum_sq(s) == 0,
    decreases s.len(),
{
    if s.len() > 0 {
        lemma_sum_sq_zero(s.drop_last());
    }
}

} // verus!
