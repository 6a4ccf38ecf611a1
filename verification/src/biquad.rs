//! Second-order (biquad) IIR sections over fixed-point arithmetic:
//! coefficient design for low-pass, high-pass and band-pass responses, and
//! the one-sample-in, one-sample-out filter step with its delay registers.
//!
//! Coefficients are scaled by `COEFF_ONE`. The phase of the cutoff within
//! one sampling cycle is scaled by `PHASE_ONE`, and the sine and cosine of
//! that phase come from an integer rational approximation (Bhaskara's),
//! exact at phase 0, a quarter turn and a half turn.
use vstd::prelude::*;

verus! {

use crate::arith::{
    div_mag,
    div_toward_zero,
    lemma_div_le,
    lemma_div_mag_bound,
    lemma_div_shrinks,
    lemma_mul_bound,
};
use vstd::arithmetic::div_mod::lemma_div_pos_is_pos;

/// Fixed-point unit for filter coefficients: a coefficient value `v`
/// stands for the real number `v / COEFF_ONE`.
pub const COEFF_ONE: i64 = 65536;

/// Magnitude bound that every designed coefficient respects.
pub const COEFF_LIMIT: i64 = 262144;

/// Fixed-point unit for phase: `PHASE_ONE` is one full sampling cycle.
pub const PHASE_ONE: i64 = 32768;

/// Half a cycle in phase units; cutoffs below Nyquist stay under it.
pub const HALF_PHASE: i64 = 16384;

/// A quarter cycle in phase units.
pub const QUARTER_PHASE: i64 = 8192;

/// Sine of the phase `t` (in `PHASE_ONE` units of a full cycle), scaled by
/// `COEFF_ONE`, for `0 <= t <= HALF_PHASE`: the integer form of
/// Bhaskara's rational approximation `32 u (1 - 2u) / (5 - 8 u (1 - 2u))`
/// with `u = t / PHASE_ONE`.
pub open spec fn sin_q(t: int) -> int {
    let p = t * (PHASE_ONE - 2 * t);
    (32 * p * COEFF_ONE) / (5 * (PHASE_ONE * PHASE_ONE) - 8 * p)
}

/// Cosine of the phase `t`, scaled by `COEFF_ONE`, for
/// `0 <= t <= HALF_PHASE`: the sine shifted by a quarter cycle.
pub open spec fn cos_q(t: int) -> int {
    if t <= QUARTER_PHASE {
        sin_q(QUARTER_PHASE - t)
    } else {
        -sin_q(t - QUARTER_PHASE)
    }
}

/// The product `t * (PHASE_ONE - 2t)` stays within `[0, PHASE_ONE^2 / 8]`
/// on the half-cycle domain.
proof fn lemma_phase_product_range(t: int)
    requires
        0 <= t <= HALF_PHASE,
    ensures
        0 <= t * (PHASE_ONE - 2 * t),
        8 * (t * (PHASE_ONE - 2 * t)) <= PHASE_ONE * PHASE_ONE,
{
    assert(0 <= t * (PHASE_ONE - 2 * t)) by (nonlinear_arith)
        requires
            0 <= t <= HALF_PHASE,
    ;
    assert(8 * (t * (PHASE_ONE - 2 * t)) <= PHASE_ONE * PHASE_ONE) by (nonlinear_arith)
        requires
            0 <= t <= HALF_PHASE,
    ;
}

/// On the half-cycle domain the approximated sine lies in `[0, COEFF_ONE]`.
pub proof fn lemma_sin_q_range(t: int)
    requires
        0 <= t <= HALF_PHASE,
    ensures
        0 <= sin_q(t) <= COEFF_ONE,
{
    lemma_phase_product_range(t);
    let p = t * (PHASE_ONE - 2 * t);
    let denom = 5 * (PHASE_ONE * PHASE_ONE) - 8 * p;
    assert(denom >= 4 * (PHASE_ONE * PHASE_ONE));
    assert(32 * p * COEFF_ONE <= COEFF_ONE * denom) by (nonlinear_arith)
        requires
            0 <= p,
            8 * p <= PHASE_ONE * PHASE_ONE,
            denom == 5 * (PHASE_ONE * PHASE_ONE) - 8 * p,
    ;
    assert(0 <= 32 * p * COEFF_ONE) by (nonlinear_arith)
        requires
            0 <= p,
    ;
    lemma_div_le(32 * p * COEFF_ONE, denom, COEFF_ONE as int);
}

/// On the half-cycle domain the approximated cosine lies in
/// `[-COEFF_ONE, COEFF_ONE]`.
pub proof fn lemma_cos_q_range(t: int)
    requires
        0 <= t <= HALF_PHASE,
    ensures
        -COEFF_ONE <= cos_q(t) <= COEFF_ONE,
{
    if t <= QUARTER_PHASE {
        lemma_sin_q_range(QUARTER_PHASE - t);
    } else {
        lemma_sin_q_range(t - QUARTER_PHASE);
    }
}

/// Computes `sin_q(t)` for a phase on the half-cycle domain.
fn sin_fixed(t: i64) -> (r: i64)
    requires
        0 <= t <= HALF_PHASE,
    ensures
        r == sin_q(t as int),
        0 <= r <= COEFF_ONE,
{
    proof {
        lemma_phase_product_range(t as int);
        lemma_sin_q_range(t as int);
    }
    let p = t * (PHASE_ONE - 2 * t);
    let denom = 5 * (PHASE_ONE * PHASE_ONE) - 8 * p;
    let num = 32 * p * COEFF_ONE;
    proof {
        lemma_mul_bound(32 * p, COEFF_ONE as int, 32 * ((PHASE_ONE * PHASE_ONE) / 8),
            COEFF_ONE as int);
        lemma_div_pos_is_pos(num as int, denom as int);
        lemma_div_le(num as int, denom as int, COEFF_ONE as int);
    }
    num / denom
}

/// Computes `cos_q(t)` for a phase on the half-cycle domain.
fn cos_fixed(t: i64) -> (r: i64)
    requires
        0 <= t <= HALF_PHASE,
    ensures
        r == cos_q(t as int),
        -COEFF_ONE <= r <= COEFF_ONE,
{
    if t <= QUARTER_PHASE {
        sin_fixed(QUARTER_PHASE - t)
    } else {
        let s = sin_fixed(t - QUARTER_PHASE);
        -s
    }
}

/// The response shape of a second-order section.
#[derive(Clone, Copy, Debug, PartialEq, Eq, Structural)]
pub enum BiquadKind {
    /// Passes frequencies below the cutoff.
    LowPass,
    /// Passes frequencies above the cutoff.
    HighPass,
    /// Passes a band around the center frequency.
    BandPass,
}

/// Normalized coefficients of a second-order section, scaled by
/// `COEFF_ONE`. The output recurrence is
/// `y = b0 x + b1 x1 + b2 x2 - a1 y1 - a2 y2`, rescaled.
#[derive(Clone, Copy, Debug, PartialEq, Eq, Structural)]
pub struct BiquadCoeffs {
    /// Feed-forward tap on the current input.
    pub b0: i64,
    /// Feed-forward tap on the previous input.
    pub b1: i64,
    /// Feed-forward tap on the input before that.
    pub b2: i64,
    /// Feedback tap on the previous output.
    pub a1: i64,
    /// Feedback tap on the output before that.
    pub a2: i64,
}

/// Delay registers of one channel of a biquad filter. Each channel owns
/// its own instance; states are never shared across channels.
#[derive(Clone, Copy, Debug, PartialEq, Eq, Structural)]
pub struct BiquadState {
    /// Previous input sample.
    pub x1: i64,
    /// Input sample before the previous one.
    pub x2: i64,
    /// Previous output sample.
    pub y1: i64,
    /// Output sample before the previous one.
    pub y2: i64,
}

/// All delay registers hold well-formed samples.
pub open spec fn state_wf(s: BiquadState) -> bool {
    &&& crate::sample_in_range(s.x1 as int)
    &&& crate::sample_in_range(s.x2 as int)
    &&& crate::sample_in_range(s.y1 as int)
    &&& crate::sample_in_range(s.y2 as int)
}

/// Every coefficient magnitude stays within `COEFF_LIMIT`.
pub open spec fn coeffs_wf(co: BiquadCoeffs) -> bool {
    &&& -COEFF_LIMIT <= co.b0 <= COEFF_LIMIT
    &&& -COEFF_LIMIT <= co.b1 <= COEFF_LIMIT
    &&& -COEFF_LIMIT <= co.b2 <= COEFF_LIMIT
    &&& -COEFF_LIMIT <= co.a1 <= COEFF_LIMIT
    &&& -COEFF_LIMIT <= co.a2 <= COEFF_LIMIT
}

impl BiquadState {
    /// A fresh channel state with all delay registers at zero.
    pub fn new() -> (s: BiquadState)
        ensures
            s == (BiquadState { x1: 0i64, x2: 0i64, y1: 0i64, y2: 0i64 }),
            state_wf(s),
    {
        BiquadState { x1: 0, x2: 0, y1: 0, y2: 0 }
    }
}

/// Parameters a section may be designed from: a positive sample rate, a
/// cutoff strictly below the Nyquist frequency, and a positive quality
/// factor (given in thousandths).
pub open spec fn valid_biquad_params(cutoff_hz: int, sample_rate_hz: int, q_milli: int) -> bool {
    &&& 0 < sample_rate_hz
    &&& 2 * cutoff_hz < sample_rate_hz
    &&& 0 < q_milli
}

/// The cutoff as a phase within one sampling cycle, in `PHASE_ONE` units.
pub open spec fn phase_of(cutoff_hz: int, sample_rate_hz: int) -> int {
    cutoff_hz * PHASE_ONE / sample_rate_hz
}

/// Divides a raw coefficient by the un-normalized leading coefficient
/// `a0`, rescaling by `COEFF_ONE`.
pub open spec fn norm_coeff(raw: int, a0: int) -> int {
    div_mag(raw * COEFF_ONE, a0)
}

/// Raw feed-forward taps of each response shape, before normalization,
/// from the cosine of the cutoff phase and the bandwidth term `alpha`.
pub open spec fn design_b_raw(kind: BiquadKind, c: int, alpha: int) -> (int, int, int) {
    match kind {
        BiquadKind::LowPass => ((COEFF_ONE - c) / 2, COEFF_ONE - c, (COEFF_ONE - c) / 2),
        BiquadKind::HighPass => ((COEFF_ONE + c) / 2, -(COEFF_ONE + c), (COEFF_ONE + c) / 2),
        BiquadKind::BandPass => (alpha, 0, -alpha),
    }
}

/// The five normalized coefficients `(b0, b1, b2, a1, a2)` designed for a
/// response shape, cutoff, sample rate and quality factor: the standard
/// direct-form section with `alpha = sin / (2 Q)`, divided through by
/// `a0 = 1 + alpha`.
pub open spec fn biquad_design(kind: BiquadKind, cutoff_hz: int, sample_rate_hz: int, q_milli: int) -> (
    int,
    int,
    int,
    int,
    int,
) {
    let t = phase_of(cutoff_hz, sample_rate_hz);
    let s = sin_q(t);
    let c = cos_q(t);
    let alpha = (s * 500) / q_milli;
    let a0 = COEFF_ONE + alpha;
    let b = design_b_raw(kind, c, alpha);
    (
        norm_coeff(b.0, a0),
        norm_coeff(b.1, a0),
        norm_coeff(b.2, a0),
        norm_coeff(-2 * c, a0),
        norm_coeff(COEFF_ONE - alpha, a0),
    )
}

/// `co` holds exactly the designed coefficients for these parameters.
pub open spec fn coeffs_match_design(
    co: BiquadCoeffs,
    kind: BiquadKind,
    cutoff_hz: int,
    sample_rate_hz: int,
    q_milli: int,
) -> bool {
    let d = biquad_design(kind, cutoff_hz, sample_rate_hz, q_milli);
    &&& co.b0 == d.0
    &&& co.b1 == d.1
    &&& co.b2 == d.2
    &&& co.a1 == d.3
    &&& co.a2 == d.4
}

/// Below Nyquist, the cutoff phase stays strictly inside the half cycle.
pub proof fn lemma_phase_range(cutoff_hz: int, sample_rate_hz: int)
    requires
        0 <= cutoff_hz,
        0 < sample_rate_hz,
        2 * cutoff_hz < sample_rate_hz,
    ensures
        0 <= phase_of(cutoff_hz, sample_rate_hz) < HALF_PHASE,
{
    let cp = cutoff_hz * PHASE_ONE;
    let t = cp / sample_rate_hz;
    assert(0 <= cp) by (nonlinear_arith)
        requires
            0 <= cutoff_hz,
            cp == cutoff_hz * PHASE_ONE,
    ;
    lemma_div_pos_is_pos(cp, sample_rate_hz);
    vstd::arithmetic::div_mod::lemma_fundamental_div_mod(cp, sample_rate_hz);
    vstd::arithmetic::div_mod::lemma_mod_bound(cp, sample_rate_hz);
    assert(sample_rate_hz * t <= cp);
    assert(2 * cp < sample_rate_hz * PHASE_ONE) by (nonlinear_arith)
        requires
            2 * cutoff_hz < sample_rate_hz,
            cp == cutoff_hz * PHASE_ONE,
    ;
    assert(2 * t < PHASE_ONE) by (nonlinear_arith)
        requires
            sample_rate_hz * t <= cp,
            2 * cp < sample_rate_hz * PHASE_ONE,
            0 < sample_rate_hz,
    ;
}

/// Normalizes one raw coefficient against `a0`.
fn norm_fixed(raw: i64, a0: i64) -> (r: i64)
    requires
        COEFF_ONE <= a0 <= 501 * COEFF_ONE,
        -2 * a0 <= raw <= 2 * a0,
    ensures
        r == norm_coeff(raw as int, a0 as int),
        -2 * COEFF_ONE <= r <= 2 * COEFF_ONE,
{
    proof {
        lemma_mul_bound(raw as int, COEFF_ONE as int, 2 * (a0 as int), COEFF_ONE as int);
        assert((2 * (a0 as int)) * COEFF_ONE == (2 * COEFF_ONE) * (a0 as int)) by (nonlinear_arith);
        lemma_div_mag_bound(raw * COEFF_ONE, a0 as int, 2 * COEFF_ONE);
        assert(2 * (a0 as int) * COEFF_ONE <= 2 * 501 * COEFF_ONE * COEFF_ONE) by (nonlinear_arith)
            requires
                a0 <= 501 * COEFF_ONE,
        ;
    }
    let n = raw * COEFF_ONE;
    div_toward_zero(n, a0)
}

/// Designs the coefficients of a second-order section.
///
/// Succeeds exactly on valid parameters: a positive sample rate, a cutoff
/// strictly below the Nyquist frequency (half the sample rate) and a
/// positive quality factor; any other input is rejected with
/// `InvalidFilterParameter` at construction time, never at apply time.
pub fn make_biquad(kind: BiquadKind, cutoff_hz: u32, sample_rate_hz: u32, q_milli: i64) -> (r:
    Result<BiquadCoeffs, crate::AudioError>)
    ensures
        r is Ok <==> valid_biquad_params(
            cutoff_hz as int,
            sample_rate_hz as int,
            q_milli as int,
        ),
        r matches Ok(co) ==> coeffs_match_design(
            co,
            kind,
            cutoff_hz as int,
            sample_rate_hz as int,
            q_milli as int,
        ) && coeffs_wf(co),
        r is Err ==> r == Err::<BiquadCoeffs, crate::AudioError>(
            crate::AudioError::InvalidFilterParameter,
        ),
{
    if sample_rate_hz == 0 || (cutoff_hz as u64) * 2 >= (sample_rate_hz as u64) || q_milli <= 0 {
        return Err(crate::AudioError::InvalidFilterParameter);
    }
    let cutoff = cutoff_hz as i64;
    let rate = sample_rate_hz as i64;
    proof {
        lemma_mul_bound(cutoff as int, PHASE_ONE as int, 0x1_0000_0000, PHASE_ONE as int);
        lemma_phase_range(cutoff as int, rate as int);
    }
    let t = (cutoff * PHASE_ONE) / rate;
    let s = sin_fixed(t);
    let c = cos_fixed(t);
    proof {
        lemma_div_shrinks((s * 500) as int, q_milli as int);
    }
    let alpha = (s * 500) / q_milli;
    let a0 = COEFF_ONE + alpha;
    let (b0r, b1r, b2r) = match kind {
        BiquadKind::LowPass => ((COEFF_ONE - c) / 2, COEFF_ONE - c, (COEFF_ONE - c) / 2),
        BiquadKind::HighPass => ((COEFF_ONE + c) / 2, -(COEFF_ONE + c), (COEFF_ONE + c) / 2),
        BiquadKind::BandPass => (alpha, 0i64, -alpha),
    };
    let a1r = -2 * c;
    let a2r = COEFF_ONE - alpha;
    Ok(BiquadCoeffs {
        b0: norm_fixed(b0r, a0),
        b1: norm_fixed(b1r, a0),
        b2: norm_fixed(b2r, a0),
        a1: norm_fixed(a1r, a0),
        a2: norm_fixed(a2r, a0),
    })
}

/// Un-rescaled output of one filter step: the direct-form recurrence over
/// the current input and the four delay registers.
pub open spec fn biquad_acc(co: BiquadCoeffs, s: BiquadState, x: int) -> int {
    co.b0 * x + co.b1 * s.x1 + co.b2 * s.x2 - co.a1 * s.y1 - co.a2 * s.y2
}

/// Output sample of one filter step: the recurrence rescaled by
/// `COEFF_ONE` (toward zero) and saturated into the sample range.
pub open spec fn biquad_out(co: BiquadCoeffs, s: BiquadState, x: int) -> int {
    crate::clamp_sample(div_mag(biquad_acc(co, s, x), COEFF_ONE as int))
}

/// The delay registers after filtering `x` to `y`: inputs and outputs
/// each shift down by one.
pub open spec fn biquad_shift(s: BiquadState, x: i64, y: i64) -> BiquadState {
    BiquadState { x1: x, x2: s.x1, y1: y, y2: s.y1 }
}

/// Filters one sample through the section, advancing this channel's delay
/// registers: one sample in, one sample out.
pub fn apply_biquad(co: &BiquadCoeffs, state: &mut BiquadState, x: i64) -> (y: i64)
    requires
        coeffs_wf(*co),
        state_wf(*old(state)),
        crate::sample_in_range(x as int),
    ensures
        y == biquad_out(*co, *old(state), x as int),
        *final(state) == biquad_shift(*old(state), x, y),
        state_wf(*final(state)),
        crate::sample_in_range(y as int),
{
    proof {
        lemma_mul_bound(co.b0 as int, x as int, COEFF_LIMIT as int, crate::SAMPLE_LIMIT as int);
        lemma_mul_bound(co.b1 as int, old(state).x1 as int, COEFF_LIMIT as int,
            crate::SAMPLE_LIMIT as int);
        lemma_mul_bound(co.b2 as int, old(state).x2 as int, COEFF_LIMIT as int,
            crate::SAMPLE_LIMIT as int);
        lemma_mul_bound(co.a1 as int, old(state).y1 as int, COEFF_LIMIT as int,
            crate::SAMPLE_LIMIT as int);
        lemma_mul_bound(co.a2 as int, old(state).y2 as int, COEFF_LIMIT as int,
            crate::SAMPLE_LIMIT as int);
    }
    let acc = co.b0 * x + co.b1 * state.x1 + co.b2 * state.x2 - co.a1 * state.y1 - co.a2
        * state.y2;
    let y0 = div_toward_zero(acc, COEFF_ONE);
    let y = if y0 > crate::SAMPLE_LIMIT {
        crate::SAMPLE_LIMIT
    } else if y0 < -crate::SAMPLE_LIMIT {
        -crate::SAMPLE_LIMIT
    } else {
        y0
    };
    state.x2 = state.x1;
    state.x1 = x;
    state.y2 = state.y1;
    state.y1 = y;
    y
}

/// Delay registers left after streaming a whole sample sequence through
/// the section, front to back.
pub open spec fn biquad_run_state(co: BiquadCoeffs, s: BiquadState, input: Seq<i64>) -> BiquadState
    decreases input.len(),
{
    if input.len() == 0 {
        s
    } else {
        let y = biquad_out(co, s, input[0] as int);
        biquad_run_state(co, biquad_shift(s, input[0], y as i64), input.drop_first())
    }
}

/// Outputs of streaming a whole sample sequence through the section,
/// front to back, with the delay registers threaded between samples.
pub open spec fn biquad_run_out(co: BiquadCoeffs, s: BiquadState, input: Seq<i64>) -> Seq<int>
    decreases input.len(),
{
    if input.len() == 0 {
        Seq::empty()
    } else {
        let y = biquad_out(co, s, input[0] as int);
        seq![y] + biquad_run_out(co, biquad_shift(s, input[0], y as i64), input.drop_first())
    }
}

/// A streamed run produces exactly one output per input sample.
pub proof fn lemma_biquad_run_len(co: BiquadCoeffs, s: BiquadState, xs: Seq<i64>)
    ensures
        biquad_run_out(co, s, xs).len() == xs.len(),
    decreases xs.len(),
{
    if xs.len() > 0 {
        let y = biquad_out(co, s, xs[0] as int);
        lemma_biquad_run_len(co, biquad_shift(s, xs[0], y as i64), xs.drop_first());
    }
}

/// Streaming one more sample extends the outputs by one step and shifts
/// the registers once.
pub proof fn lemma_biquad_run_push(co: BiquadCoeffs, s: BiquadState, xs: Seq<i64>, x: i64)
    ensures
        biquad_run_state(co, s, xs.push(x)) == biquad_shift(
            biquad_run_state(co, s, xs),
            x,
            biquad_out(co, biquad_run_state(co, s, xs), x as int) as i64,
        ),
        biquad_run_out(co, s, xs.push(x)) == biquad_run_out(co, s, xs).push(
            biquad_out(co, biquad_run_state(co, s, xs), x as int),
        ),
    decreases xs.len(),
{
    if xs.len() == 0 {
        let pushed = xs.push(x);
        assert(pushed[0] == x);
        assert(pushed.drop_first() =~= Seq::<i64>::empty());
        let y = biquad_out(co, s, x as int);
        let s1 = biquad_shift(s, x, y as i64);
        assert(biquad_run_state(co, s1, pushed.drop_first()) == s1);
        assert(biquad_run_out(co, s1, pushed.drop_first()) =~= Seq::<int>::empty());
        assert(biquad_run_out(co, s, pushed) =~= seq![y]);
        assert(biquad_run_state(co, s, xs) == s);
        assert(biquad_run_out(co, s, xs) =~= Seq::<int>::empty());
        assert(biquad_run_out(co, s, xs).push(y) =~= seq![y]);
    } else {
        let y0 = biquad_out(co, s, xs[0] as int);
        let s1 = biquad_shift(s, xs[0], y0 as i64);
        lemma_biquad_run_push(co, s1, xs.drop_first(), x);
        assert(xs.push(x)[0] == xs[0]);
        assert(xs.push(x).drop_first() =~= xs.drop_first().push(x));
        assert(seq![y0] + biquad_run_out(co, s1, xs.drop_first()).push(
            biquad_out(co, biquad_run_state(co, s1, xs.drop_first()), x as int),
        ) =~= (seq![y0] + biquad_run_out(co, s1, xs.drop_first())).push(
            biquad_out(co, biquad_run_state(co, s1, xs.drop_first()), x as int),
        ));
    }
}

/// Streams a whole channel of samples through the section, advancing
/// this channel's delay registers across the block boundary.
pub fn biquad_run_channel(co: &BiquadCoeffs, state: &mut BiquadState, input: &Vec<i64>) -> (out:
    Vec<i64>)
    requires
        coeffs_wf(*co),
        state_wf(*old(state)),
        crate::samples_in_range(input@),
    ensures
        out@.len() == input@.len(),
        forall|i: int| 0 <= i < out@.len() ==> #[trigger] out@[i] as int == biquad_run_out(
            *co,
            *old(state),
            input@,
        )[i],
        crate::samples_in_range(out@),
        *final(state) == biquad_run_state(*co, *old(state), input@),
        state_wf(*final(state)),
{
    let ghost s0 = *state;
    let n = input.len();
    let mut out: Vec<i64> = Vec::new();
    for i in 0..n
        invariant
            coeffs_wf(*co),
            crate::samples_in_range(input@),
            n == input@.len(),
            out@.len() == i,
            *state == biquad_run_state(*co, s0, input@.take(i as int)),
            state_wf(*state),
            crate::samples_in_range(out@),
            forall|p: int| 0 <= p < i ==> #[trigger] out@[p] as int == biquad_run_out(
                *co,
                s0,
                input@.take(i as int),
            )[p],
    {
        let x = input[i];
        let y = apply_biquad(co, state, x);
        out.push(y);
        proof {
            assert(input@.take(i + 1) =~= input@.take(i as int).push(x));
            lemma_biquad_run_push(*co, s0, input@.take(i as int), x);
            lemma_biquad_run_len(*co, s0, input@.take(i as int));
            let prev = biquad_run_out(*co, s0, input@.take(i as int));
            let ynew = biquad_out(*co, biquad_run_state(*co, s0, input@.take(i as int)), x as int);
            assert forall|p: int| 0 <= p < i + 1 implies #[trigger] out@[p] as int
                == biquad_run_out(*co, s0, input@.take(i + 1))[p] by {
                assert(biquad_run_out(*co, s0, input@.take(i + 1)) == prev.push(ynew));
                if p < i {
                    assert(prev.push(ynew)[p] == prev[p]);
                } else {
                    assert(prev.push(ynew)[p] == ynew);
                    assert(out@[p] == y);
                }
            }
        }
    }
    proof {
        assert(input@.take(n as int) =~= input@);
    }
    out
}

} // verus!
