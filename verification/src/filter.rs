//! Finite-impulse-response filtering: the causal, zero-padded convolution
//! of a tap vector with an input block, together with its impulse-response
//! and identity laws.
use vstd::prelude::*;

verus! {

use crate::arith::lemma_mul_bound;
use crate::{MAX_TAPS, SAMPLE_LIMIT, TAP_LIMIT, samples_in_range};

/// Partial convolution sum: the first `j` terms of the output at index `i`,
/// `sum_{k < j, k <= i} taps[k] * input[i - k]`.
pub open spec fn fir_sum(taps: Seq<i64>, input: Seq<i64>, i: int, j: int) -> int
    decreases j,
{
    if j <= 0 {
        0
    } else {
        fir_sum(taps, input, i, j - 1) + if j - 1 <= i {
            taps[j - 1] * input[i - (j - 1)]
        } else {
            0
        }
    }
}

/// Output sample `i` of the convolution: the full sum over all taps,
/// zero-extended on the left boundary (terms with `k > i` contribute 0).
pub open spec fn fir_out(taps: Seq<i64>, input: Seq<i64>, i: int) -> int {
    fir_sum(taps, input, i, taps.len() as int)
}

/// The whole filtered block: one convolution output per input sample.
pub open spec fn spec_fir(taps: Seq<i64>, input: Seq<i64>) -> Seq<int> {
    Seq::new(input.len(), |i: int| fir_out(taps, input, i))
}

/// True of a tap vector a filter may carry: non-empty, bounded in length
/// and in magnitude so that every convolution sum fits in `i64`.
pub open spec fn taps_wf(taps: Seq<i64>) -> bool {
    &&& 1 <= taps.len() <= MAX_TAPS
    &&& forall|k: int| 0 <= k < taps.len() ==> -TAP_LIMIT <= #[trigger] taps[k] <= TAP_LIMIT
}

/// The unit impulse of length `len`: a single 1 followed by zeros.
pub open spec fn impulse(len: int) -> Seq<i64> {
    Seq::new(len as nat, |i: int| if i == 0 { 1i64 } else { 0i64 })
}

/// A partial convolution sum of `j` bounded terms is bounded by
/// `j * TAP_LIMIT * SAMPLE_LIMIT`.
proof fn lemma_fir_sum_bound(taps: Seq<i64>, input: Seq<i64>, i: int, j: int)
    requires
        taps_wf(taps),
        samples_in_range(input),
        0 <= i < input.len(),
        0 <= j <= taps.len(),
    ensures
        -(j * TAP_LIMIT * SAMPLE_LIMIT) <= fir_sum(taps, input, i, j) <= j * TAP_LIMIT
            * SAMPLE_LIMIT,
    decreases j,
{
    if j > 0 {
        lemma_fir_sum_bound(taps, input, i, j - 1);
        if j - 1 <= i {
            lemma_mul_bound(taps[j - 1] as int, input[i - (j - 1)] as int, TAP_LIMIT as int,
                SAMPLE_LIMIT as int);
        }
        assert((j - 1) * TAP_LIMIT * SAMPLE_LIMIT + TAP_LIMIT * SAMPLE_LIMIT == j * TAP_LIMIT
            * SAMPLE_LIMIT) by (nonlinear_arith);
    }
}

/// Applies the FIR filter `taps` to `input` and returns the filtered block.
///
/// Output sample `i` is `sum_{k <= i} taps[k] * input[i - k]`, the causal
/// convolution with the block zero-extended to the left. The output has
/// exactly the input's length.
pub fn apply_fir(taps: &Vec<i64>, input: &Vec<i64>) -> (output: Vec<i64>)
    requires
        taps_wf(taps@),
        samples_in_range(input@),
    ensures
        output@.len() == input@.len(),
        forall|i: int| 0 <= i < input@.len() ==> #[trigger] output@[i] == fir_out(
            taps@,
            input@,
            i,
        ),
{
    let mut output: Vec<i64> = Vec::new();
    let n = input.len();
    let m = taps.len();
    for i in 0..n
        invariant
            taps_wf(taps@),
            samples_in_range(input@),
            n == input@.len(),
            m == taps@.len(),
            output@.len() == i,
            forall|p: int| 0 <= p < i ==> #[trigger] output@[p] == fir_out(taps@, input@, p),
    {
        let mut sum: i64 = 0;
        for j in 0..m
            invariant
                taps_wf(taps@),
                samples_in_range(input@),
                n == input@.len(),
                m == taps@.len(),
                0 <= i < n,
                sum == fir_sum(taps@, input@, i as int, j as int),
                -(j * TAP_LIMIT * SAMPLE_LIMIT) <= sum <= j * TAP_LIMIT * SAMPLE_LIMIT,
        {
            proof {
                lemma_fir_sum_bound(taps@, input@, i as int, j as int);
                lemma_fir_sum_bound(taps@, input@, i as int, j + 1);
                if j <= i {
                    lemma_mul_bound(taps@[j as int] as int, input@[i - j] as int,
                        TAP_LIMIT as int, SAMPLE_LIMIT as int);
                }
                assert(MAX_TAPS * TAP_LIMIT * SAMPLE_LIMIT < i64::MAX) by (nonlinear_arith);
                assert((j as int) * TAP_LIMIT * SAMPLE_LIMIT <= MAX_TAPS * TAP_LIMIT
                    * SAMPLE_LIMIT) by (nonlinear_arith)
                    requires
                        0 <= j as int <= MAX_TAPS,
                ;
                assert((j + 1) * TAP_LIMIT * SAMPLE_LIMIT <= MAX_TAPS * TAP_LIMIT * SAMPLE_LIMIT)
                    by (nonlinear_arith)
                    requires
                        0 <= j + 1 <= MAX_TAPS,
                ;
            }
            if j <= i {
                sum = sum + taps[j] * input[i - j];
            }
        }
        output.push(sum);
    }
    output
}

/// Identity law: filtering any block with the single tap `[1]` returns the
/// block unchanged.
pub proof fn lemma_fir_identity(input: Seq<i64>)
    ensures
        spec_fir(seq![1i64], input).len() == input.len(),
        forall|i: int| 0 <= i < input.len() ==> #[trigger] spec_fir(seq![1i64], input)[i]
            == input[i],
{
    let taps = seq![1i64];
    assert forall|i: int| 0 <= i < input.len() implies #[trigger] spec_fir(taps, input)[i]
        == input[i] by {
        assert(fir_sum(taps, input, i, 0) == 0);
        assert(fir_out(taps, input, i) == fir_sum(taps, input, i, 1));
        assert(fir_out(taps, input, i) == 1 * input[i]);
    }
}

/// The partial sums of a convolution with the unit impulse collapse to a
/// single tap: term `k` is non-zero only when `k == i`.
proof fn lemma_fir_sum_impulse(taps: Seq<i64>, len: int, i: int, j: int)
    requires
        0 <= i < len,
        0 <= j <= taps.len(),
    ensures
        fir_sum(taps, impulse(len), i, j) == if 0 <= i < j {
            taps[i] as int
        } else {
            0
        },
    decreases j,
{
    if j > 0 {
        lemma_fir_sum_impulse(taps, len, i, j - 1);
    }
}

/// A configured filter, immutable once constructed: either a FIR tap
/// vector or a designed second-order IIR section. Invalid parameters are
/// rejected by the constructors, never at apply time.
#[derive(Debug)]
pub enum FilterSpec {
    /// FIR convolution with the given taps; each application is
    /// self-contained, no state is carried between blocks. Taps are
    /// unit-scaled integers: the tap value 1 is the identity gain.
    /// Fractional responses belong to the biquad family, whose
    /// coefficients carry `COEFF_ONE` scaling.
    Fir {
        /// The ordered tap coefficients.
        taps: Vec<i64>,
    },
    /// A second-order IIR section; per-channel delay registers carry
    /// state across block boundaries.
    Biquad {
        /// The designed, normalized coefficients.
        coeffs: crate::biquad::BiquadCoeffs,
    },
}

/// A well-formed filter: valid taps or bounded coefficients.
pub open spec fn filter_wf(f: FilterSpec) -> bool {
    match f {
        FilterSpec::Fir { taps } => taps_wf(taps@),
        FilterSpec::Biquad { coeffs } => crate::biquad::coeffs_wf(coeffs),
    }
}

/// Two filters with the same configuration.
pub open spec fn same_filter(a: FilterSpec, b: FilterSpec) -> bool {
    match (a, b) {
        (FilterSpec::Fir { taps: ta }, FilterSpec::Fir { taps: tb }) => ta@ == tb@,
        (FilterSpec::Biquad { coeffs: ca }, FilterSpec::Biquad { coeffs: cb }) => ca == cb,
        _ => false,
    }
}

impl FilterSpec {
    /// Builds a FIR filter from a tap vector, rejecting empty, oversized
    /// or out-of-range taps at construction time.
    pub fn new_fir(taps: Vec<i64>) -> (r: Result<FilterSpec, crate::AudioError>)
        ensures
            r is Ok <==> taps_wf(taps@),
            r matches Ok(f) ==> f == (FilterSpec::Fir { taps }),
            r is Err ==> r == Err::<FilterSpec, crate::AudioError>(
                crate::AudioError::InvalidFilterParameter,
            ),
    {
        if taps.len() < 1 || taps.len() > MAX_TAPS {
            return Err(crate::AudioError::InvalidFilterParameter);
        }
        let n = taps.len();
        for k in 0..n
            invariant
                n == taps@.len(),
                1 <= n <= MAX_TAPS,
                forall|p: int| 0 <= p < k ==> -TAP_LIMIT <= #[trigger] taps@[p] <= TAP_LIMIT,
        {
            if taps[k] < -TAP_LIMIT || taps[k] > TAP_LIMIT {
                return Err(crate::AudioError::InvalidFilterParameter);
            }
        }
        Ok(FilterSpec::Fir { taps })
    }

    /// Designs a biquad filter; succeeds exactly on valid parameters, as
    /// `make_biquad` does.
    pub fn new_biquad(
        kind: crate::biquad::BiquadKind,
        cutoff_hz: u32,
        sample_rate_hz: u32,
        q_milli: i64,
    ) -> (r: Result<FilterSpec, crate::AudioError>)
        ensures
            r is Ok <==> crate::biquad::valid_biquad_params(
                cutoff_hz as int,
                sample_rate_hz as int,
                q_milli as int,
            ),
            r matches Ok(f) ==> f matches FilterSpec::Biquad { coeffs }
                && crate::biquad::coeffs_match_design(
                coeffs,
                kind,
                cutoff_hz as int,
                sample_rate_hz as int,
                q_milli as int,
            ) && filter_wf(f),
            r is Err ==> r == Err::<FilterSpec, crate::AudioError>(
                crate::AudioError::InvalidFilterParameter,
            ),
    {
        match crate::biquad::make_biquad(kind, cutoff_hz, sample_rate_hz, q_milli) {
            Ok(coeffs) => Ok(FilterSpec::Biquad { coeffs }),
            Err(e) => Err(e),
        }
    }

    /// Copies the configuration; a session clones its filter at start and
    /// treats the clone as immutable from then on.
    pub fn duplicate(&self) -> (r: FilterSpec)
        ensures
            same_filter(r, *self),
            filter_wf(*self) ==> filter_wf(r),
    {
        match self {
            FilterSpec::Fir { taps } => {
                let copy = taps.clone();
                proof {
                    assert(copy@ =~= taps@);
                }
                FilterSpec::Fir { taps: copy }
            },
            FilterSpec::Biquad { coeffs } => FilterSpec::Biquad { coeffs: *coeffs },
        }
    }
}

/// Impulse-response law: filtering a unit impulse of length at least the
/// tap count yields the taps themselves followed by zeros.
pub proof fn lemma_fir_impulse_response(taps: Seq<i64>, len: int)
    requires
        1 <= taps.len(),
        taps.len() <= len,
    ensures
        spec_fir(taps, impulse(len)).len() == len,
        forall|i: int| 0 <= i < taps.len() ==> #[trigger] spec_fir(taps, impulse(len))[i]
            == taps[i],
        forall|i: int| taps.len() <= i < len ==> #[trigger] spec_fir(taps, impulse(len))[i] == 0,
{
    assert forall|i: int| 0 <= i < len implies #[trigger] spec_fir(taps, impulse(len))[i] == (
    if i < taps.len() {
        taps[i] as int
    } else {
        0
    }) by {
        lemma_fir_sum_impulse(taps, len, i, taps.len() as int);
    }
}

/// One filter instance per audio channel: the configuration plus one set
/// of delay registers for each channel. States of different channels
/// never share memory, so no cross-channel smearing can occur.
#[derive(Debug)]
pub struct FilterBank {
    /// The immutable filter configuration.
    pub filter: FilterSpec,
    /// One delay-register set per channel; unused (and empty of effect)
    /// for FIR filters, whose application is self-contained.
    pub states: Vec<crate::biquad::BiquadState>,
    /// The channel count the bank was built for.
    pub channels: usize,
}

/// Filtered output of one interleaved block: every channel is filtered
/// independently — FIR convolves each channel's sample sequence with the
/// taps, a biquad streams each channel through its own delay registers.
pub open spec fn bank_out(
    f: FilterSpec,
    channels: int,
    states: Seq<crate::biquad::BiquadState>,
    samples: Seq<i64>,
) -> Seq<int> {
    match f {
        FilterSpec::Fir { taps } => Seq::new(
            samples.len(),
            |i: int|
                fir_out(
                    taps@,
                    crate::block::channel_seq(samples, channels, i % channels),
                    i / channels,
                ),
        ),
        FilterSpec::Biquad { coeffs } => Seq::new(
            samples.len(),
            |i: int|
                crate::biquad::biquad_run_out(
                    coeffs,
                    states[i % channels],
                    crate::block::channel_seq(samples, channels, i % channels),
                )[i / channels],
        ),
    }
}

/// Per-channel delay registers after one interleaved block has been
/// filtered; FIR leaves them untouched.
pub open spec fn bank_next(
    f: FilterSpec,
    channels: int,
    states: Seq<crate::biquad::BiquadState>,
    samples: Seq<i64>,
) -> Seq<crate::biquad::BiquadState> {
    match f {
        FilterSpec::Fir { .. } => states,
        FilterSpec::Biquad { coeffs } => Seq::new(
            states.len(),
            |c: int|
                crate::biquad::biquad_run_state(
                    coeffs,
                    states[c],
                    crate::block::channel_seq(samples, channels, c),
                ),
        ),
    }
}

/// Every channel of an in-range interleaved sequence is in range.
proof fn lemma_channel_seq_in_range(samples: Seq<i64>, channels: int, c: int)
    requires
        samples_in_range(samples),
        0 < channels,
        0 <= c < channels,
    ensures
        samples_in_range(crate::block::channel_seq(samples, channels, c)),
{
    let cs = crate::block::channel_seq(samples, channels, c);
    let frames = samples.len() as int / channels;
    vstd::arithmetic::div_mod::lemma_fundamental_div_mod(samples.len() as int, channels);
    vstd::arithmetic::div_mod::lemma_mod_bound(samples.len() as int, channels);
    assert forall|f: int| 0 <= f < cs.len() implies crate::sample_in_range(
        #[trigger] cs[f] as int,
    ) by {
        assert(0 <= f * channels + c < samples.len()) by (nonlinear_arith)
            requires
                0 <= f < frames,
                0 <= c < channels,
                channels * frames <= samples.len() as int,
        ;
        assert(cs[f] == samples[f * channels + c]);
    }
}

impl FilterBank {
    /// A well-formed bank: valid configuration, a supported channel
    /// count, and exactly one well-formed state per channel.
    pub open spec fn wf(self) -> bool {
        &&& filter_wf(self.filter)
        &&& 1 <= self.channels <= 2
        &&& self.states@.len() == self.channels
        &&& forall|c: int| 0 <= c < self.states@.len() ==> crate::biquad::state_wf(
            #[trigger] self.states@[c],
        )
    }

    /// Builds a bank for `channels` channels with zeroed delay registers.
    pub fn new(filter: FilterSpec, channels: usize) -> (bank: FilterBank)
        requires
            filter_wf(filter),
            1 <= channels <= 2,
        ensures
            bank.wf(),
            bank.filter == filter,
            bank.channels == channels,
            forall|c: int| 0 <= c < bank.states@.len() ==> #[trigger] bank.states@[c]
                == (crate::biquad::BiquadState { x1: 0i64, x2: 0i64, y1: 0i64, y2: 0i64 }),
    {
        let mut states: Vec<crate::biquad::BiquadState> = Vec::new();
        let mut c: usize = 0;
        while c < channels
            invariant
                c <= channels,
                states@.len() == c,
                forall|k: int| 0 <= k < c ==> #[trigger] states@[k] == (crate::biquad::BiquadState {
                    x1: 0i64,
                    x2: 0i64,
                    y1: 0i64,
                    y2: 0i64,
                }),
            decreases channels - c,
        {
            states.push(crate::biquad::BiquadState::new());
            c = c + 1;
        }
        FilterBank { filter, states, channels }
    }

    /// Filters one interleaved block, advancing the per-channel delay
    /// registers across the block boundary; the output has exactly the
    /// input's length.
    pub fn process_block(&mut self, samples: &Vec<i64>) -> (out: Vec<i64>)
        requires
            old(self).wf(),
            samples_in_range(samples@),
            samples@.len() as int % (old(self).channels as int) == 0,
        ensures
            final(self).wf(),
            final(self).filter == old(self).filter,
            final(self).channels == old(self).channels,
            out@.len() == samples@.len(),
            forall|i: int| 0 <= i < out@.len() ==> #[trigger] out@[i] as int == bank_out(
                old(self).filter,
                old(self).channels as int,
                old(self).states@,
                samples@,
            )[i],
            final(self).states@ == bank_next(
                old(self).filter,
                old(self).channels as int,
                old(self).states@,
                samples@,
            ),
    {
        let channels = self.channels;
        let ghost states0 = self.states@;
        let total = samples.len();
        let frames = total / channels;
        proof {
            assert(frames * channels == samples@.len()) by (nonlinear_arith)
                requires
                    frames == samples@.len() as int / channels as int,
                    samples@.len() as int % (channels as int) == 0,
                    1 <= channels,
            ;
        }
        let chans = crate::block::deinterleave(samples, channels);
        let co = match &self.filter {
            FilterSpec::Fir { taps } => {
                let mut outs: Vec<Vec<i64>> = Vec::new();
                let mut c: usize = 0;
                while c < channels
                    invariant
                        old(self).wf(),
                        self == old(self),
                        samples_in_range(samples@),
                        self.filter matches FilterSpec::Fir { taps: t } && t@ == taps@,
                        taps_wf(taps@),
                        channels == self.channels,
                        1 <= channels <= 2,
                        total == samples@.len(),
                        frames == samples@.len() as int / channels as int,
                        frames * channels == samples@.len(),
                        chans@.len() == channels,
                        forall|k: int| 0 <= k < channels ==> #[trigger] chans@[k]@
                            == crate::block::channel_seq(samples@, channels as int, k),
                        c <= channels,
                        outs@.len() == c,
                        forall|k: int| 0 <= k < c ==> #[trigger] outs@[k]@.len() == frames,
                        forall|k: int, f: int|
                            0 <= k < c && 0 <= f < frames ==> #[trigger] outs@[k]@[f] == fir_out(
                                taps@,
                                crate::block::channel_seq(samples@, channels as int, k),
                                f,
                            ),
                    decreases channels - c,
                {
                    proof {
                        lemma_channel_seq_in_range(samples@, channels as int, c as int);
                    }
                    let o = apply_fir(taps, &chans[c]);
                    outs.push(o);
                    c = c + 1;
                }
                let out = crate::block::reinterleave(&outs, frames);
                proof {
                    assert forall|i: int| 0 <= i < out@.len() implies #[trigger] out@[i] as int
                        == bank_out(old(self).filter, channels as int, states0, samples@)[i] by {
                        let ch = channels as int;
                        let f = i / ch;
                        let k = i % ch;
                        vstd::arithmetic::div_mod::lemma_fundamental_div_mod(i, ch);
                        vstd::arithmetic::div_mod::lemma_mod_bound(i, ch);
                        assert(0 <= f < frames) by (nonlinear_arith)
                            requires
                                i == ch * f + k,
                                0 <= k < ch,
                                0 <= i < frames * ch,
                        ;
                        assert(i == f * ch + k) by (nonlinear_arith)
                            requires
                                i == ch * f + k,
                        ;
                        assert(out@[f * ch + k] == outs@[k]@[f]);
                    }
                }
                return out;
            },
            FilterSpec::Biquad { coeffs } => *coeffs,
        };
        let mut outs: Vec<Vec<i64>> = Vec::new();
        let mut new_states: Vec<crate::biquad::BiquadState> = Vec::new();
        let mut c: usize = 0;
        while c < channels
            invariant
                self == old(self),
                old(self).wf(),
                samples_in_range(samples@),
                self.filter matches FilterSpec::Biquad { coeffs } && coeffs == co,
                channels == self.channels,
                states0 == self.states@,
                total == samples@.len(),
                frames == samples@.len() as int / channels as int,
                frames * channels == samples@.len(),
                chans@.len() == channels,
                forall|k: int| 0 <= k < channels ==> #[trigger] chans@[k]@
                    == crate::block::channel_seq(samples@, channels as int, k),
                c <= channels,
                outs@.len() == c,
                new_states@.len() == c,
                forall|k: int| 0 <= k < c ==> #[trigger] new_states@[k]
                    == crate::biquad::biquad_run_state(
                    co,
                    states0[k],
                    crate::block::channel_seq(samples@, channels as int, k),
                ),
                forall|k: int| 0 <= k < c ==> crate::biquad::state_wf(#[trigger] new_states@[k]),
                forall|k: int| 0 <= k < c ==> #[trigger] outs@[k]@.len() == frames,
                forall|k: int, f: int|
                    0 <= k < c && 0 <= f < frames ==> #[trigger] outs@[k]@[f] as int
                        == crate::biquad::biquad_run_out(
                        co,
                        states0[k],
                        crate::block::channel_seq(samples@, channels as int, k),
                    )[f],
            decreases channels - c,
        {
            proof {
                lemma_channel_seq_in_range(samples@, channels as int, c as int);
            }
            let mut st = self.states[c];
            let o = crate::biquad::biquad_run_channel(&co, &mut st, &chans[c]);
            proof {
                crate::biquad::lemma_biquad_run_len(co, states0[c as int],
                    crate::block::channel_seq(samples@, channels as int, c as int));
            }
            new_states.push(st);
            outs.push(o);
            c = c + 1;
        }
        let out = crate::block::reinterleave(&outs, frames);
        self.states = new_states;
        proof {
            assert(final(self).states@ =~= bank_next(old(self).filter, channels as int, states0,
                samples@));
            assert forall|i: int| 0 <= i < out@.len() implies #[trigger] out@[i] as int == bank_out(
                old(self).filter,
                channels as int,
                states0,
                samples@,
            )[i] by {
                let ch = channels as int;
                let f = i / ch;
                let k = i % ch;
                vstd::arithmetic::div_mod::lemma_fundamental_div_mod(i, ch);
                vstd::arithmetic::div_mod::lemma_mod_bound(i, ch);
                assert(0 <= f < frames) by (nonlinear_arith)
                    requires
                        i == ch * f + k,
                        0 <= k < ch,
                        0 <= i < frames * ch,
                ;
                assert(i == f * ch + k) by (nonlinear_arith)
                    requires
                        i == ch * f + k,
                ;
                assert(out@[f * ch + k] == outs@[k]@[f]);
            }
        }
        out
    }
}

} // verus!
