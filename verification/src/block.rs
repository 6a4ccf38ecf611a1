//! Audio blocks: ordered interleaved samples with a channel count, the
//! unit of data moved between capture and render, plus the deinterleave
//! and reinterleave steps used for per-channel filtering.
use vstd::prelude::*;

verus! {

use crate::samples_in_range;

/// An ordered sequence of interleaved samples together with its channel
/// count; the sample count is always a whole number of frames.
#[derive(Debug)]
pub struct AudioBlock {
    /// Interleaved samples, frame by frame.
    pub samples: Vec<i64>,
    /// Number of channels; this core supports mono and stereo.
    pub channels: usize,
}

impl AudioBlock {
    /// A well-formed block: mono or stereo, and a whole number of frames.
    pub open spec fn wf(self) -> bool {
        &&& 1 <= self.channels <= 2
        &&& self.samples@.len() as int % (self.channels as int) == 0
    }

    /// Number of frames the block holds.
    pub open spec fn spec_frames(self) -> int {
        self.samples@.len() as int / (self.channels as int)
    }

    /// Builds a block from interleaved samples.
    pub fn new(samples: Vec<i64>, channels: usize) -> (b: AudioBlock)
        requires
            1 <= channels <= 2,
            samples@.len() as int % (channels as int) == 0,
        ensures
            b.samples == samples,
            b.channels == channels,
            b.wf(),
    {
        AudioBlock { samples, channels }
    }

    /// Number of frames the block holds.
    pub fn frames(&self) -> (n: usize)
        requires
            self.wf(),
        ensures
            n == self.spec_frames(),
    {
        self.samples.len() / self.channels
    }
}

/// The samples of channel `c` within an interleaved sequence of
/// `channels` channels: every `channels`-th sample starting at `c`.
pub open spec fn channel_seq(samples: Seq<i64>, channels: int, c: int) -> Seq<i64> {
    Seq::new((samples.len() as int / channels) as nat, |f: int| samples[f * channels + c])
}

/// Splits an interleaved sequence into one sample vector per channel.
pub fn deinterleave(samples: &Vec<i64>, channels: usize) -> (chans: Vec<Vec<i64>>)
    requires
        1 <= channels <= 2,
        samples@.len() as int % (channels as int) == 0,
    ensures
        chans@.len() == channels,
        forall|c: int| 0 <= c < channels ==> #[trigger] chans@[c]@ == channel_seq(
            samples@,
            channels as int,
            c,
        ),
{
    let total = samples.len();
    let frames = total / channels;
    proof {
        assert(frames * channels == samples@.len()) by (nonlinear_arith)
            requires
                frames == samples@.len() as int / channels as int,
                samples@.len() as int % (channels as int) == 0,
                1 <= channels,
        ;
    }
    let mut chans: Vec<Vec<i64>> = Vec::new();
    let mut c: usize = 0;
    while c < channels
        invariant
            1 <= channels <= 2,
            total == samples@.len(),
            frames == samples@.len() as int / channels as int,
            frames * channels == samples@.len(),
            c <= channels,
            chans@.len() == c,
            forall|k: int| 0 <= k < c ==> #[trigger] chans@[k]@ == channel_seq(
                samples@,
                channels as int,
                k,
            ),
        decreases channels - c,
    {
        let mut chan: Vec<i64> = Vec::new();
        let mut f: usize = 0;
        while f < frames
            invariant
                1 <= channels <= 2,
                c < channels,
                total == samples@.len(),
                frames * channels == samples@.len(),
                f <= frames,
                chan@.len() == f,
                forall|p: int| 0 <= p < f ==> #[trigger] chan@[p] == samples@[p * channels + c],
            decreases frames - f,
        {
            proof {
                assert(f * channels + c < samples@.len()) by (nonlinear_arith)
                    requires
                        0 <= f < frames,
                        0 <= c < channels,
                        frames * channels == samples@.len(),
                ;
            }
            let idx = f * channels + c;
            chan.push(samples[idx]);
            f = f + 1;
        }
        proof {
            assert(chan@ =~= channel_seq(samples@, channels as int, c as int));
        }
        chans.push(chan);
        c = c + 1;
    }
    chans
}

/// Recombines per-channel sample vectors of equal length into one
/// interleaved sequence.
pub fn reinterleave(chans: &Vec<Vec<i64>>, frames: usize) -> (out: Vec<i64>)
    requires
        1 <= chans@.len() <= 2,
        forall|c: int| 0 <= c < chans@.len() ==> #[trigger] chans@[c]@.len() == frames,
        frames * chans@.len() <= usize::MAX,
    ensures
        out@.len() == frames * chans@.len(),
        forall|f: int, c: int|
            0 <= f < frames && 0 <= c < chans@.len() ==> #[trigger] out@[f * chans@.len() + c]
                == chans@[c]@[f],
{
    let channels = chans.len();
    let mut out: Vec<i64> = Vec::new();
    let mut f: usize = 0;
    while f < frames
        invariant
            channels == chans@.len(),
            1 <= channels <= 2,
            forall|c: int| 0 <= c < channels ==> #[trigger] chans@[c]@.len() == frames,
            frames * channels <= usize::MAX,
            f <= frames,
            out@.len() == f * channels,
            forall|p: int, c: int|
                0 <= p < f && 0 <= c < channels ==> #[trigger] out@[p * channels + c]
                    == chans@[c]@[p],
        decreases frames - f,
    {
        proof {
            assert((f + 1) * channels <= frames * channels) by (nonlinear_arith)
                requires
                    0 <= f < frames,
                    0 < channels,
            ;
            assert((f + 1) * channels == f * channels + channels) by (nonlinear_arith);
        }
        let mut c: usize = 0;
        while c < channels
            invariant
                channels == chans@.len(),
                1 <= channels <= 2,
                forall|k: int| 0 <= k < channels ==> #[trigger] chans@[k]@.len() == frames,
                0 <= f < frames,
                (f + 1) * channels == f * channels + channels,
                f * channels + channels <= usize::MAX,
                c <= channels,
                out@.len() == f * channels + c,
                forall|p: int, k: int|
                    0 <= p < f && 0 <= k < channels ==> #[trigger] out@[p * channels + k]
                        == chans@[k]@[p],
                forall|k: int| 0 <= k < c ==> #[trigger] out@[f * channels + k] == chans@[k]@[f as int],
            decreases channels - c,
        {
            proof {
                assert forall|p: int, k: int| 0 <= p < f && 0 <= k < channels implies #[trigger] (p
                    * channels + k) < f * channels + c by {
                    assert(p * channels + k < f * channels) by (nonlinear_arith)
                        requires
                            0 <= p < f,
                            0 <= k < channels,
                    ;
                }
            }
            out.push(chans[c][f]);
            c = c + 1;
        }
        f = f + 1;
        proof {
            assert forall|p: int, k: int| 0 <= p < f && 0 <= k < channels implies #[trigger] out@[p
                * channels + k] == chans@[k]@[p] by {
                if p == f - 1 {
                    assert(out@[(f - 1) * channels + k] == chans@[k]@[f - 1]);
                }
            }
        }
    }
    out
}

/// Duplicates a mono sample sequence into both channels of a stereo
/// interleaved sequence: the expansion policy for mono sources feeding a
/// stereo target.
pub open spec fn widened_mono(samples: Seq<i64>) -> Seq<i64> {
    Seq::new((2 * samples.len()) as nat, |i: int| samples[i / 2])
}

/// Expands a mono block to stereo by duplicating each sample into the
/// left and right channel of the same frame.
pub fn widen_mono(samples: &Vec<i64>) -> (out: Vec<i64>)
    requires
        2 * samples@.len() <= usize::MAX,
    ensures
        out@ == widened_mono(samples@),
        samples_in_range(samples@) ==> samples_in_range(out@),
{
    let n = samples.len();
    let mut out: Vec<i64> = Vec::new();
    let mut f: usize = 0;
    while f < n
        invariant
            n == samples@.len(),
            2 * n <= usize::MAX,
            f <= n,
            out@.len() == 2 * f,
            forall|i: int| 0 <= i < 2 * f ==> #[trigger] out@[i] == samples@[i / 2],
        decreases n - f,
    {
        let v = samples[f];
        out.push(v);
        out.push(v);
        proof {
            assert(2 * (f + 1) - 2 == 2 * f);
            assert((2 * f) / 2 == f) by (nonlinear_arith);
            assert((2 * f + 1) / 2 == f) by (nonlinear_arith);
        }
        f = f + 1;
    }
    proof {
        assert(out@ =~= widened_mono(samples@));
    }
    out
}

} // verus!
