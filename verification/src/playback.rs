//! The playback sink as the core sees it: a FIFO of queued blocks, a
//! paused flag and a volume. These are control signals to a
//! continuously-running output connection owned by the device backend;
//! their effect on already-rendering audio lands at the next render
//! quantum.
use vstd::prelude::*;

verus! {

use crate::block::AudioBlock;

/// Full volume, in thousandths: a volume `v` stands for the real gain
/// `v / VOLUME_MAX`, so the representable range is zero to unity.
pub const VOLUME_MAX: i64 = 1000;

/// Clamps a requested volume into `[0, VOLUME_MAX]`: out-of-range values
/// are clamped, never rejected.
pub open spec fn clamp_volume(v: int) -> int {
    if v < 0 {
        0
    } else if v > VOLUME_MAX {
        VOLUME_MAX as int
    } else {
        v
    }
}

/// A sample scaled by a volume: the fixed-point gain `volume /
/// VOLUME_MAX`, rounded toward zero.
pub open spec fn scaled_sample(v: int, volume: int) -> int {
    crate::arith::div_mag(v * volume, VOLUME_MAX as int)
}

/// Applies a volume to a block of samples: each sample is scaled by
/// `volume / VOLUME_MAX`. Full volume leaves every sample unchanged;
/// volume zero silences every sample.
pub fn apply_gain(samples: &Vec<i64>, volume: i64) -> (out: Vec<i64>)
    requires
        0 <= volume <= VOLUME_MAX,
        crate::samples_in_range(samples@),
    ensures
        out@.len() == samples@.len(),
        forall|i: int| 0 <= i < out@.len() ==> #[trigger] out@[i] as int == scaled_sample(
            samples@[i] as int,
            volume as int,
        ),
        crate::samples_in_range(out@),
{
    let n = samples.len();
    let mut out: Vec<i64> = Vec::new();
    for i in 0..n
        invariant
            n == samples@.len(),
            0 <= volume <= VOLUME_MAX,
            crate::samples_in_range(samples@),
            out@.len() == i,
            forall|p: int| 0 <= p < i ==> #[trigger] out@[p] as int == scaled_sample(
                samples@[p] as int,
                volume as int,
            ),
            crate::samples_in_range(out@),
    {
        proof {
            crate::arith::lemma_mul_bound(samples@[i as int] as int, volume as int,
                crate::SAMPLE_LIMIT as int, VOLUME_MAX as int);
            crate::arith::lemma_div_mag_bound(samples@[i as int] * volume, VOLUME_MAX as int,
                crate::SAMPLE_LIMIT as int);
        }
        let scaled = crate::arith::div_toward_zero(samples[i] * volume, VOLUME_MAX);
        out.push(scaled);
    }
    out
}

/// Owns the playback volume, the paused flag, and the queued blocks.
#[derive(Debug)]
pub struct PlaybackHandle {
    volume: i64,
    paused: bool,
    queue: Vec<AudioBlock>,
}

impl PlaybackHandle {
    /// The current volume, always within `[0, VOLUME_MAX]`.
    pub closed spec fn volume_spec(self) -> int {
        self.volume as int
    }

    /// True while playback is paused.
    pub closed spec fn is_paused_spec(self) -> bool {
        self.paused
    }

    /// The queued blocks, in playback (FIFO) order.
    pub closed spec fn queued(self) -> Seq<AudioBlock> {
        self.queue@
    }

    /// A well-formed handle: the volume is within range.
    pub closed spec fn wf(self) -> bool {
        0 <= self.volume <= VOLUME_MAX
    }

    /// A fresh handle: full volume, not paused, nothing queued.
    pub fn new() -> (h: PlaybackHandle)
        ensures
            h.wf(),
            h.volume_spec() == VOLUME_MAX,
            !h.is_paused_spec(),
            h.queued() == Seq::<AudioBlock>::empty(),
    {
        let queue: Vec<AudioBlock> = Vec::new();
        proof {
            assert(queue@ =~= Seq::<AudioBlock>::empty());
        }
        PlaybackHandle { volume: VOLUME_MAX, paused: false, queue }
    }

    /// Appends a fully-formed block to the playback queue; playback
    /// order is first in, first out.
    pub fn enqueue(&mut self, block: AudioBlock)
        requires
            old(self).wf(),
        ensures
            final(self).wf(),
            final(self).queued() == old(self).queued().push(block),
            final(self).volume_spec() == old(self).volume_spec(),
            final(self).is_paused_spec() == old(self).is_paused_spec(),
    {
        self.queue.push(block);
    }

    /// Begins (or resumes) playback.
    pub fn play(&mut self)
        requires
            old(self).wf(),
        ensures
            final(self).wf(),
            !final(self).is_paused_spec(),
            final(self).queued() == old(self).queued(),
            final(self).volume_spec() == old(self).volume_spec(),
    {
        self.paused = false;
    }

    /// Pauses playback; queued content stays queued.
    pub fn pause(&mut self)
        requires
            old(self).wf(),
        ensures
            final(self).wf(),
            final(self).is_paused_spec(),
            final(self).queued() == old(self).queued(),
            final(self).volume_spec() == old(self).volume_spec(),
    {
        self.paused = true;
    }

    /// Resumes paused playback.
    pub fn resume(&mut self)
        requires
            old(self).wf(),
        ensures
            final(self).wf(),
            !final(self).is_paused_spec(),
            final(self).queued() == old(self).queued(),
            final(self).volume_spec() == old(self).volume_spec(),
    {
        self.paused = false;
    }

    /// Halts output immediately: the queue is cleared at once, not
    /// drained gracefully.
    pub fn stop(&mut self)
        requires
            old(self).wf(),
        ensures
            final(self).wf(),
            final(self).queued() == Seq::<AudioBlock>::empty(),
            final(self).volume_spec() == old(self).volume_spec(),
            final(self).is_paused_spec() == old(self).is_paused_spec(),
    {
        self.queue.clear();
        proof {
            assert(self.queue@ =~= Seq::<AudioBlock>::empty());
        }
    }

    /// Sets the volume, clamping the request into `[0, VOLUME_MAX]`:
    /// a negative request becomes silence, an over-unity request becomes
    /// full volume.
    pub fn set_volume(&mut self, v: i64)
        requires
            old(self).wf(),
        ensures
            final(self).wf(),
            final(self).volume_spec() == clamp_volume(v as int),
            final(self).queued() == old(self).queued(),
            final(self).is_paused_spec() == old(self).is_paused_spec(),
    {
        self.volume = if v < 0 {
            0
        } else if v > VOLUME_MAX {
            VOLUME_MAX
        } else {
            v
        };
    }

    /// The current volume.
    pub fn volume(&self) -> (v: i64)
        ensures
            v == self.volume_spec(),
    {
        self.volume
    }

    /// True while playback is paused.
    pub fn is_paused(&self) -> (p: bool)
        ensures
            p == self.is_paused_spec(),
    {
        self.paused
    }

    /// Number of blocks waiting to play.
    pub fn queue_len(&self) -> (n: usize)
        ensures
            n == self.queued().len(),
    {
        self.queue.len()
    }

    /// Hands out the next block to render, in FIFO order; nothing while
    /// paused or when the queue is empty.
    pub fn take_next(&mut self) -> (r: Option<AudioBlock>)
        requires
            old(self).wf(),
        ensures
            final(self).wf(),
            final(self).volume_spec() == old(self).volume_spec(),
            final(self).is_paused_spec() == old(self).is_paused_spec(),
            old(self).is_paused_spec() || old(self).queued().len() == 0 ==> r is None
                && *final(self) == *old(self),
            !old(self).is_paused_spec() && old(self).queued().len() > 0 ==> r == Some(
                old(self).queued()[0],
            ) && final(self).queued() == old(self).queued().drop_first(),
    {
        if self.paused || self.queue.len() == 0 {
            None
        } else {
            let b = self.queue.remove(0);
            proof {
                assert(self.queue@ =~= old(self).queue@.drop_first());
            }
            Some(b)
        }
    }
}

} // verus!
