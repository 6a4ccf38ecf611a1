//! The offline decode-and-filter player: it consumes the sequence of
//! outcomes an external decoder produced, filters every decoded frame per
//! channel with state carried across frame boundaries, and accumulates
//! one output buffer. A decode fault stops the run and returns the
//! buffer gathered so far with a `PartialDecode` signal; no fault
//! escapes the call. The decoder itself (opening the file, producing
//! frames) lives outside this crate.
use vstd::prelude::*;

verus! {

use crate::biquad::BiquadState;
use crate::block::{AudioBlock, widen_mono, widened_mono};
use crate::filter::{FilterBank, FilterSpec, bank_next, bank_out, filter_wf};
use crate::samples_in_range;

/// One outcome of asking the decoder for the next frame.
#[derive(Debug)]
pub enum DecodeEvent {
    /// A decoded frame of interleaved samples.
    Frame(AudioBlock),
    /// The stream ended normally.
    EndOfStream,
    /// The decoder failed; nothing further can be decoded.
    Fault,
}

/// How a decode run ended.
#[derive(Clone, Copy, Debug, PartialEq, Eq, Structural)]
pub enum DecodeStatus {
    /// Every frame was decoded and filtered.
    Complete,
    /// A decode fault stopped the run; the buffer holds what was
    /// decoded and filtered up to the fault.
    PartialDecode,
}

/// A frame the player accepts for a target channel count: well-formed,
/// in range, and either already in the target layout or mono (to be
/// duplicated). The size bound keeps the mono expansion representable.
pub open spec fn frame_ok(e: DecodeEvent, target: int) -> bool {
    e matches DecodeEvent::Frame(b) ==> {
        &&& b.wf()
        &&& samples_in_range(b.samples@)
        &&& (b.channels == target || b.channels == 1)
        &&& 2 * b.samples@.len() <= usize::MAX
    }
}

/// Every frame among the events is acceptable for the target layout.
pub open spec fn events_ok(events: Seq<DecodeEvent>, target: int) -> bool {
    forall|k: int| 0 <= k < events.len() ==> frame_ok(#[trigger] events[k], target)
}

/// A frame brought into the target layout: unchanged when it already has
/// the target's channels, duplicated into both channels when it is mono
/// and the target is stereo.
pub open spec fn prepared(b: AudioBlock, target: int) -> Seq<i64> {
    if b.channels == target {
        b.samples@
    } else {
        widened_mono(b.samples@)
    }
}

/// Zeroed per-channel delay registers for a fresh run.
pub open spec fn zero_states(n: int) -> Seq<BiquadState> {
    Seq::new(n as nat, |c: int| BiquadState { x1: 0i64, x2: 0i64, y1: 0i64, y2: 0i64 })
}

/// How a run over these events ends: complete at the end of the stream
/// or of the events, partial at the first fault.
pub open spec fn decode_status(events: Seq<DecodeEvent>) -> DecodeStatus
    decreases events.len(),
{
    if events.len() == 0 {
        DecodeStatus::Complete
    } else {
        match events[0] {
            DecodeEvent::Frame(_) => decode_status(events.drop_first()),
            DecodeEvent::EndOfStream => DecodeStatus::Complete,
            DecodeEvent::Fault => DecodeStatus::PartialDecode,
        }
    }
}

/// The filtered output a run accumulates: the concatenation of every
/// frame's filtered samples up to the first end or fault, with the
/// per-channel filter states threaded across frames.
pub open spec fn decode_out(
    filter: FilterSpec,
    target: int,
    states: Seq<BiquadState>,
    events: Seq<DecodeEvent>,
) -> Seq<int>
    decreases events.len(),
{
    if events.len() == 0 {
        Seq::empty()
    } else {
        match events[0] {
            DecodeEvent::Frame(b) => bank_out(filter, target, states, prepared(b, target))
                + decode_out(
                filter,
                target,
                bank_next(filter, target, states, prepared(b, target)),
                events.drop_first(),
            ),
            DecodeEvent::EndOfStream => Seq::empty(),
            DecodeEvent::Fault => Seq::empty(),
        }
    }
}

/// The per-channel filter states after a run over these events.
pub open spec fn decode_states(
    filter: FilterSpec,
    target: int,
    states: Seq<BiquadState>,
    events: Seq<DecodeEvent>,
) -> Seq<BiquadState>
    decreases events.len(),
{
    if events.len() == 0 {
        states
    } else {
        match events[0] {
            DecodeEvent::Frame(b) => decode_states(
                filter,
                target,
                bank_next(filter, target, states, prepared(b, target)),
                events.drop_first(),
            ),
            DecodeEvent::EndOfStream => states,
            DecodeEvent::Fault => states,
        }
    }
}

/// True when every event in the sequence is a decoded frame.
pub open spec fn all_frames(events: Seq<DecodeEvent>) -> bool {
    forall|k: int| 0 <= k < events.len() ==> (#[trigger] events[k]) matches DecodeEvent::Frame(_)
}

/// Appending one more frame to an uninterrupted run extends the output
/// by that frame's filtered samples and advances the states once more.
proof fn lemma_decode_push_frame(
    filter: FilterSpec,
    target: int,
    states: Seq<BiquadState>,
    xs: Seq<DecodeEvent>,
    b: AudioBlock,
)
    requires
        all_frames(xs),
    ensures
        decode_out(filter, target, states, xs.push(DecodeEvent::Frame(b))) == decode_out(
            filter,
            target,
            states,
            xs,
        ) + bank_out(
            filter,
            target,
            decode_states(filter, target, states, xs),
            prepared(b, target),
        ),
        decode_states(filter, target, states, xs.push(DecodeEvent::Frame(b))) == bank_next(
            filter,
            target,
            decode_states(filter, target, states, xs),
            prepared(b, target),
        ),
    decreases xs.len(),
{
    let e = DecodeEvent::Frame(b);
    reveal_with_fuel(decode_out, 2);
    reveal_with_fuel(decode_states, 2);
    if xs.len() == 0 {
        assert(xs.push(e)[0] == e);
        assert(xs.push(e).drop_first() =~= Seq::<DecodeEvent>::empty());
        assert(decode_out(filter, target, states, xs) =~= Seq::<int>::empty());
        assert(decode_out(filter, target, states, xs.push(e)) =~= bank_out(
            filter,
            target,
            states,
            prepared(b, target),
        ));
    } else {
        assert(xs[0] matches DecodeEvent::Frame(_));
        let b0 = xs[0]->Frame_0;
        let s1 = bank_next(filter, target, states, prepared(b0, target));
        assert(all_frames(xs.drop_first())) by {
            assert(forall|k: int|
                0 <= k < xs.drop_first().len() ==> #[trigger] xs.drop_first()[k] == xs[k + 1]);
        }
        lemma_decode_push_frame(filter, target, s1, xs.drop_first(), b);
        assert(xs.push(e)[0] == xs[0]);
        assert(xs.push(e).drop_first() =~= xs.drop_first().push(e));
        assert(bank_out(filter, target, states, prepared(b0, target)) + (decode_out(
            filter,
            target,
            s1,
            xs.drop_first(),
        ) + bank_out(
            filter,
            target,
            decode_states(filter, target, s1, xs.drop_first()),
            prepared(b, target),
        )) =~= (bank_out(filter, target, states, prepared(b0, target)) + decode_out(
            filter,
            target,
            s1,
            xs.drop_first(),
        )) + bank_out(
            filter,
            target,
            decode_states(filter, target, s1, xs.drop_first()),
            prepared(b, target),
        ));
    }
}

/// A run stops at the first event that is not a frame: later events
/// contribute nothing, and the status is partial exactly when that
/// stopping event is a fault.
pub proof fn lemma_decode_stop(
    filter: FilterSpec,
    target: int,
    states: Seq<BiquadState>,
    events: Seq<DecodeEvent>,
    n: int,
)
    requires
        0 <= n <= events.len(),
        all_frames(events.take(n)),
        n == events.len() || !((events[n]) matches DecodeEvent::Frame(_)),
    ensures
        decode_out(filter, target, states, events) == decode_out(
            filter,
            target,
            states,
            events.take(n),
        ),
        decode_status(events) == (if n < events.len() && (events[n] matches DecodeEvent::Fault) {
            DecodeStatus::PartialDecode
        } else {
            DecodeStatus::Complete
        }),
    decreases n,
{
    if n == 0 {
        assert(events.take(0) =~= Seq::<DecodeEvent>::empty());
        if events.len() > 0 {
            assert(decode_out(filter, target, states, events) =~= Seq::<int>::empty());
        }
    } else {
        assert(events.take(n)[0] == events[0]);
        assert(events[0] matches DecodeEvent::Frame(_));
        let b0 = events[0]->Frame_0;
        let s1 = bank_next(filter, target, states, prepared(b0, target));
        assert(events.drop_first().take(n - 1) =~= events.take(n).drop_first());
        assert(all_frames(events.drop_first().take(n - 1))) by {
            assert(forall|k: int|
                0 <= k < n - 1 ==> #[trigger] events.drop_first().take(n - 1)[k] == events.take(
                    n,
                )[k + 1]);
        }
        lemma_decode_stop(filter, target, s1, events.drop_first(), n - 1);
        assert(decode_out(filter, target, states, events.take(n)) == bank_out(
            filter,
            target,
            states,
            prepared(b0, target),
        ) + decode_out(filter, target, s1, events.take(n).drop_first()));
    }
}

/// Drives one full offline run: filters every decoded frame per channel
/// (duplicating mono sources into a stereo target), accumulates the
/// output, and stops at the end of the stream or at the first fault. On
/// a fault the buffer gathered so far is returned with `PartialDecode`;
/// no fault escapes.
pub fn run_decoded(filter: FilterSpec, target_channels: usize, events: &Vec<DecodeEvent>) -> (r: (
    AudioBlock,
    DecodeStatus,
))
    requires
        filter_wf(filter),
        1 <= target_channels <= 2,
        events_ok(events@, target_channels as int),
    ensures
        r.0.wf(),
        r.0.channels == target_channels,
        r.1 == decode_status(events@),
        r.0.samples@.len() == decode_out(
            filter,
            target_channels as int,
            zero_states(target_channels as int),
            events@,
        ).len(),
        forall|i: int| 0 <= i < r.0.samples@.len() ==> #[trigger] r.0.samples@[i] as int
            == decode_out(
            filter,
            target_channels as int,
            zero_states(target_channels as int),
            events@,
        )[i],
{
    let ghost t = target_channels as int;
    let ghost s0 = zero_states(t);
    let mut bank = FilterBank::new(filter, target_channels);
    proof {
        assert(bank.states@ =~= s0);
    }
    let mut buffer: Vec<i64> = Vec::new();
    let n = events.len();
    let mut i: usize = 0;
    let mut stopped = false;
    let mut fault = false;
    while i < n
        invariant
            n == events@.len(),
            filter_wf(filter),
            1 <= target_channels <= 2,
            t == target_channels as int,
            s0 == zero_states(t),
            events_ok(events@, t),
            bank.wf(),
            bank.filter == filter,
            bank.channels == target_channels,
            i <= n,
            all_frames(events@.take(i as int)),
            bank.states@ == decode_states(filter, t, s0, events@.take(i as int)),
            buffer@.len() == decode_out(filter, t, s0, events@.take(i as int)).len(),
            buffer@.len() as int % t == 0,
            forall|p: int| 0 <= p < buffer@.len() ==> #[trigger] buffer@[p] as int == decode_out(
                filter,
                t,
                s0,
                events@.take(i as int),
            )[p],
            stopped ==> i < n && !(events@[i as int] matches DecodeEvent::Frame(_)),
            stopped ==> (fault <==> events@[i as int] matches DecodeEvent::Fault),
            !stopped ==> !fault,
        ensures
            !stopped ==> i == n,
        decreases n - i,
    {
        match &events[i] {
            DecodeEvent::Frame(b) => {
                proof {
                    assert(frame_ok(events@[i as int], t));
                }
                let out = if b.channels == target_channels {
                    bank.process_block(&b.samples)
                } else {
                    let widened = widen_mono(&b.samples);
                    proof {
                        vstd::arithmetic::div_mod::lemma_mod_multiples_basic(
                            b.samples@.len() as int,
                            target_channels as int,
                        );
                        assert(widened@.len() as int == b.samples@.len() as int * (
                        target_channels as int));
                    }
                    bank.process_block(&widened)
                };
                let ghost prep = prepared(*b, t);
                proof {
                    assert(out@.len() as int % t == 0) by (nonlinear_arith)
                        requires
                            out@.len() == prep.len(),
                            prep.len() == if b.channels == t {
                                b.samples@.len() as int
                            } else {
                                2 * b.samples@.len() as int
                            },
                            b.samples@.len() as int % (b.channels as int) == 0,
                            b.channels == t || (b.channels == 1 && 1 <= t <= 2),
                            1 <= t <= 2,
                    ;
                }
                let ghost buf0 = buffer@;
                let m = out.len();
                let mut k: usize = 0;
                while k < m
                    invariant
                        m == out@.len(),
                        k <= m,
                        buffer@.len() == buf0.len() + k,
                        forall|p: int| 0 <= p < buf0.len() ==> #[trigger] buffer@[p] == buf0[p],
                        forall|p: int| 0 <= p < k ==> #[trigger] buffer@[buf0.len() + p]
                            == out@[p],
                    decreases m - k,
                {
                    buffer.push(out[k]);
                    k = k + 1;
                }
                proof {
                    lemma_decode_push_frame(filter, t, s0, events@.take(i as int), *b);
                    assert(events@.take(i + 1) =~= events@.take(i as int).push(
                        DecodeEvent::Frame(*b),
                    ));
                    assert(all_frames(events@.take(i + 1))) by {
                        assert(forall|k2: int|
                            0 <= k2 < i ==> #[trigger] events@.take(i + 1)[k2] == events@.take(
                                i as int,
                            )[k2]);
                        assert(events@.take(i + 1)[i as int] == DecodeEvent::Frame(*b));
                    }
                    let pre = decode_out(filter, t, s0, events@.take(i as int));
                    let added = bank_out(
                        filter,
                        t,
                        decode_states(filter, t, s0, events@.take(i as int)),
                        prep,
                    );
                    assert(decode_out(filter, t, s0, events@.take(i + 1)) == pre + added);
                    assert(added.len() == prep.len());
                    assert forall|p: int| 0 <= p < buffer@.len() implies #[trigger] buffer@[p] as int
                        == decode_out(filter, t, s0, events@.take(i + 1))[p] by {
                        if p < buf0.len() {
                            assert((pre + added)[p] == pre[p]);
                            assert(buffer@[p] == buf0[p]);
                        } else {
                            assert((pre + added)[p] == added[p - pre.len()]);
                            assert(buffer@[buf0.len() + (p - buf0.len())] == out@[p
                                - buf0.len()]);
                        }
                    }
                }
                i = i + 1;
            },
            DecodeEvent::EndOfStream => {
                stopped = true;
                break;
            },
            DecodeEvent::Fault => {
                stopped = true;
                fault = true;
                break;
            },
        }
    }
    proof {
        if stopped {
            lemma_decode_stop(filter, t, s0, events@, i as int);
        } else {
            assert(i == n);
            assert(events@.take(n as int) =~= events@);
            lemma_decode_stop(filter, t, s0, events@, n as int);
        }
    }
    let status = if fault {
        DecodeStatus::PartialDecode
    } else {
        DecodeStatus::Complete
    };
    let block = AudioBlock::new(buffer, target_channels);
    (block, status)
}

} // verus!
