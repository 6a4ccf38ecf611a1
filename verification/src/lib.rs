//! Core of a real-time audio crossover: FIR and biquad filtering over
//! fixed-point samples, a capture/render stream pipeline with a bounded
//! hand-off queue, a playback sink model, and an offline decode-and-filter
//! player. Device and decoder I/O live outside this crate; the logic here
//! consumes and produces plain sample values.
use vstd::prelude::*;

pub mod api;
pub mod arith;
pub mod biquad;
pub mod block;
pub mod device;
pub mod filter;
pub mod offline;
pub mod playback;
pub mod queue;
pub mod session;

verus! {

/// Samples are fixed-point values; a well-formed sample lies in
/// `[-SAMPLE_LIMIT, SAMPLE_LIMIT]`.
pub const SAMPLE_LIMIT: i64 = 0x8000_0000;

/// FIR tap magnitudes are bounded so that a full convolution sum of
/// `MAX_TAPS` terms stays within `i64`.
pub const TAP_LIMIT: i64 = 0x8000;

/// Upper bound on the number of FIR taps a filter may carry.
pub const MAX_TAPS: usize = 0x8000;

/// Errors surfaced by construction and lifecycle operations. Routine
/// conditions (underrun, queue overflow, redundant start/stop) are not
/// errors and never appear here.
#[derive(Clone, Copy, Debug, PartialEq, Eq, Structural)]
pub enum AudioError {
    /// Opening an input or output device failed; the session stays idle.
    DeviceOpenFailed,
    /// Rejected filter parameters: empty or oversized taps, a cutoff at or
    /// above the Nyquist frequency, or a non-positive quality factor.
    InvalidFilterParameter,
    /// A stream thread exited unexpectedly while the session was running.
    PipelineFault,
}

/// True of a sample value that lies within the representable range.
pub open spec fn sample_in_range(v: int) -> bool {
    -SAMPLE_LIMIT <= v <= SAMPLE_LIMIT
}

/// True when every element of `s` is a well-formed sample.
pub open spec fn samples_in_range(s: Seq<i64>) -> bool {
    forall|i: int| 0 <= i < s.len() ==> sample_in_range(#[trigger] s[i] as int)
}

/// Saturates a value into the representable sample range.
pub open spec fn clamp_sample(v: int) -> int {
    if v > SAMPLE_LIMIT {
        SAMPLE_LIMIT as int
    } else if v < -SAMPLE_LIMIT {
        -SAMPLE_LIMIT as int
    } else {
        v
    }
}

} // verus!
