//! The stream session lifecycle and the per-block work of its two
//! threads. A session owns the running flag and the filter in use;
//! exactly one capture thread and one render thread exist while it runs.
//! The capture side filters each delivered block and enqueues it with a
//! drop-oldest policy; the render side answers each device request from
//! the queue, emitting silence on underrun.
//!
//! The device I/O itself (opening streams, spawning and joining the OS
//! threads) is performed by the caller around this state machine: `start`
//! and `stop` decide, and report as an action, what the caller must do.
use vstd::prelude::*;

verus! {

use crate::AudioError;
use crate::block::AudioBlock;
use crate::device::AudioDevice;
use crate::filter::{FilterBank, FilterSpec, bank_next, bank_out, filter_wf};
use crate::queue::BlockQueue;
use crate::samples_in_range;

/// What the caller must do after a successful `start`.
#[derive(Clone, Copy, Debug, PartialEq, Eq, Structural)]
pub enum StartAction {
    /// Spawn exactly one capture thread and one render thread.
    SpawnThreads,
    /// The session was already running; spawn nothing.
    AlreadyRunning,
}

/// What the caller must do after `stop`.
#[derive(Clone, Copy, Debug, PartialEq, Eq, Structural)]
pub enum StopAction {
    /// Join the capture thread and the render thread; both observe the
    /// cleared running flag and exit within one polling interval.
    JoinThreads,
    /// The session was already idle; nothing to join.
    AlreadyIdle,
}

/// Lifecycle of one capture-filter-render session for a fixed pair of
/// devices. Its running flag is only ever changed through `start`,
/// `stop` and `note_fault`, never by external mutation.
#[derive(Debug)]
pub struct StreamSession {
    running: bool,
    faulted: bool,
    filter: Option<FilterSpec>,
    input: AudioDevice,
    output: AudioDevice,
}

impl StreamSession {
    /// True while the session's threads are running.
    pub closed spec fn is_running_spec(self) -> bool {
        self.running
    }

    /// True when a thread exited unexpectedly and the fault has not yet
    /// been reported through `start` or `stop`.
    pub closed spec fn is_faulted_spec(self) -> bool {
        self.faulted
    }

    /// The configured filter, if one was set.
    pub closed spec fn filter_spec(self) -> Option<FilterSpec> {
        self.filter
    }

    /// The input device the session was built for.
    pub closed spec fn input_spec(self) -> AudioDevice {
        self.input
    }

    /// The output device the session was built for.
    pub closed spec fn output_spec(self) -> AudioDevice {
        self.output
    }

    /// A well-formed session: a fault implies the threads are gone, and
    /// any configured filter is valid.
    pub closed spec fn wf(self) -> bool {
        &&& (self.faulted ==> !self.running)
        &&& (self.filter matches Some(f) ==> filter_wf(f))
    }

    /// A running well-formed session carries no pending fault: a fault
    /// clears the running flag in the same step that records it.
    pub proof fn lemma_running_unfaulted(self)
        requires
            self.wf(),
            self.is_running_spec(),
        ensures
            !self.is_faulted_spec(),
    {
    }

    /// Number of live session threads: one capture and one render thread
    /// while running, none otherwise.
    pub open spec fn thread_count(self) -> int {
        if self.is_running_spec() {
            2
        } else {
            0
        }
    }

    /// The `start` transition: from a faulted session it reports the
    /// fault and idles; from a running one it is a no-op; from an idle
    /// one it starts the threads when the devices opened, and stays idle
    /// reporting the failure when they did not.
    pub closed spec fn start_step(self, devices_ok: bool) -> (StreamSession, Result<
        StartAction,
        AudioError,
    >) {
        if self.faulted {
            (
                StreamSession { running: false, faulted: false, ..self },
                Err(AudioError::PipelineFault),
            )
        } else if self.running {
            (self, Ok(StartAction::AlreadyRunning))
        } else if devices_ok {
            (StreamSession { running: true, ..self }, Ok(StartAction::SpawnThreads))
        } else {
            (self, Err(AudioError::DeviceOpenFailed))
        }
    }

    /// The `stop` transition: always idles; reports a pending fault;
    /// asks for a join exactly when threads were running.
    pub closed spec fn stop_step(self) -> (StreamSession, Result<StopAction, AudioError>) {
        if self.faulted {
            (StreamSession { running: false, faulted: false, ..self }, Err(AudioError::PipelineFault))
        } else if self.running {
            (StreamSession { running: false, ..self }, Ok(StopAction::JoinThreads))
        } else {
            (self, Ok(StopAction::AlreadyIdle))
        }
    }

    /// An idle session for the given device pair, with no filter set.
    pub fn new(input: AudioDevice, output: AudioDevice) -> (s: StreamSession)
        ensures
            s.wf(),
            !s.is_running_spec(),
            !s.is_faulted_spec(),
            s.filter_spec() is None,
            s.input_spec() == input,
            s.output_spec() == output,
    {
        StreamSession { running: false, faulted: false, filter: None, input, output }
    }

    /// Configures the filter. It takes effect at the next `start`: a
    /// running session keeps using the clone it took when it started.
    pub fn set_filter(&mut self, filter: FilterSpec)
        requires
            old(self).wf(),
            filter_wf(filter),
        ensures
            final(self).wf(),
            final(self).filter_spec() == Some(filter),
            final(self).is_running_spec() == old(self).is_running_spec(),
            final(self).is_faulted_spec() == old(self).is_faulted_spec(),
            final(self).input_spec() == old(self).input_spec(),
            final(self).output_spec() == old(self).output_spec(),
    {
        self.filter = Some(filter);
    }

    /// True while the session's threads are running.
    pub fn is_running(&self) -> (r: bool)
        ensures
            r == self.is_running_spec(),
    {
        self.running
    }

    /// The configured filter, to be cloned by the capture side at start
    /// and treated as immutable for the session's lifetime.
    pub fn current_filter(&self) -> (r: Option<&FilterSpec>)
        ensures
            r is Some <==> self.filter_spec() is Some,
            r matches Some(f) ==> self.filter_spec() == Some(*f),
    {
        self.filter.as_ref()
    }

    /// Starts the session. `devices_ok` reports whether the caller could
    /// open both device streams; on an already-running session the
    /// argument is ignored and nothing changes. Starting is idempotent:
    /// a second `start` on a running session spawns nothing.
    pub fn start(&mut self, devices_ok: bool) -> (r: Result<StartAction, AudioError>)
        requires
            old(self).wf(),
        ensures
            final(self).wf(),
            !final(self).is_faulted_spec(),
            ({
                let (s2, r2) = old(self).start_step(devices_ok);
                *final(self) == s2 && r == r2
            }),
            old(self).is_faulted_spec() ==> r == Err::<StartAction, AudioError>(
                AudioError::PipelineFault,
            ) && !final(self).is_running_spec(),
            !old(self).is_faulted_spec() && old(self).is_running_spec() ==> r == Ok::<
                StartAction,
                AudioError,
            >(StartAction::AlreadyRunning) && *final(self) == *old(self),
            !old(self).is_faulted_spec() && !old(self).is_running_spec() && devices_ok ==> r
                == Ok::<StartAction, AudioError>(StartAction::SpawnThreads) && final(self).is_running_spec(),
            !old(self).is_faulted_spec() && !old(self).is_running_spec() && !devices_ok ==> r
                == Err::<StartAction, AudioError>(AudioError::DeviceOpenFailed)
                && !final(self).is_running_spec(),
            final(self).filter_spec() == old(self).filter_spec(),
            final(self).input_spec() == old(self).input_spec(),
            final(self).output_spec() == old(self).output_spec(),
    {
        if self.faulted {
            self.running = false;
            self.faulted = false;
            Err(AudioError::PipelineFault)
        } else if self.running {
            Ok(StartAction::AlreadyRunning)
        } else if devices_ok {
            self.running = true;
            Ok(StartAction::SpawnThreads)
        } else {
            Err(AudioError::DeviceOpenFailed)
        }
    }

    /// Stops the session. Always returns with the session idle and no
    /// threads left: the caller joins both threads exactly when
    /// `JoinThreads` is returned. A pending fault is reported here.
    pub fn stop(&mut self) -> (r: Result<StopAction, AudioError>)
        requires
            old(self).wf(),
        ensures
            final(self).wf(),
            !final(self).is_running_spec(),
            !final(self).is_faulted_spec(),
            final(self).thread_count() == 0,
            ({
                let (s2, r2) = old(self).stop_step();
                *final(self) == s2 && r == r2
            }),
            old(self).is_faulted_spec() ==> r == Err::<StopAction, AudioError>(
                AudioError::PipelineFault,
            ),
            !old(self).is_faulted_spec() ==> r == Ok::<StopAction, AudioError>(
                if old(self).is_running_spec() {
                    StopAction::JoinThreads
                } else {
                    StopAction::AlreadyIdle
                },
            ),
            final(self).filter_spec() == old(self).filter_spec(),
            final(self).input_spec() == old(self).input_spec(),
            final(self).output_spec() == old(self).output_spec(),
    {
        if self.faulted {
            self.running = false;
            self.faulted = false;
            Err(AudioError::PipelineFault)
        } else if self.running {
            self.running = false;
            Ok(StopAction::JoinThreads)
        } else {
            Ok(StopAction::AlreadyIdle)
        }
    }

    /// Records that a session thread exited unexpectedly: `is_running`
    /// turns false at once, and the fault is reported on the next
    /// `start` or `stop` call, not silently swallowed.
    pub fn note_fault(&mut self)
        requires
            old(self).wf(),
            old(self).is_running_spec(),
        ensures
            final(self).wf(),
            !final(self).is_running_spec(),
            final(self).is_faulted_spec(),
            final(self).filter_spec() == old(self).filter_spec(),
            final(self).input_spec() == old(self).input_spec(),
            final(self).output_spec() == old(self).output_spec(),
    {
        self.running = false;
        self.faulted = true;
    }
}

/// Idempotence of `start`: two starts in a row on a non-stopped session
/// spawn exactly one capture thread and one render thread — the first
/// start spawns the pair, the second is a no-op — and the session is
/// running in between.
pub proof fn lemma_start_idempotent(s0: StreamSession, ok2: bool)
    requires
        s0.wf(),
        !s0.is_running_spec(),
        !s0.is_faulted_spec(),
    ensures
        ({
            let (s1, r1) = s0.start_step(true);
            let (s2, r2) = s1.start_step(ok2);
            &&& r1 == Ok::<StartAction, AudioError>(StartAction::SpawnThreads)
            &&& s1.is_running_spec()
            &&& s1.thread_count() == 2
            &&& r2 == Ok::<StartAction, AudioError>(StartAction::AlreadyRunning)
            &&& s2 == s1
            &&& s2.thread_count() == 2
        }),
{
}

/// `stop` always idles the session: afterwards `is_running` is false and
/// no thread is left, and the caller is told to join exactly when
/// threads were running.
pub proof fn lemma_stop_halts(s0: StreamSession)
    requires
        s0.wf(),
    ensures
        ({
            let (s1, r) = s0.stop_step();
            &&& !s1.is_running_spec()
            &&& s1.thread_count() == 0
            &&& (r == Ok::<StopAction, AudioError>(StopAction::JoinThreads) <==> s0.is_running_spec())
        }),
{
}

/// `stop` right after `start` leaks nothing: whatever the start did, the
/// session ends idle with no threads, and a join is requested exactly
/// when the start had spawned the pair.
pub proof fn lemma_stop_after_start(s0: StreamSession, devices_ok: bool)
    requires
        s0.wf(),
    ensures
        ({
            let (s1, r1) = s0.start_step(devices_ok);
            let (s2, r2) = s1.stop_step();
            &&& !s2.is_running_spec()
            &&& s2.thread_count() == 0
            &&& (r1 == Ok::<StartAction, AudioError>(StartAction::SpawnThreads) ==> r2 == Ok::<
                StopAction,
                AudioError,
            >(StopAction::JoinThreads))
        }),
{
}

/// The capture side's work for one delivered block: filter it through
/// the session's bank and enqueue it, dropping the oldest queued block
/// when the queue is full. Returns the dropped block, if any.
pub fn capture_block(bank: &mut FilterBank, queue: &mut BlockQueue, raw: &Vec<i64>) -> (dropped:
    Option<AudioBlock>)
    requires
        old(bank).wf(),
        old(queue).wf(),
        samples_in_range(raw@),
        raw@.len() as int % (old(bank).channels as int) == 0,
    ensures
        final(bank).wf(),
        final(bank).filter == old(bank).filter,
        final(bank).channels == old(bank).channels,
        final(bank).states@ == bank_next(
            old(bank).filter,
            old(bank).channels as int,
            old(bank).states@,
            raw@,
        ),
        final(queue).wf(),
        final(queue).capacity_spec() == old(queue).capacity_spec(),
        ({
            let outspec = bank_out(
                old(bank).filter,
                old(bank).channels as int,
                old(bank).states@,
                raw@,
            );
            let c0 = old(queue).contents();
            let c1 = final(queue).contents();
            &&& c1.len() > 0
            &&& c1.last().channels == old(bank).channels
            &&& c1.last().samples@.len() == raw@.len()
            &&& forall|i: int| 0 <= i < raw@.len() ==> #[trigger] c1.last().samples@[i] as int
                == outspec[i]
            &&& (c0.len() < old(queue).capacity_spec() ==> c1 == c0.push(c1.last()) && dropped
                is None)
            &&& (c0.len() == old(queue).capacity_spec() ==> c1 == c0.drop_first().push(c1.last())
                && dropped == Some(c0[0]))
        }),
{
    let processed = bank.process_block(raw);
    let channels = bank.channels;
    let block = AudioBlock { samples: processed, channels };
    let ghost b = block;
    let dropped = queue.push_drop_oldest(block);
    proof {
        old(queue).lemma_wf_bound();
        let c0 = old(queue).contents();
        let c1 = queue.contents();
        if c0.len() < old(queue).capacity_spec() {
            assert(c1 == c0.push(b));
            assert(c1.last() == b);
        } else {
            assert(c1 == c0.drop_first().push(b));
            assert(c1.last() == b);
        }
    }
    dropped
}

/// The render side's answer to one device request: the oldest queued
/// block, truncated or zero-padded to the requested length; a zero
/// block of the requested length on underrun, never stale or
/// uninitialized memory.
pub fn render_block(queue: &mut BlockQueue, requested: usize) -> (out: Vec<i64>)
    requires
        old(queue).wf(),
    ensures
        final(queue).wf(),
        final(queue).capacity_spec() == old(queue).capacity_spec(),
        out@.len() == requested,
        old(queue).contents().len() == 0 ==> *final(queue) == *old(queue) && forall|i: int|
            0 <= i < requested ==> #[trigger] out@[i] == 0,
        old(queue).contents().len() > 0 ==> final(queue).contents() == old(
            queue,
        ).contents().drop_first() && forall|i: int|
            0 <= i < requested ==> #[trigger] out@[i] == ({
                let b = old(queue).contents()[0];
                if i < b.samples@.len() {
                    b.samples@[i]
                } else {
                    0i64
                }
            }),
{
    let mut out: Vec<i64> = Vec::new();
    match queue.try_pop() {
        None => {
            let mut i: usize = 0;
            while i < requested
                invariant
                    i <= requested,
                    out@.len() == i,
                    forall|p: int| 0 <= p < i ==> #[trigger] out@[p] == 0,
                decreases requested - i,
            {
                out.push(0);
                i = i + 1;
            }
        },
        Some(block) => {
            let have = block.samples.len();
            let mut i: usize = 0;
            while i < requested
                invariant
                    i <= requested,
                    have == block.samples@.len(),
                    out@.len() == i,
                    forall|p: int| 0 <= p < i ==> #[trigger] out@[p] == (if p
                        < block.samples@.len() {
                        block.samples@[p]
                    } else {
                        0i64
                    }),
                decreases requested - i,
            {
                if i < have {
                    out.push(block.samples[i]);
                } else {
                    out.push(0);
                }
                i = i + 1;
            }
        },
    }
    out
}

} // verus!
