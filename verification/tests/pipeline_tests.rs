use virtual_crossover::AudioError;
use virtual_crossover::block::AudioBlock;
use virtual_crossover::device::{AudioDevice, DeviceDirection};
use virtual_crossover::filter::{FilterBank, FilterSpec};
use virtual_crossover::queue::BlockQueue;
use virtual_crossover::session::{
    StartAction, StopAction, StreamSession, capture_block, render_block,
};

fn mono_block(samples: Vec<i64>) -> AudioBlock {
    AudioBlock::new(samples, 1)
}

fn test_device(name: &str) -> AudioDevice {
    AudioDevice {
        name: name.to_string(),
        direction: DeviceDirection::Duplex,
        sample_rate_hz: 48000,
        channels: 2,
    }
}

#[test]
fn queue_keeps_fifo_order() {
    let mut q = BlockQueue::new(4);
    assert!(q.is_empty());
    q.push_drop_oldest(mono_block(vec![1]));
    q.push_drop_oldest(mono_block(vec![2]));
    assert_eq!(q.len(), 2);
    assert_eq!(q.try_pop().unwrap().samples, vec![1]);
    assert_eq!(q.try_pop().unwrap().samples, vec![2]);
    assert!(q.try_pop().is_none());
}

#[test]
fn queue_drops_oldest_when_full() {
    let mut q = BlockQueue::new(2);
    assert!(q.push_drop_oldest(mono_block(vec![1])).is_none());
    assert!(q.push_drop_oldest(mono_block(vec![2])).is_none());
    let dropped = q.push_drop_oldest(mono_block(vec![3]));
    assert_eq!(dropped.unwrap().samples, vec![1]);
    assert_eq!(q.len(), 2);
    assert_eq!(q.try_pop().unwrap().samples, vec![2]);
    assert_eq!(q.try_pop().unwrap().samples, vec![3]);
}

#[test]
fn render_underrun_yields_zero_block_of_requested_length() {
    let mut q = BlockQueue::new(4);
    let out = render_block(&mut q, 64);
    assert_eq!(out.len(), 64);
    assert!(out.iter().all(|&v| v == 0));
}

#[test]
fn render_truncates_and_pads_to_requested_length() {
    let mut q = BlockQueue::new(4);
    q.push_drop_oldest(mono_block(vec![1, 2, 3]));
    let padded = render_block(&mut q, 5);
    assert_eq!(padded, vec![1, 2, 3, 0, 0]);
    q.push_drop_oldest(mono_block(vec![4, 5, 6]));
    let truncated = render_block(&mut q, 2);
    assert_eq!(truncated, vec![4, 5]);
}

#[test]
fn capture_filters_and_enqueues_block() {
    let filter = FilterSpec::new_fir(vec![2]).unwrap();
    let mut bank = FilterBank::new(filter, 1);
    let mut q = BlockQueue::new(4);
    let dropped = capture_block(&mut bank, &mut q, &vec![5, 6, -7]);
    assert!(dropped.is_none());
    let b = q.try_pop().unwrap();
    assert_eq!(b.channels, 1);
    assert_eq!(b.samples, vec![10, 12, -14]);
}

#[test]
fn capture_fir_convolves_each_stereo_channel_separately() {
    let filter = FilterSpec::new_fir(vec![1, 1]).unwrap();
    let mut bank = FilterBank::new(filter, 2);
    let mut q = BlockQueue::new(4);
    // left channel [1, 0], right channel [0, 0]: the silent channel must
    // stay silent, with no smearing from its neighbour
    capture_block(&mut bank, &mut q, &vec![1, 0, 0, 0]);
    let b = q.try_pop().unwrap();
    assert_eq!(b.samples, vec![1, 0, 1, 0]);
}

#[test]
fn session_start_is_idempotent_while_running() {
    let mut s = StreamSession::new(test_device("in"), test_device("out"));
    assert!(!s.is_running());
    let first = s.start(true);
    assert_eq!(first, Ok(StartAction::SpawnThreads));
    assert!(s.is_running());
    let second = s.start(true);
    assert_eq!(second, Ok(StartAction::AlreadyRunning));
    assert!(s.is_running());
}

#[test]
fn session_stop_always_idles() {
    let mut s = StreamSession::new(test_device("in"), test_device("out"));
    // stop while idle is a benign no-op
    assert_eq!(s.stop(), Ok(StopAction::AlreadyIdle));
    assert!(!s.is_running());
    // stop immediately after start joins the freshly spawned pair
    assert_eq!(s.start(true), Ok(StartAction::SpawnThreads));
    assert_eq!(s.stop(), Ok(StopAction::JoinThreads));
    assert!(!s.is_running());
}

#[test]
fn session_device_open_failure_leaves_idle() {
    let mut s = StreamSession::new(test_device("in"), test_device("out"));
    let r = s.start(false);
    assert_eq!(r, Err(AudioError::DeviceOpenFailed));
    assert!(!s.is_running());
    // the failed attempt does not poison a later one
    assert_eq!(s.start(true), Ok(StartAction::SpawnThreads));
}

#[test]
fn session_fault_is_observed_and_reported() {
    let mut s = StreamSession::new(test_device("in"), test_device("out"));
    s.start(true).unwrap();
    s.note_fault();
    assert!(!s.is_running());
    assert_eq!(s.stop(), Err(AudioError::PipelineFault));
    // the fault is reported once; afterwards the session can start again
    assert_eq!(s.start(true), Ok(StartAction::SpawnThreads));
    assert!(s.is_running());
}

#[test]
fn session_set_filter_keeps_lifecycle_state() {
    let mut s = StreamSession::new(test_device("in"), test_device("out"));
    let filter = FilterSpec::new_fir(vec![1, 2, 1]).unwrap();
    s.set_filter(filter);
    assert!(!s.is_running());
}
