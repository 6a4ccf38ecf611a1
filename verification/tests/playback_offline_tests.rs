use virtual_crossover::biquad::{BiquadKind, BiquadState, apply_biquad, make_biquad};
use virtual_crossover::block::{AudioBlock, deinterleave, reinterleave, widen_mono};
use virtual_crossover::filter::FilterSpec;
use virtual_crossover::offline::{DecodeEvent, DecodeStatus, run_decoded};
use virtual_crossover::playback::{PlaybackHandle, apply_gain};

#[test]
fn volume_clamps_low_and_high() {
    let mut h = PlaybackHandle::new();
    // a request of -0.5 (in thousandths) clamps to silence
    h.set_volume(-500);
    assert_eq!(h.volume(), 0);
    // a request of 1.7 clamps to full volume
    h.set_volume(1700);
    assert_eq!(h.volume(), 1000);
    // an in-range request is taken as is
    h.set_volume(700);
    assert_eq!(h.volume(), 700);
}

#[test]
fn gain_scales_samples_exactly() {
    let samples: Vec<i64> = vec![1000, -1000, 65536, -3, 0];
    assert_eq!(apply_gain(&samples, 1000), samples);
    assert_eq!(apply_gain(&samples, 0), vec![0, 0, 0, 0, 0]);
    // half volume truncates toward zero
    assert_eq!(apply_gain(&samples, 500), vec![500, -500, 32768, -1, 0]);
}

#[test]
fn playback_queue_is_fifo_and_stop_clears() {
    let mut h = PlaybackHandle::new();
    h.enqueue(AudioBlock::new(vec![1, 2], 1));
    h.enqueue(AudioBlock::new(vec![3, 4], 1));
    assert_eq!(h.queue_len(), 2);
    assert_eq!(h.take_next().unwrap().samples, vec![1, 2]);
    h.enqueue(AudioBlock::new(vec![5, 6], 1));
    h.stop();
    assert_eq!(h.queue_len(), 0);
    assert!(h.take_next().is_none());
}

#[test]
fn pause_withholds_blocks_until_resume() {
    let mut h = PlaybackHandle::new();
    h.enqueue(AudioBlock::new(vec![9], 1));
    h.pause();
    assert!(h.is_paused());
    assert!(h.take_next().is_none());
    assert_eq!(h.queue_len(), 1);
    h.resume();
    assert!(!h.is_paused());
    assert_eq!(h.take_next().unwrap().samples, vec![9]);
}

#[test]
fn offline_partial_decode_returns_prefix_and_signal() {
    let filter = FilterSpec::new_fir(vec![1]).unwrap();
    let events = vec![
        DecodeEvent::Frame(AudioBlock::new(vec![1, 2], 2)),
        DecodeEvent::Frame(AudioBlock::new(vec![3, 4], 2)),
        DecodeEvent::Fault,
        DecodeEvent::Frame(AudioBlock::new(vec![100, 100], 2)),
    ];
    let (block, status) = run_decoded(filter, 2, &events);
    assert_eq!(status, DecodeStatus::PartialDecode);
    assert_eq!(block.channels, 2);
    assert_eq!(block.samples, vec![1, 2, 3, 4]);
}

#[test]
fn offline_complete_run_concatenates_all_frames() {
    let filter = FilterSpec::new_fir(vec![3]).unwrap();
    let events = vec![
        DecodeEvent::Frame(AudioBlock::new(vec![1, -1], 1)),
        DecodeEvent::Frame(AudioBlock::new(vec![2], 1)),
        DecodeEvent::EndOfStream,
    ];
    let (block, status) = run_decoded(filter, 1, &events);
    assert_eq!(status, DecodeStatus::Complete);
    assert_eq!(block.samples, vec![3, -3, 6]);
}

#[test]
fn offline_empty_event_list_is_complete_and_empty() {
    let filter = FilterSpec::new_fir(vec![1]).unwrap();
    let (block, status) = run_decoded(filter, 1, &Vec::new());
    assert_eq!(status, DecodeStatus::Complete);
    assert!(block.samples.is_empty());
}

#[test]
fn offline_mono_source_is_duplicated_into_stereo_target() {
    let filter = FilterSpec::new_fir(vec![1]).unwrap();
    let events = vec![DecodeEvent::Frame(AudioBlock::new(vec![5, 6], 1)), DecodeEvent::EndOfStream];
    let (block, status) = run_decoded(filter, 2, &events);
    assert_eq!(status, DecodeStatus::Complete);
    assert_eq!(block.channels, 2);
    assert_eq!(block.samples, vec![5, 5, 6, 6]);
}

#[test]
fn offline_mono_fir_gives_identical_stereo_channels() {
    // a mono source into a stereo target: both output channels of every
    // frame must equal the filtered mono channel
    let filter = FilterSpec::new_fir(vec![1, 1]).unwrap();
    let events = vec![DecodeEvent::Frame(AudioBlock::new(vec![1, 0], 1)), DecodeEvent::EndOfStream];
    let (block, status) = run_decoded(filter, 2, &events);
    assert_eq!(status, DecodeStatus::Complete);
    // mono [1, 0] filtered by [1, 1] is [1, 1]; duplicated into both channels
    assert_eq!(block.samples, vec![1, 1, 1, 1]);
    for f in 0..2 {
        assert_eq!(block.samples[2 * f], block.samples[2 * f + 1]);
    }
}

#[test]
fn offline_stereo_fir_filters_each_channel_independently() {
    let filter = FilterSpec::new_fir(vec![1, 1]).unwrap();
    // left channel [1, 0], right channel [10, 20]
    let events = vec![
        DecodeEvent::Frame(AudioBlock::new(vec![1, 10, 0, 20], 2)),
        DecodeEvent::EndOfStream,
    ];
    let (block, status) = run_decoded(filter, 2, &events);
    assert_eq!(status, DecodeStatus::Complete);
    // per channel: [1, 0] -> [1, 1]; [10, 20] -> [10, 30]
    assert_eq!(block.samples, vec![1, 10, 1, 30]);
}

#[test]
fn offline_biquad_state_carries_across_frame_boundaries() {
    let co = make_biquad(BiquadKind::LowPass, 2000, 48000, 1000).unwrap();
    // filtering two frames must equal filtering their concatenation
    let input: Vec<i64> = vec![100000, 50000, -25000, 12500, 7777, -4444];
    let mut st = BiquadState::new();
    let expected: Vec<i64> = input.iter().map(|&x| apply_biquad(&co, &mut st, x)).collect();
    let events = vec![
        DecodeEvent::Frame(AudioBlock::new(input[..4].to_vec(), 1)),
        DecodeEvent::Frame(AudioBlock::new(input[4..].to_vec(), 1)),
        DecodeEvent::EndOfStream,
    ];
    let (block, status) = run_decoded(FilterSpec::Biquad { coeffs: co }, 1, &events);
    assert_eq!(status, DecodeStatus::Complete);
    assert_eq!(block.samples, expected);
}

#[test]
fn stereo_biquad_keeps_channels_isolated() {
    let co = make_biquad(BiquadKind::LowPass, 2000, 48000, 1000).unwrap();
    // right channel silent: it must stay exactly silent after filtering
    let interleaved: Vec<i64> = vec![100000, 0, 50000, 0, -25000, 0];
    let events = vec![
        DecodeEvent::Frame(AudioBlock::new(interleaved.clone(), 2)),
        DecodeEvent::EndOfStream,
    ];
    let (block, _) = run_decoded(FilterSpec::Biquad { coeffs: co }, 2, &events);
    let mut st = BiquadState::new();
    let left: Vec<i64> =
        vec![100000i64, 50000, -25000].iter().map(|&x| apply_biquad(&co, &mut st, x)).collect();
    assert_eq!(block.samples.len(), 6);
    for f in 0..3 {
        assert_eq!(block.samples[2 * f], left[f]);
        assert_eq!(block.samples[2 * f + 1], 0);
    }
}

#[test]
fn deinterleave_then_reinterleave_round_trips() {
    let samples: Vec<i64> = vec![1, 10, 2, 20, 3, 30];
    let chans = deinterleave(&samples, 2);
    assert_eq!(chans.len(), 2);
    assert_eq!(chans[0], vec![1, 2, 3]);
    assert_eq!(chans[1], vec![10, 20, 30]);
    let back = reinterleave(&chans, 3);
    assert_eq!(back, samples);
}

#[test]
fn widen_mono_duplicates_each_frame() {
    let out = widen_mono(&vec![5, -6, 7]);
    assert_eq!(out, vec![5, 5, -6, -6, 7, 7]);
}
