use virtual_crossover::AudioError;
use virtual_crossover::biquad::{BiquadCoeffs, BiquadKind, BiquadState, apply_biquad, make_biquad};
use virtual_crossover::filter::{FilterSpec, apply_fir};

#[test]
fn fir_output_length_matches_input() {
    let taps: Vec<i64> = vec![1, 2, 3];
    for n in [0usize, 1, 2, 5, 64] {
        let input: Vec<i64> = (0..n as i64).collect();
        let out = apply_fir(&taps, &input);
        assert_eq!(out.len(), input.len());
    }
}

#[test]
fn fir_identity_filter_returns_input() {
    let taps: Vec<i64> = vec![1];
    let input: Vec<i64> = vec![7, -3, 0, 42, -100000, 65536];
    let out = apply_fir(&taps, &input);
    assert_eq!(out, input);
}

#[test]
fn fir_impulse_response_is_taps_then_zeros() {
    let taps: Vec<i64> = vec![3, -2, 7];
    let mut impulse: Vec<i64> = vec![0; 6];
    impulse[0] = 1;
    let out = apply_fir(&taps, &impulse);
    assert_eq!(out, vec![3, -2, 7, 0, 0, 0]);
}

#[test]
fn fir_exact_convolution() {
    let taps: Vec<i64> = vec![1, 2];
    let input: Vec<i64> = vec![3, 4, 5];
    let out = apply_fir(&taps, &input);
    assert_eq!(out, vec![3, 10, 13]);
}

#[test]
fn fir_rejects_empty_taps() {
    let r = FilterSpec::new_fir(Vec::new());
    assert!(matches!(r, Err(AudioError::InvalidFilterParameter)));
}

#[test]
fn fir_rejects_oversized_tap_magnitude() {
    let r = FilterSpec::new_fir(vec![1, 40000]);
    assert!(matches!(r, Err(AudioError::InvalidFilterParameter)));
    let ok = FilterSpec::new_fir(vec![1, 32768]);
    assert!(ok.is_ok());
}

#[test]
fn fir_accepts_largest_tap_count_and_rejects_one_more() {
    let at_limit = FilterSpec::new_fir(vec![1; 0x8000]);
    assert!(at_limit.is_ok());
    let over = FilterSpec::new_fir(vec![1; 0x8001]);
    assert!(matches!(over, Err(AudioError::InvalidFilterParameter)));
}

#[test]
fn biquad_design_exact_bandpass() {
    let co = make_biquad(BiquadKind::BandPass, 1000, 48000, 1000).unwrap();
    assert_eq!(
        (co.b0, co.b1, co.b2, co.a1, co.a2),
        (4053, 0, -4053, -121900, 57428)
    );
}

#[test]
fn biquad_design_exact_lowpass() {
    let co = make_biquad(BiquadKind::LowPass, 1000, 48000, 1000).unwrap();
    assert_eq!(
        (co.b0, co.b1, co.b2, co.a1, co.a2),
        (265, 531, 265, -121900, 57428)
    );
}

#[test]
fn biquad_rejects_cutoff_at_or_above_nyquist() {
    assert!(matches!(
        make_biquad(BiquadKind::BandPass, 24000, 48000, 1000),
        Err(AudioError::InvalidFilterParameter)
    ));
    assert!(make_biquad(BiquadKind::BandPass, 23999, 48000, 1000).is_ok());
}

#[test]
fn biquad_rejects_nonpositive_q() {
    assert!(matches!(
        make_biquad(BiquadKind::LowPass, 1000, 48000, 0),
        Err(AudioError::InvalidFilterParameter)
    ));
    assert!(matches!(
        make_biquad(BiquadKind::LowPass, 1000, 48000, -5),
        Err(AudioError::InvalidFilterParameter)
    ));
}

#[test]
fn biquad_rejects_zero_sample_rate() {
    assert!(matches!(
        make_biquad(BiquadKind::HighPass, 0, 0, 1000),
        Err(AudioError::InvalidFilterParameter)
    ));
}

#[test]
fn biquad_step_exact_value_and_state() {
    let co = make_biquad(BiquadKind::BandPass, 1000, 48000, 1000).unwrap();
    let mut st = BiquadState::new();
    let y = apply_biquad(&co, &mut st, 65536);
    // acc = b0 * x = 4053 * 65536; rescaled by 65536 this is exactly 4053.
    assert_eq!(y, 4053);
    assert_eq!((st.x1, st.x2, st.y1, st.y2), (65536, 0, 4053, 0));
    let y2 = apply_biquad(&co, &mut st, 0);
    // acc = b1*65536 + b2*0 - a1*4053 - a2*0 = 121900 * 4053; truncated: 7538.
    assert_eq!(y2, 121900i64 * 4053 / 65536);
    assert_eq!((st.x1, st.x2, st.y1, st.y2), (0, 65536, y2, 4053));
}

#[test]
fn biquad_step_saturates_into_sample_range() {
    let co = BiquadCoeffs {
        b0: 262144, // gain of 4 at full scale overflows the sample range
        b1: 0,
        b2: 0,
        a1: 0,
        a2: 0,
    };
    let mut st = BiquadState::new();
    let y = apply_biquad(&co, &mut st, 0x8000_0000);
    assert_eq!(y, 0x8000_0000i64);
    let y_neg = apply_biquad(&co, &mut st, -0x8000_0000);
    assert_eq!(y_neg, -0x8000_0000i64);
}

fn peak_response(co: &BiquadCoeffs, freq: f64, rate: f64, amplitude: f64) -> f64 {
    let mut st = BiquadState::new();
    let n = rate as usize;
    let mut peak: i64 = 0;
    for i in 0..n {
        let phase = 2.0 * std::f64::consts::PI * freq * (i as f64) / rate;
        let x = (amplitude * phase.sin()).round() as i64;
        let y = apply_biquad(co, &mut st, x);
        // measure after the transient has settled
        if i > n / 2 && y.abs() > peak {
            peak = y.abs();
        }
    }
    peak as f64 / amplitude
}

#[test]
fn bandpass_passes_center_and_attenuates_decade_offsets() {
    let co = make_biquad(BiquadKind::BandPass, 1000, 48000, 2000).unwrap();
    let at_center = peak_response(&co, 1000.0, 48000.0, 1.0e6);
    let below = peak_response(&co, 100.0, 48000.0, 1.0e6);
    let above = peak_response(&co, 10000.0, 48000.0, 1.0e6);
    // within 3 dB of unity at the center frequency
    assert!(at_center > 0.7079, "center gain {at_center}");
    assert!(at_center < 1.4125, "center gain {at_center}");
    // at least 20 dB down one decade away on either side
    assert!(below < 0.1, "gain a decade below {below}");
    assert!(above < 0.1, "gain a decade above {above}");
}
