use wayvr_dictation::sample::{
    chunk_peak, ms_to_samples, sample_loudness, SILENCE_PEAK, WHISPER_SAMPLE_RATE,
};

fn bits(samples: &[f32]) -> Vec<u32> {
    samples.iter().map(|s| s.to_bits()).collect()
}

fn float_peak(samples: &[f32]) -> f32 {
    samples.iter().fold(0f32, |m, &s| m.max(s.abs()))
}

#[test]
fn ms_to_samples_converts_at_16khz() {
    assert_eq!(ms_to_samples(0), 0);
    assert_eq!(ms_to_samples(1000), 16_000);
    assert_eq!(ms_to_samples(250), 4_000); // min_audio_ms default
    assert_eq!(ms_to_samples(400), 6_400);
}

#[test]
fn constants_are_the_bit_patterns_they_stand_for() {
    assert_eq!(SILENCE_PEAK, 0.02f32.to_bits());
    assert_eq!(WHISPER_SAMPLE_RATE, 16_000);
}

#[test]
fn peak_agrees_with_floating_point() {
    let cases: Vec<Vec<f32>> = vec![
        vec![],
        vec![0.0],
        vec![-0.0],
        vec![0.25, -0.75, 0.5],
        vec![f32::MIN_POSITIVE, -f32::MIN_POSITIVE / 4.0],
        vec![f32::NAN],
        vec![f32::NAN, 0.125, -f32::NAN],
        vec![f32::INFINITY, 3.0],
        vec![f32::NEG_INFINITY],
        vec![f32::MAX, f32::MIN],
        vec![0.019_999, -0.02, 0.020_001],
    ];
    for case in cases {
        assert_eq!(chunk_peak(&bits(&case)), float_peak(&case).to_bits(), "{case:?}");
    }
}

#[test]
fn peak_agrees_with_floating_point_on_many_patterns() {
    let mut state = 0x1234_5678_u32;
    for _ in 0..20_000 {
        let mut chunk = Vec::new();
        for _ in 0..5 {
            state = state.wrapping_mul(1_664_525).wrapping_add(1_013_904_223);
            chunk.push(state ^ (state >> 7));
        }
        let floats: Vec<f32> = chunk.iter().map(|&b| f32::from_bits(b)).collect();
        let peak = float_peak(&floats);
        assert_eq!(chunk_peak(&chunk), peak.to_bits());
        assert_eq!(chunk_peak(&chunk) >= SILENCE_PEAK, peak >= 0.02);
    }
}

#[test]
fn loudness_ignores_the_sign() {
    assert_eq!(sample_loudness(0.5f32.to_bits()), 0.5f32.to_bits());
    assert_eq!(sample_loudness((-0.5f32).to_bits()), 0.5f32.to_bits());
    assert_eq!(sample_loudness(f32::NAN.to_bits()), 0);
}

#[test]
fn a_chunk_is_voiced_from_the_threshold_on() {
    assert!(chunk_peak(&bits(&[0.0, -0.02])) >= SILENCE_PEAK);
    assert!(chunk_peak(&bits(&[0.0199, -0.0199])) < SILENCE_PEAK);
}
