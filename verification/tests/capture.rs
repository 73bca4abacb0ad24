use wayvr_dictation::capture::{
    capture_format, captured_chunk, stream_settings, CaptureFormat, FormatIds, SampleEncoding,
};

fn bytes(samples: &[f32]) -> Vec<u8> {
    samples.iter().flat_map(|s| s.to_le_bytes()).collect()
}

#[test]
fn samples_survive_the_buffer() {
    let samples = [0.0f32, 1.0, -0.5, 0.02, f32::MIN_POSITIVE];
    let data = bytes(&samples);
    let chunk = captured_chunk(Some(&data), data.len() as u32).unwrap();
    let back: Vec<f32> = chunk.iter().map(|&b| f32::from_bits(b)).collect();
    assert_eq!(back, samples);
}

#[test]
fn bytes_are_read_least_significant_first() {
    assert_eq!(captured_chunk(Some(&[0x01, 0x02, 0x03, 0xff]), 4), Some(vec![0xff03_0201]));
}

#[test]
fn only_the_filled_part_is_read() {
    let data = bytes(&[0.25, 0.5, 0.75]);
    assert_eq!(
        captured_chunk(Some(&data), 8),
        Some(vec![0.25f32.to_bits(), 0.5f32.to_bits()])
    );
    assert_eq!(captured_chunk(Some(&data), u32::MAX).unwrap().len(), 3);
}

#[test]
fn a_broken_last_sample_is_dropped() {
    let mut data = bytes(&[0.25]);
    data.extend([1, 2, 3]);
    assert_eq!(captured_chunk(Some(&data), 7), Some(vec![0.25f32.to_bits()]));
    assert_eq!(captured_chunk(Some(&data), 6), Some(vec![0.25f32.to_bits()]));
}

#[test]
fn no_whole_sample_is_no_chunk() {
    assert_eq!(captured_chunk(None, 16), None);
    assert_eq!(captured_chunk(Some(&[]), 16), None);
    assert_eq!(captured_chunk(Some(&[1, 2, 3]), 16), None);
    assert_eq!(captured_chunk(Some(&[1, 2, 3, 4]), 3), None);
    assert_eq!(captured_chunk(Some(&[1, 2, 3, 4]), 0), None);
}

#[test]
fn the_stream_asks_for_mono_at_the_rate() {
    assert_eq!(
        capture_format(16_000),
        CaptureFormat {
            encoding: SampleEncoding::F32Le,
            rate: 16_000,
            channels: 1,
        }
    );
}

#[test]
fn the_stream_names_its_target_only_if_there_is_one() {
    let settings = stream_settings(Some("wivrn.source".to_string()));
    assert_eq!(settings.media_type, "Audio");
    assert_eq!(settings.media_category, "Capture");
    assert_eq!(settings.media_role, "Communication");
    assert_eq!(settings.node_name, "whisper-capture");
    assert_eq!(settings.target_object.as_deref(), Some("wivrn.source"));
    assert_eq!(stream_settings(None).target_object, None);
}

#[test]
fn only_a_raw_audio_format_sets_the_format() {
    let ids = FormatIds {
        format_param: 4,
        audio: 1,
        raw: 2,
    };
    assert!(ids.sets_format(4, Some((1, 2))));
    assert!(!ids.sets_format(3, Some((1, 2))));
    assert!(!ids.sets_format(4, Some((2, 2))));
    assert!(!ids.sets_format(4, Some((1, 1))));
    assert!(!ids.sets_format(4, None));
}
