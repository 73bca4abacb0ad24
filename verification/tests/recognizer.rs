use std::path::PathBuf;
use wayvr_dictation::config::{WhisperEnv, WhisperSttConfig};
use wayvr_dictation::error::WhisperSttError;
use wayvr_dictation::recognizer::{
    final_messages, Phase, PttProgress, Recognizer, RecognizerAction, RecognizerEvent, Verdict,
    RECOGNIZER_IDLE,
};

const MS: u64 = 1_000_000;

fn recognizer() -> Recognizer {
    let env = WhisperEnv {
        language: None,
        prompt: None,
        source: None,
        gpu: None,
    };
    Recognizer::new(&WhisperSttConfig::new(PathBuf::new(), None, env))
}

fn tone(level: f32, n: usize) -> Vec<u32> {
    (0..n)
        .map(|i| (if i % 2 == 0 { level } else { -level }).to_bits())
        .collect()
}

/// Delivers a chunk at `at`, reports, and gives the action that follows.
fn deliver(r: &mut Recognizer, samples: Vec<u32>, at: u64) -> RecognizerAction {
    match r.step(RecognizerEvent::Chunk { samples, at }) {
        RecognizerAction::Report(_) => r.step(RecognizerEvent::Reported { at }),
        other => panic!("{other:?}"),
    }
}

fn completed(action: RecognizerAction) -> Vec<Result<String, String>> {
    match action {
        RecognizerAction::Complete(messages) => messages,
        other => panic!("{other:?}"),
    }
}

#[test]
fn release_decodes_all_that_was_heard_once() {
    let mut r = recognizer();
    assert!(matches!(deliver(&mut r, tone(0.5, 3_000), 0), RecognizerAction::Listen));
    assert!(matches!(deliver(&mut r, tone(0.3, 1_000), 100 * MS), RecognizerAction::Listen));
    assert!(matches!(r.step(RecognizerEvent::Ended), RecognizerAction::Decode));
    let mut heard = tone(0.5, 3_000);
    heard.extend(tone(0.3, 1_000));
    assert_eq!(r.audio(), &heard);
    assert_eq!(r.phase(), Phase::Decoding);
    let messages = completed(r.step(RecognizerEvent::Decoded(Ok("merhaba".to_string()))));
    assert_eq!(messages, vec![Ok("merhaba".to_string())]);
    assert_eq!(r.phase(), Phase::Done);
}

#[test]
fn a_short_tap_is_ignored() {
    let mut r = recognizer();
    deliver(&mut r, tone(0.5, 3_999), 0);
    assert_eq!(completed(r.step(RecognizerEvent::Ended)), vec![Ok(String::new())]);
    assert_eq!(r.phase(), Phase::Done);
}

#[test]
fn nothing_heard_is_an_empty_transcript() {
    let mut r = recognizer();
    assert_eq!(completed(r.step(RecognizerEvent::Ended)), vec![Ok(String::new())]);
}

#[test]
fn silence_is_never_decoded() {
    let mut r = recognizer();
    for i in 0..20 {
        assert!(matches!(
            deliver(&mut r, tone(0.019, 1_600), i * 100 * MS),
            RecognizerAction::Listen
        ));
    }
    assert_eq!(completed(r.step(RecognizerEvent::Ended)), vec![Ok(String::new())]);
}

#[test]
fn a_noise_blip_is_not_enough_voice() {
    let mut r = recognizer();
    deliver(&mut r, tone(0.9, 3_999), 0);
    deliver(&mut r, tone(0.001, 1_600), 100 * MS);
    assert_eq!(completed(r.step(RecognizerEvent::Ended)), vec![Ok(String::new())]);
}

#[test]
fn just_enough_voice_is_decoded() {
    let mut r = recognizer();
    deliver(&mut r, tone(0.001, 1_600), 0);
    deliver(&mut r, tone(0.02, 4_000), 100 * MS);
    assert!(matches!(r.step(RecognizerEvent::Ended), RecognizerAction::Decode));
}

#[test]
fn trailing_silence_ends_the_utterance() {
    let mut r = recognizer();
    deliver(&mut r, tone(0.5, 4_000), 1_000 * MS);
    assert!(matches!(
        deliver(&mut r, tone(0.0, 160), 1_000 * MS + RECOGNIZER_IDLE - 1),
        RecognizerAction::Listen
    ));
    assert!(matches!(
        deliver(&mut r, tone(0.0, 160), 1_000 * MS + RECOGNIZER_IDLE),
        RecognizerAction::Decode
    ));
    assert_eq!(RECOGNIZER_IDLE, 350 * MS);
}

#[test]
fn voice_puts_off_the_end() {
    let mut r = recognizer();
    deliver(&mut r, tone(0.5, 100), 0);
    deliver(&mut r, tone(0.5, 100), 300 * MS);
    assert!(matches!(deliver(&mut r, tone(0.0, 100), 600 * MS), RecognizerAction::Listen));
    assert_eq!(
        completed(deliver(&mut r, tone(0.0, 100), 650 * MS)),
        vec![Ok(String::new())]
    );
}

#[test]
fn silence_before_voice_is_waited_out() {
    let mut r = recognizer();
    for i in 0..100 {
        assert!(matches!(
            deliver(&mut r, tone(0.0, 10), i * RECOGNIZER_IDLE),
            RecognizerAction::Listen
        ));
    }
}

#[test]
fn an_empty_chunk_changes_nothing() {
    let mut r = recognizer();
    deliver(&mut r, tone(0.5, 4_000), 0);
    let action = r.step(RecognizerEvent::Chunk {
        samples: Vec::new(),
        at: 10 * RECOGNIZER_IDLE,
    });
    assert!(matches!(action, RecognizerAction::Listen));
    assert_eq!(r.audio().len(), 4_000);
    assert_eq!(r.phase(), Phase::Listening);
}

#[test]
fn progress_is_loudness_and_total() {
    let mut r = recognizer();
    deliver(&mut r, tone(0.5, 100), 0);
    match r.step(RecognizerEvent::Chunk {
        samples: tone(0.25, 40),
        at: MS,
    }) {
        RecognizerAction::Report(progress) => assert_eq!(
            progress,
            vec![
                PttProgress::VuVolume(0.25f32.to_bits()),
                PttProgress::SentSamples(140),
                PttProgress::ProcessedSamples(140),
            ]
        ),
        other => panic!("{other:?}"),
    }
    assert_eq!(r.phase(), Phase::Reporting);
}

#[test]
fn a_failed_decode_is_reported() {
    let mut r = recognizer();
    deliver(&mut r, tone(0.5, 4_000), 0);
    r.step(RecognizerEvent::Ended);
    let error = WhisperSttError::Whisper("out of memory".to_string());
    assert_eq!(
        completed(r.step(RecognizerEvent::Decoded(Err(error)))),
        vec![Err("whisper error: out of memory".to_string())]
    );
}

#[test]
fn a_partial_is_better_than_a_lost_utterance() {
    let failed = || Err(WhisperSttError::Whisper("x".to_string()));
    assert_eq!(
        final_messages(failed(), "half a".to_string()),
        vec![Ok("half a".to_string()), Err("whisper error: x".to_string())]
    );
    assert_eq!(
        final_messages(failed(), " \n".to_string()),
        vec![Err("whisper error: x".to_string())]
    );
    assert_eq!(
        final_messages(Ok("whole".to_string()), "half a".to_string()),
        vec![Ok("whole".to_string())]
    );
}

#[test]
fn the_verdict_tells_why() {
    let mut r = recognizer();
    assert_eq!(r.min_samples(), 4_000);
    assert_eq!(r.verdict(), Verdict::TooShort);
    deliver(&mut r, tone(0.5, 3_999), 0);
    assert_eq!(r.verdict(), Verdict::TooShort);
    deliver(&mut r, tone(0.0, 1), 0);
    assert_eq!(r.verdict(), Verdict::NoVoice);
    assert_eq!(r.voiced_samples(), 3_999);
    deliver(&mut r, tone(0.5, 1), 0);
    assert_eq!(r.verdict(), Verdict::Decode);
    assert_eq!(r.voiced_samples(), 4_000);
}

#[test]
fn trailing_silence_decodes_only_enough_voice() {
    let ended_by_silence = |voiced| {
        let mut r = recognizer();
        deliver(&mut r, tone(0.0, 4_000), 0);
        deliver(&mut r, tone(0.5, voiced), 0);
        deliver(&mut r, tone(0.0, 160), RECOGNIZER_IDLE)
    };
    assert!(matches!(ended_by_silence(4_000), RecognizerAction::Decode));
    assert_eq!(completed(ended_by_silence(3_999)), vec![Ok(String::new())]);
}
