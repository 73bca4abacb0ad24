use std::path::PathBuf;
use wayvr_dictation::config::{WhisperEnv, WhisperSttConfig};
use wayvr_dictation::error::WhisperSttError;
use wayvr_dictation::recognizer::{Recognizer, RecognizerAction, RecognizerEvent};
use wayvr_dictation::stt::{
    CapturePlan, StartFailure, ThreadsDone, WhisperStt, MAX_DURATION, READY_TIMEOUT, UNLOAD_AFTER,
};
use wayvr_dictation::transcript::transcript_of;

type Stt = WhisperStt<&'static str, &'static str, u32, u64>;

const SEC: u64 = 1_000_000_000;

fn config() -> WhisperSttConfig {
    let env = WhisperEnv {
        language: None,
        prompt: None,
        source: Some("mic".to_string()),
        gpu: None,
    };
    WhisperSttConfig::new(PathBuf::from("m"), None, env)
}

fn stt() -> Stt {
    Stt::init(7, config(), Ok("model"), 0).ok().unwrap()
}

/// No thread has finished.
fn none_done(s: &Stt) -> ThreadsDone {
    ThreadsDone {
        recognizers: vec![false; s.finished_recognizers().len()],
        captures: vec![false; s.finished_captures().len()],
    }
}

fn start(s: &mut Stt, now: u64) -> Result<CapturePlan, WhisperSttError> {
    let done = none_done(s);
    let press = s.ptt_start(&done, now);
    assert!(press.finished.recognizers.is_empty());
    press.plan
}

fn poll(
    s: &mut Stt,
    received: Vec<Result<String, String>>,
    now: u64,
) -> (Option<String>, Option<&'static str>) {
    let done = none_done(s);
    let poll = s.take_transcription(&done, received, now);
    assert!(poll.finished.recognizers.is_empty());
    (poll.text, poll.stopped)
}

fn reap(s: &mut Stt, recognizers: &[bool], captures: &[bool]) -> (Vec<u32>, Vec<u32>) {
    let done = ThreadsDone {
        recognizers: recognizers.to_vec(),
        captures: captures.to_vec(),
    };
    let finished = s.reap_finished_threads(&done);
    (finished.recognizers, finished.captures)
}

/// Dictation with a recording in progress since `now`.
fn recording(capture: &'static str, recognizer: u32, inbox: u64, now: u64) -> Stt {
    let mut s = stt();
    start(&mut s, now).unwrap();
    s.ptt_opened(Some(Ok(())), capture, recognizer + 100, recognizer, inbox, now).unwrap();
    s
}

fn ok(text: &str) -> Result<String, String> {
    Ok(text.to_string())
}

fn err(text: &str) -> Result<String, String> {
    Err(text.to_string())
}

#[test]
fn init_reports_a_model_that_does_not_load() {
    match Stt::init(1, config(), Err("no file".to_string()), 0) {
        Err(WhisperSttError::ModelLoad(e)) => assert_eq!(e, "no file"),
        _ => panic!("loaded"),
    }
    let s = stt();
    assert_eq!(s.id(), 7);
    assert_eq!(*s.model(), "model");
    assert_eq!(s.config().min_audio_ms, 250);
    assert!(s.inbox().is_none());
    assert!(s.last_error().is_none());
}

#[test]
fn press_and_release() {
    let mut s = stt();
    let plan = start(&mut s, SEC).unwrap();
    assert_eq!(plan.target.as_deref(), Some("mic"));
    assert_eq!(plan.rate, 16_000);
    s.ptt_opened(Some(Ok(())), "capture", 11 + 100, 11, 101, SEC).unwrap();
    assert_eq!(s.inbox(), Some(&101));
    assert!(matches!(start(&mut s, SEC), Err(WhisperSttError::AlreadyRecording)));
    assert_eq!(s.ptt_end(2 * SEC).unwrap(), "capture");
    assert_eq!(s.finished_recognizers(), &vec![11]);
    assert_eq!(s.finished_captures(), &vec![111]);
    assert_eq!(s.inbox(), Some(&101));
    assert!(matches!(s.ptt_end(2 * SEC), Err(WhisperSttError::NotRecording)));
    assert!(start(&mut s, 3 * SEC).is_ok());
}

#[test]
fn a_stream_that_fails_leaves_dictation_idle() {
    let mut s = stt();
    start(&mut s, 0).unwrap();
    match s.ptt_opened(Some(Err("no node".to_string())), "capture", 1 + 100, 1, 2, 0) {
        Err((capture, WhisperSttError::CaptureInit(e))) => {
            assert_eq!(capture, "capture");
            assert_eq!(e, "no node");
        }
        other => panic!("{other:?}"),
    }
    assert_eq!(s.finished_recognizers(), &vec![1]);
    assert_eq!(s.finished_captures(), &vec![101]);
    assert!(s.inbox().is_none());
    assert!(matches!(s.ptt_end(0), Err(WhisperSttError::NotRecording)));
}

#[test]
fn a_stream_that_stalls_times_out() {
    let mut s = stt();
    start(&mut s, 0).unwrap();
    match s.ptt_opened(None, "capture", 1 + 100, 1, 2, READY_TIMEOUT) {
        Err((_, WhisperSttError::CaptureInit(e))) => {
            assert_eq!(e, "microphone did not start within timeout");
        }
        other => panic!("{other:?}"),
    }
    assert_eq!(READY_TIMEOUT, 3 * SEC);
}

#[test]
fn the_latest_transcript_is_handed_out() {
    let mut s = recording("c", 1, 2, 0);
    s.ptt_end(SEC).unwrap();
    let (text, stopped) = poll(&mut s, vec![ok(" bir "), ok("iki  \n uc"), ok("  ")], 2 * SEC);
    assert_eq!(text.as_deref(), Some("iki uc"));
    assert_eq!(stopped, None);
    assert_eq!(poll(&mut s, vec![], 2 * SEC), (None, None));
}

#[test]
fn errors_are_remembered_beside_the_text() {
    let mut s = recording("c", 1, 2, 0);
    let (text, _) = poll(&mut s, vec![err("first"), ok("text"), err("last")], SEC);
    assert_eq!(text.as_deref(), Some("text"));
    assert_eq!(s.last_error().map(|e| e.as_str()), Some("last"));
    poll(&mut s, vec![ok("more")], SEC);
    assert_eq!(s.last_error().map(|e| e.as_str()), Some("last"));
}

#[test]
fn nothing_is_read_before_the_first_session() {
    let mut s = stt();
    assert_eq!(poll(&mut s, vec![ok("stray"), err("stray")], SEC), (None, None));
    assert!(s.last_error().is_none());
}

#[test]
fn a_new_session_has_an_inbox_of_its_own() {
    let mut s = recording("first", 1, 101, 0);
    s.ptt_end(SEC).unwrap();
    start(&mut s, 2 * SEC).unwrap();
    assert_eq!(s.inbox(), Some(&101));
    s.ptt_opened(Some(Ok(())), "second", 2 + 100, 2, 102, 2 * SEC).unwrap();
    assert_eq!(s.inbox(), Some(&102));
    poll(&mut s, vec![], 3 * SEC);
    s.ptt_end(4 * SEC).unwrap();
    assert_eq!(s.inbox(), Some(&102));
}

#[test]
fn an_overlong_recording_is_stopped() {
    let mut s = recording("c", 5, 2, SEC);
    assert_eq!(poll(&mut s, vec![], SEC + MAX_DURATION - 1), (None, None));
    assert_eq!(
        poll(&mut s, vec![ok("x")], SEC + MAX_DURATION),
        (Some("x".to_string()), None)
    );
    assert_eq!(poll(&mut s, vec![], SEC + MAX_DURATION), (None, Some("c")));
    assert_eq!(s.finished_recognizers(), &vec![5]);
    assert!(matches!(s.ptt_end(0), Err(WhisperSttError::NotRecording)));
    assert_eq!(MAX_DURATION, 30 * SEC);
}

#[test]
fn use_puts_off_unloading() {
    let mut s = stt();
    assert_eq!(UNLOAD_AFTER, 300 * SEC);
    assert!(!s.should_unload(UNLOAD_AFTER));
    assert!(s.should_unload(UNLOAD_AFTER + 1));
    let _ = s.ptt_end(10);
    assert!(!s.should_unload(UNLOAD_AFTER + 10));
    start(&mut s, 20).unwrap();
    assert!(!s.should_unload(UNLOAD_AFTER + 20));
    s.ptt_opened(Some(Ok(())), "c", 1 + 100, 1, 2, 25).unwrap();
    poll(&mut s, vec![], 30);
    assert!(s.should_unload(UNLOAD_AFTER + 21));
    poll(&mut s, vec![ok("x")], 40);
    assert!(!s.should_unload(UNLOAD_AFTER + 40));
    assert!(s.should_unload(UNLOAD_AFTER + 41));
    assert!(!s.should_unload(0));
}

#[test]
fn the_clock_may_read_anything() {
    let mut s = recording("c", 1, 2, u64::MAX);
    assert!(!s.should_unload(u64::MAX));
    assert_eq!(poll(&mut s, vec![], u64::MAX), (None, None));
}

#[test]
fn only_finished_threads_are_joined() {
    let mut s = stt();
    for n in 1..=5 {
        start(&mut s, 0).unwrap();
        s.ptt_opened(Some(Ok(())), "c", n + 100, n, 0, 0).unwrap();
        s.ptt_end(0).unwrap();
    }
    let none = [false; 5];
    let (recognizers, captures) = reap(&mut s, &[true, false, true, false, true], &none);
    assert_eq!(recognizers, vec![1, 5, 3]);
    assert!(captures.is_empty());
    assert_eq!(s.finished_recognizers(), &vec![4, 2]);
    assert_eq!(s.finished_captures(), &vec![101, 102, 103, 104, 105]);
    let (recognizers, captures) = reap(&mut s, &[false, false], &[false, true, false, false, true]);
    assert!(recognizers.is_empty());
    assert_eq!(captures, vec![102, 105]);
    assert_eq!(s.finished_recognizers(), &vec![4, 2]);
    assert_eq!(s.finished_captures(), &vec![101, 104, 103]);
    assert_eq!(
        reap(&mut s, &[true, true], &[true, true, true]),
        (vec![4, 2], vec![101, 103, 104])
    );
    assert!(s.finished_recognizers().is_empty() && s.finished_captures().is_empty());
}

#[test]
fn presses_and_polls_take_out_finished_threads() {
    let mut s = recording("a", 1, 1, 0);
    s.ptt_end(0).unwrap();
    let done = |capture| ThreadsDone {
        recognizers: vec![true],
        captures: vec![capture],
    };
    let poll = s.take_transcription(&done(true), vec![], 0);
    assert_eq!(poll.finished.recognizers, vec![1]);
    assert_eq!(poll.finished.captures, vec![101]);
    s.ptt_opened(Some(Ok(())), "b", 102, 2, 2, 0).unwrap();
    s.ptt_end(0).unwrap();
    s.ptt_opened(Some(Ok(())), "c", 103, 3, 3, 0).unwrap();
    let press = s.ptt_start(&done(false), 0);
    assert_eq!(press.finished.recognizers, vec![2]);
    assert!(press.finished.captures.is_empty());
    assert!(matches!(press.plan, Err(WhisperSttError::AlreadyRecording)));
    assert!(s.finished_recognizers().is_empty());
    assert_eq!(s.finished_captures(), &vec![102]);
}

#[test]
fn a_release_joins_no_thread() {
    let mut s = recording("c", 1, 2, 0);
    assert_eq!(s.ptt_end(SEC).unwrap(), "c");
    assert_eq!(s.finished_recognizers(), &vec![1]);
    assert_eq!(s.finished_captures(), &vec![101]);
}

#[test]
fn a_press_that_fails_at_once_leaves_dictation_idle() {
    let mut s = stt();
    start(&mut s, 0).unwrap();
    match s.ptt_not_started(StartFailure::Thread("no threads".to_string())) {
        WhisperSttError::ThreadSpawn(e) => assert_eq!(e, "no threads"),
        other => panic!("{other:?}"),
    }
    match s.ptt_not_started(StartFailure::Capture("no loop".to_string())) {
        WhisperSttError::CaptureInit(e) => assert_eq!(e, "no loop"),
        other => panic!("{other:?}"),
    }
    assert!(s.inbox().is_none());
    assert!(s.finished_recognizers().is_empty() && s.finished_captures().is_empty());
    assert!(start(&mut s, 0).is_ok());
}

#[test]
fn one_session_shows_one_transcript() {
    let mut s = recording("c", 1, 2, 0);
    let mut shown = 0;
    for messages in [vec![], utterance(4_000, &["once"]), vec![], vec![]] {
        if poll(&mut s, messages, SEC).0.is_some() {
            shown += 1;
        }
    }
    assert_eq!(shown, 1);
}

#[test]
fn closing_ends_a_recording() {
    let mut s = recording("c", 9, 2, 0);
    assert_eq!(s.close(SEC), Some("c"));
    assert_eq!(s.finished_recognizers(), &vec![9]);
    assert_eq!(s.close(SEC), None);
}

#[test]
fn every_capture_comes_back_once() {
    let mut s = recording("a", 1, 1, 0);
    let mut back = vec![s.ptt_end(0).unwrap()];
    start(&mut s, 0).unwrap();
    back.push(s.ptt_opened(None, "b", 2 + 100, 2, 2, 0).unwrap_err().0);
    start(&mut s, 0).unwrap();
    s.ptt_opened(Some(Ok(())), "c", 3 + 100, 3, 3, 0).unwrap();
    back.extend(poll(&mut s, vec![], MAX_DURATION).1);
    start(&mut s, 0).unwrap();
    s.ptt_opened(Some(Ok(())), "d", 4 + 100, 4, 4, 0).unwrap();
    back.extend(s.close(0));
    back.extend(s.close(0));
    assert_eq!(back, vec!["a", "b", "c", "d"]);
    assert_eq!(s.finished_recognizers(), &vec![1, 2, 3, 4]);
    assert_eq!(s.finished_captures(), &vec![101, 102, 103, 104]);
}

/// Runs a recognizer over one loud chunk of `n` samples and a release, and gives
/// its messages.
fn utterance(n: usize, segments: &[&str]) -> Vec<Result<String, String>> {
    let mut r = Recognizer::new(&config());
    let samples = vec![0.5f32.to_bits(); n];
    r.step(RecognizerEvent::Chunk { samples, at: 0 });
    r.step(RecognizerEvent::Reported { at: 0 });
    let mut action = r.step(RecognizerEvent::Ended);
    if matches!(action, RecognizerAction::Decode) {
        let segments = segments.iter().map(|s| s.to_string()).collect();
        action = r.step(RecognizerEvent::Decoded(transcript_of(Ok(segments))));
    }
    match action {
        RecognizerAction::Complete(messages) => messages,
        other => panic!("{other:?}"),
    }
}

#[test]
fn a_transcript_arrives_as_it_was_decoded() {
    let mut s = recording("c", 1, 2, 0);
    let messages = utterance(4_000, &[" git", " commit ", " -m"]);
    assert_eq!(messages, vec![ok("git commit -m")]);
    assert_eq!(poll(&mut s, messages, SEC).0.as_deref(), Some("git commit -m"));
    assert_eq!(poll(&mut s, utterance(4_000, &[" ", "\n"]), SEC).0, None);
}

#[test]
fn an_empty_transcript_shows_nothing() {
    let mut s = recording("c", 1, 2, 0);
    let mut messages = vec![ok("earlier"), err("e")];
    messages.extend(utterance(3_999, &["never decoded"]));
    assert_eq!(messages.len(), 3);
    assert_eq!(poll(&mut s, messages, SEC).0.as_deref(), Some("earlier"));
    assert_eq!(s.last_error().map(|e| e.as_str()), Some("e"));
}
