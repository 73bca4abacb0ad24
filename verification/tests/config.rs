use std::path::PathBuf;
use wayvr_dictation::config::{
    device_index, ModelOptions, WhisperEnv, WhisperSttConfig, NO_SPEECH_THRESHOLD, ZERO_TEMPERATURE,
};
use wayvr_dictation::error::WhisperSttError;

fn unset() -> WhisperEnv {
    WhisperEnv {
        language: None,
        prompt: None,
        source: None,
        gpu: None,
    }
}

fn set(value: &str) -> Option<String> {
    Some(value.to_string())
}

#[test]
fn defaults_are_neutral() {
    let config = WhisperSttConfig::new(PathBuf::from("model.bin"), Some(16), unset());
    assert_eq!(config.model_path, PathBuf::from("model.bin"));
    assert_eq!(config.language, None);
    assert_eq!(config.initial_prompt, None);
    assert_eq!(config.capture_target, None);
    assert_eq!(config.n_threads, 4);
    assert_eq!(config.min_audio_ms, 250);
    assert!(config.use_gpu);
    assert_eq!(config.gpu_device, 0);
    assert!(!config.flash_attn);
}

#[test]
fn empty_is_as_good_as_unset() {
    let env = WhisperEnv {
        language: set(""),
        prompt: set(""),
        source: set(""),
        gpu: set(""),
    };
    let config = WhisperSttConfig::new(PathBuf::new(), None, env);
    assert_eq!(config.language, None);
    assert_eq!(config.initial_prompt, None);
    assert_eq!(config.capture_target, None);
    assert_eq!(config.gpu_device, 0);
}

#[test]
fn variables_are_taken_as_they_are() {
    let env = WhisperEnv {
        language: set("tr"),
        prompt: set(" Merhaba "),
        source: set("wivrn.source"),
        gpu: set("1"),
    };
    let config = WhisperSttConfig::new(PathBuf::from("m"), Some(2), env);
    assert_eq!(config.language.as_deref(), Some("tr"));
    assert_eq!(config.initial_prompt.as_deref(), Some(" Merhaba "));
    assert_eq!(config.capture_target.as_deref(), Some("wivrn.source"));
    assert_eq!(config.gpu_device, 1);
}

#[test]
fn threads_are_capped() {
    let threads = |n| WhisperSttConfig::new(PathBuf::new(), n, unset()).n_threads;
    assert_eq!(threads(Some(1)), 1);
    assert_eq!(threads(Some(3)), 3);
    assert_eq!(threads(Some(4)), 4);
    assert_eq!(threads(Some(usize::MAX)), 4);
    assert_eq!(threads(None), 4);
}

#[test]
fn device_is_a_decimal_index() {
    assert_eq!(device_index(None), 0);
    assert_eq!(device_index(set("0")), 0);
    assert_eq!(device_index(set("12")), 12);
    assert_eq!(device_index(set("007")), 7);
    assert_eq!(device_index(set("2147483647")), 2_147_483_647);
    assert_eq!(device_index(set("2147483648")), 0);
    assert_eq!(device_index(set("99999999999999999999999")), 0);
    assert_eq!(device_index(set("-1")), 0);
    assert_eq!(device_index(set("1 ")), 0);
    assert_eq!(device_index(set("gpu")), 0);
}

#[test]
fn a_clone_is_the_same_configuration() {
    let env = WhisperEnv {
        language: set("tr"),
        prompt: None,
        source: set("mic"),
        gpu: set("3"),
    };
    let mut config = WhisperSttConfig::new(PathBuf::from("/data/model.bin"), Some(2), env);
    let copy = config.clone();
    config.model_path.push("gone");
    assert_eq!(copy.model_path, PathBuf::from("/data/model.bin"));
    assert_eq!(copy.language.as_deref(), Some("tr"));
    assert_eq!(copy.initial_prompt, None);
    assert_eq!(copy.capture_target.as_deref(), Some("mic"));
    assert_eq!(copy.n_threads, 2);
    assert_eq!(copy.gpu_device, 3);
}

#[test]
fn decoding_is_guarded_against_hallucination() {
    let env = WhisperEnv {
        language: set("tr"),
        prompt: set("Dikte."),
        source: None,
        gpu: None,
    };
    let options = WhisperSttConfig::new(PathBuf::new(), Some(3), env).decode_options();
    assert_eq!(options.best_of, 1);
    assert_eq!(options.n_threads, 3);
    assert_eq!(options.language.as_deref(), Some("tr"));
    assert_eq!(options.initial_prompt.as_deref(), Some("Dikte."));
    assert_eq!(f32::from_bits(options.temperature), 0.0);
    assert_eq!(f32::from_bits(options.no_speech_thold), 0.6);
    assert!(options.suppress_blank && options.suppress_nst);
    assert!(options.single_segment && options.no_context && options.no_timestamps);
    assert!(!options.print_special && !options.print_progress);
    assert!(!options.print_realtime && !options.print_timestamps);
    assert_eq!(ZERO_TEMPERATURE, 0.0f32.to_bits());
    assert_eq!(NO_SPEECH_THRESHOLD, 0.6f32.to_bits());
}

#[test]
fn the_model_is_loaded_as_configured() {
    let mut config = WhisperSttConfig::new(PathBuf::new(), None, unset());
    config.gpu_device = 2;
    config.flash_attn = true;
    assert_eq!(
        config.model_options(),
        ModelOptions {
            use_gpu: true,
            gpu_device: 2,
            flash_attn: true,
        }
    );
}

#[test]
fn errors_have_their_texts() {
    let e = || "oops".to_string();
    for (error, text) in [
        (WhisperSttError::ModelLoad(e()), "failed to load whisper model: oops"),
        (WhisperSttError::Whisper(e()), "whisper error: oops"),
        (WhisperSttError::CaptureInit(e()), "failed to initialize capture: oops"),
        (WhisperSttError::ThreadSpawn(e()), "failed to spawn thread: oops"),
        (WhisperSttError::AlreadyRecording, "PTT is already active"),
        (WhisperSttError::NotRecording, "PTT is not active"),
    ] {
        assert_eq!(error.message(), text);
    }
}
