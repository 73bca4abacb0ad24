//! Configuration of dictation.
//!
//! Everything that depends on a deployment comes from environment variables.
//! Nothing is tied to a language: what is unset or empty is left to the model
//! or to the audio graph.

use std::path::PathBuf;
use vstd::prelude::*;

verus! {

/// A path in the file system. The library carries it from the configuration to
/// whoever loads the model and never looks inside.
#[verifier::external_type_specification]
#[verifier::external_body]
pub struct ExPathBuf(std::path::PathBuf);

/// `PathBuf::clone` duplicates the path.
pub assume_specification[ <std::path::PathBuf as Clone>::clone ](path: &std::path::PathBuf) -> (copy:
    std::path::PathBuf)
    ensures
        copy == *path,
;

/// The environment variables that configure dictation, each `None` where it is
/// unset or not valid Unicode.
#[derive(Debug)]
pub struct WhisperEnv {
    /// `WAYVR_WHISPER_LANG`: the language to decode; auto-detected if unset.
    pub language: Option<String>,
    /// `WAYVR_WHISPER_PROMPT`: dictation context in the target language, which
    /// steers short or noisy audio away from hallucinations.
    pub prompt: Option<String>,
    /// `WAYVR_WHISPER_SOURCE`: the source node to capture from; the default
    /// source if unset.
    pub source: Option<String>,
    /// `WAYVR_WHISPER_GPU`: the index of the device to decode on; 0 if unset.
    pub gpu: Option<String>,
}

/// How dictation is set up.
#[derive(Debug)]
pub struct WhisperSttConfig {
    pub model_path: PathBuf,
    pub language: Option<String>,
    pub initial_prompt: Option<String>,
    pub n_threads: i32,
    /// Extremely short accidental taps are ignored: audio and voice shorter
    /// than this.
    pub min_audio_ms: u64,
    /// The source node to capture from (such as `wivrn.source`, the headset
    /// microphone); `None` for the default source.
    pub capture_target: Option<String>,
    pub use_gpu: bool,
    pub gpu_device: i32,
    pub flash_attn: bool,
}

/// How the model is to decode one utterance.
#[derive(Debug)]
pub struct DecodeOptions {
    /// Candidates of the greedy sampler.
    pub best_of: i32,
    pub n_threads: i32,
    pub language: Option<String>,
    pub no_timestamps: bool,
    pub print_special: bool,
    pub print_progress: bool,
    pub print_realtime: bool,
    pub print_timestamps: bool,
    /// The sampling temperature, as the bit pattern of a 32-bit IEEE 754 number.
    pub temperature: u32,
    pub suppress_blank: bool,
    /// Suppress tokens that are not speech.
    pub suppress_nst: bool,
    /// The probability of silence above which a segment is rejected, as the bit
    /// pattern of a 32-bit IEEE 754 number.
    pub no_speech_thold: u32,
    pub single_segment: bool,
    pub no_context: bool,
    pub initial_prompt: Option<String>,
}

/// How the model is to be loaded.
#[derive(Clone, Copy, Debug, PartialEq, Eq, Structural)]
pub struct ModelOptions {
    pub use_gpu: bool,
    pub gpu_device: i32,
    pub flash_attn: bool,
}

/// Decoding threads at most, and where the machine does not say how many
/// threads it runs at a time.
pub const MAX_DECODE_THREADS: i32 = 4;

/// The bit pattern of 0, the temperature of a deterministic decode.
pub const ZERO_TEMPERATURE: u32 = 0;

/// The bit pattern of 0.6.
pub const NO_SPEECH_THRESHOLD: u32 = 0x3f19_999a;

/// What a variable sets: nothing, where it is empty.
pub open spec fn setting(value: Option<String>) -> Option<String> {
    match value {
        Some(text) => if text@.len() == 0 {
            None
        } else {
            value
        },
        None => None,
    }
}

/// Whether `text` is a number in decimal digits.
pub open spec fn is_decimal(text: Seq<char>) -> bool {
    &&& text.len() > 0
    &&& all_digits(text)
}

pub open spec fn all_digits(text: Seq<char>) -> bool {
    forall|i: int| 0 <= i < text.len() ==> is_digit(#[trigger] text[i])
}

pub open spec fn is_digit(c: char) -> bool {
    '0' <= c <= '9'
}

/// The number that decimal digits stand for.
pub open spec fn decimal(text: Seq<char>) -> int
    decreases text.len(),
{
    if text.len() == 0 {
        0
    } else {
        10 * decimal(text.drop_last()) + (text.last() as int - '0' as int)
    }
}

/// The device that `value` names: the number in it, or device 0 where it is no
/// number that can be a device.
pub open spec fn device(value: Option<String>) -> int {
    match value {
        Some(text) => if is_decimal(text@) && decimal(text@) <= i32::MAX {
            decimal(text@)
        } else {
            0
        },
        None => 0,
    }
}

/// The number of threads to decode with, given how many the machine runs at a
/// time.
pub open spec fn decode_threads(parallelism: Option<usize>) -> int {
    match parallelism {
        Some(n) => if n < MAX_DECODE_THREADS {
            n as int
        } else {
            MAX_DECODE_THREADS as int
        },
        None => MAX_DECODE_THREADS as int,
    }
}

/// A variable sets nothing exactly where it is unset or empty, and is taken
/// letter for letter where it sets something.
pub proof fn law_unset_and_empty_are_alike(value: Option<String>)
    ensures
        setting(value) is None <==> value is None || value->0@.len() == 0,
        setting(value) is Some ==> setting(value) == value,
{
}

proof fn lemma_decimal_grows(text: Seq<char>, n: int)
    requires
        all_digits(text),
        0 <= n <= text.len(),
    ensures
        0 <= decimal(text.take(n)) <= decimal(text),
    decreases text.len(),
{
    if n == text.len() {
        assert(text.take(n) =~= text);
        if n > 0 {
            assert(is_digit(text[n - 1]));
            assert forall|i: int| 0 <= i < text.drop_last().len() implies is_digit(
                #[trigger] text.drop_last()[i],
            ) by {
                assert(is_digit(text[i]));
            }
            lemma_decimal_grows(text.drop_last(), n - 1);
            assert(text.drop_last().take(n - 1) =~= text.drop_last());
        }
    } else {
        let rest = text.drop_last();
        assert(is_digit(text[text.len() - 1]));
        assert forall|i: int| 0 <= i < rest.len() implies is_digit(#[trigger] rest[i]) by {
            assert(is_digit(text[i]));
        }
        lemma_decimal_grows(rest, n);
        assert(rest.take(n) =~= text.take(n));
    }
}

/// What a variable sets: nothing, where it is empty.
pub fn non_empty(value: Option<String>) -> (set: Option<String>)
    ensures
        set == setting(value),
{
    match value {
        Some(text) => if text.as_str().is_empty() {
            None
        } else {
            Some(text)
        },
        None => None,
    }
}

/// The device that `value` names.
pub fn device_index(value: Option<String>) -> (index: i32)
    ensures
        index == device(value),
{
    let text = match value {
        None => {
            return 0;
        },
        Some(text) => text,
    };
    let mut number: i64 = 0;
    let mut any: bool = false;
    for c in chars: text.as_str().chars()
        invariant
            chars.seq() == text@,
            value == Some(text),
            any == (chars.index() > 0),
            all_digits(text@.take(chars.index())),
            number == decimal(text@.take(chars.index())),
            0 <= number <= i32::MAX,
    {
        let ghost k = chars.index();
        if c < '0' || c > '9' {
            assert(!is_digit(text@[k]));
            return 0;
        }
        proof {
            let next = text@.take(k + 1);
            assert(next.drop_last() =~= text@.take(k));
            assert forall|i: int| 0 <= i < next.len() implies is_digit(#[trigger] next[i]) by {
                if i < k {
                    assert(is_digit(text@.take(k)[i]));
                }
            }
        }
        number = 10 * number + (c as u32 - '0' as u32) as i64;
        any = true;
        if number > i32::MAX as i64 {
            proof {
                if is_decimal(text@) {
                    lemma_decimal_grows(text@, k + 1);
                }
            }
            return 0;
        }
    }
    assert(text@.take(text@.len() as int) =~= text@);
    if any {
        number as i32
    } else {
        0
    }
}

impl Clone for WhisperSttConfig {
    fn clone(&self) -> (copy: Self)
        ensures
            copy == *self,
    {
        WhisperSttConfig {
            model_path: self.model_path.clone(),
            language: self.language.clone(),
            initial_prompt: self.initial_prompt.clone(),
            n_threads: self.n_threads,
            min_audio_ms: self.min_audio_ms,
            capture_target: self.capture_target.clone(),
            use_gpu: self.use_gpu,
            gpu_device: self.gpu_device,
            flash_attn: self.flash_attn,
        }
    }
}

impl WhisperSttConfig {
    /// The configuration for the model at `model_path` in the environment `env`
    /// on a machine that runs `parallelism` threads at a time, where that is
    /// known.
    pub fn new(model_path: PathBuf, parallelism: Option<usize>, env: WhisperEnv) -> (config: Self)
        ensures
            config == (WhisperSttConfig {
                model_path,
                language: setting(env.language),
                initial_prompt: setting(env.prompt),
                n_threads: decode_threads(parallelism) as i32,
                min_audio_ms: 250,
                capture_target: setting(env.source),
                use_gpu: true,
                gpu_device: device(env.gpu) as i32,
                flash_attn: false,
            }),
    {
        let n_threads: i32 = match parallelism {
            Some(n) => if n < MAX_DECODE_THREADS as usize {
                n as i32
            } else {
                MAX_DECODE_THREADS
            },
            None => MAX_DECODE_THREADS,
        };
        WhisperSttConfig {
            model_path,
            language: non_empty(env.language),
            initial_prompt: non_empty(env.prompt),
            n_threads,
            min_audio_ms: 250,
            capture_target: non_empty(env.source),
            use_gpu: true,
            gpu_device: device_index(env.gpu),
            flash_attn: false,
        }
    }

    /// How the model is to be loaded.
    pub fn model_options(&self) -> (options: ModelOptions)
        ensures
            options == (ModelOptions {
                use_gpu: self.use_gpu,
                gpu_device: self.gpu_device,
                flash_attn: self.flash_attn,
            }),
    {
        ModelOptions {
            use_gpu: self.use_gpu,
            gpu_device: self.gpu_device,
            flash_attn: self.flash_attn,
        }
    }

    /// How one utterance is to be decoded: deterministically, as one segment of
    /// its own, with blanks and whatever is not speech suppressed, and with
    /// nothing printed.
    pub fn decode_options(&self) -> (options: DecodeOptions)
        ensures
            options == (DecodeOptions {
                best_of: 1,
                n_threads: self.n_threads,
                language: self.language,
                no_timestamps: true,
                print_special: false,
                print_progress: false,
                print_realtime: false,
                print_timestamps: false,
                temperature: ZERO_TEMPERATURE,
                suppress_blank: true,
                suppress_nst: true,
                no_speech_thold: NO_SPEECH_THRESHOLD,
                single_segment: true,
                no_context: true,
                initial_prompt: self.initial_prompt,
            }),
    {
        DecodeOptions {
            best_of: 1,
            n_threads: self.n_threads,
            language: self.language.clone(),
            no_timestamps: true,
            print_special: false,
            print_progress: false,
            print_realtime: false,
            print_timestamps: false,
            temperature: ZERO_TEMPERATURE,
            suppress_blank: true,
            suppress_nst: true,
            no_speech_thold: NO_SPEECH_THRESHOLD,
            single_segment: true,
            no_context: true,
            initial_prompt: self.initial_prompt.clone(),
        }
    }
}

/// Digits count ten times as much with each that follows.
pub proof fn law_decimal_place_value(text: Seq<char>, digit: char)
    ensures
        decimal(Seq::empty()) == 0,
        decimal(text.push(digit)) == 10 * decimal(text) + (digit as int - '0' as int),
{
    assert(text.push(digit).drop_last() =~= text);
}

/// The device is the number that the variable holds, where it holds one that can
/// be a device, and the first device otherwise.
pub proof fn law_device_is_the_number_given(text: String)
    ensures
        device(None) == 0,
        text@.len() == 0 ==> device(Some(text)) == 0,
        (exists|i: int| 0 <= i < text@.len() && !('0' <= #[trigger] text@[i] <= '9')) ==> device(
            Some(text),
        ) == 0,
        text@.len() > 0 && (forall|i: int|
            0 <= i < text@.len() ==> '0' <= #[trigger] text@[i] <= '9') ==> device(Some(text))
            == if decimal(text@) <= 0x7fff_ffff {
            decimal(text@)
        } else {
            0
        },
{
    if exists|i: int| 0 <= i < text@.len() && !('0' <= #[trigger] text@[i] <= '9') {
        let i = choose|i: int| 0 <= i < text@.len() && !('0' <= #[trigger] text@[i] <= '9');
        assert(!is_digit(text@[i]));
    }
}

/// As many threads as the machine runs at a time, but no more than the maximum,
/// and the maximum where that is not known.
pub proof fn law_threads_up_to_the_maximum(n: usize)
    ensures
        n <= MAX_DECODE_THREADS ==> decode_threads(Some(n)) == n,
        n >= MAX_DECODE_THREADS ==> decode_threads(Some(n)) == MAX_DECODE_THREADS,
        decode_threads(None) == MAX_DECODE_THREADS,
{
}

} // verus!
