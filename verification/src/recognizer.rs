//! The recognizer: one utterance, from its first sample to its transcript.
//!
//! A recognizer is a state machine. Whoever drives it waits for audio, reports
//! progress, runs the model and sends the transcript, and tells the recognizer
//! each time what happened; the recognizer answers what to do next. It gathers
//! audio while the microphone delivers, decides when the utterance is over and
//! whether it is worth a decode, and completes the utterance once.
//!
//! A clock reading is a number of nanoseconds on a clock that does not go back.

use crate::config::WhisperSttConfig;
use crate::error::WhisperSttError;
use crate::sample::{chunk_peak, ms_to_samples, SILENCE_PEAK, WHISPER_SAMPLE_RATE};
use crate::transcript::is_blank_text;
use vstd::prelude::*;

verus! {

/// The utterance is over when no audio arrives for this long, and when this
/// long has passed since the last voice: a microphone that is kept warm never
/// falls silent by delivering nothing, it delivers silence.
pub const RECOGNIZER_IDLE: u64 = 350_000_000;

/// Progress of a recording, for a live display.
#[derive(Debug, PartialEq, Eq, Structural)]
pub enum PttProgress {
    /// The peak of the last chunk, as the bit pattern of a 32-bit IEEE 754
    /// number that is not negative; full scale is 1.
    VuVolume(u32),
    SentSamples(u32),
    ProcessedSamples(u32),
}

/// What a recognizer waits for.
#[derive(Clone, Copy, Debug, PartialEq, Eq, Structural)]
pub enum Phase {
    /// Audio, or its end.
    Listening,
    /// That progress has been reported.
    Reporting,
    /// The result of the decode.
    Decoding,
    /// Nothing: the utterance is complete.
    Done,
}

/// What is to become of an utterance.
#[derive(Clone, Copy, Debug, PartialEq, Eq, Structural)]
pub enum Verdict {
    /// Too little audio: it is ignored.
    TooShort,
    /// Enough audio, but too little voice in it: it is ignored.
    NoVoice,
    /// It is decoded.
    Decode,
}

/// What happened.
#[derive(Debug)]
pub enum RecognizerEvent {
    /// The microphone delivered `samples`; the clock read `at`.
    Chunk { samples: Vec<u32>, at: u64 },
    /// Progress was reported; the clock read `at`.
    Reported { at: u64 },
    /// The microphone was closed, or delivered nothing for `RECOGNIZER_IDLE`.
    Ended,
    /// The model decoded the audio.
    Decoded(Result<String, WhisperSttError>),
}

/// What to do next.
#[derive(Debug)]
pub enum RecognizerAction {
    /// Wait for audio, for `RECOGNIZER_IDLE` at most.
    Listen,
    /// Report this progress, in order.
    Report(Vec<PttProgress>),
    /// Decode all the audio.
    Decode,
    /// Send these messages, in order: a transcript, or the text of an error.
    Complete(Vec<Result<String, String>>),
}

/// The text of a message.
pub open spec fn message_text(message: Result<String, String>) -> Result<Seq<char>, Seq<char>> {
    match message {
        Ok(text) => Ok(text@),
        Err(text) => Err(text@),
    }
}

pub open spec fn message_texts(messages: Seq<Result<String, String>>) -> Seq<
    Result<Seq<char>, Seq<char>>,
> {
    messages.map_values(|message: Result<String, String>| message_text(message))
}

/// What an action says to do.
pub enum Answer {
    Listen,
    Report(Seq<PttProgress>),
    Decode,
    Complete(Seq<Result<Seq<char>, Seq<char>>>),
}

impl View for RecognizerAction {
    type V = Answer;

    open spec fn view(&self) -> Answer {
        match self {
            RecognizerAction::Listen => Answer::Listen,
            RecognizerAction::Report(progress) => Answer::Report(progress@),
            RecognizerAction::Decode => Answer::Decode,
            RecognizerAction::Complete(messages) => Answer::Complete(message_texts(messages@)),
        }
    }
}

/// What a recognizer knows of its utterance.
pub struct Utterance {
    /// Fewer samples than this, or fewer voiced ones, are not worth a decode.
    pub min_samples: nat,
    pub audio: Seq<u32>,
    /// Samples in voiced chunks.
    pub voiced: nat,
    /// The clock reading at the last voiced chunk.
    pub last_voice: Option<u64>,
    pub phase: Phase,
}

/// The messages that complete an utterance. A recent partial transcript is
/// better than a lost utterance: it goes ahead of the error.
pub open spec fn final_texts(
    decoded: Result<String, WhisperSttError>,
    latest_partial: Seq<char>,
) -> Seq<Result<Seq<char>, Seq<char>>> {
    match decoded {
        Ok(text) => seq![Ok(text@)],
        Err(e) => if crate::transcript::is_blank(latest_partial) {
            seq![Err(e.text())]
        } else {
            seq![Ok(latest_partial), Err(e.text())]
        },
    }
}

impl Utterance {
    /// An utterance of which nothing was heard yet.
    pub open spec fn fresh(min_samples: nat) -> Utterance {
        Utterance {
            min_samples,
            audio: Seq::empty(),
            voiced: 0,
            last_voice: None,
            phase: Phase::Listening,
        }
    }

    /// No sample is voiced that was not heard.
    pub open spec fn wf(self) -> bool {
        self.voiced <= self.audio.len()
    }

    /// Whether `event` is what the recognizer waits for.
    pub open spec fn expects(self, event: RecognizerEvent) -> bool {
        match event {
            RecognizerEvent::Chunk { .. } => self.phase == Phase::Listening,
            RecognizerEvent::Reported { .. } => self.phase == Phase::Reporting,
            RecognizerEvent::Ended => self.phase == Phase::Listening,
            RecognizerEvent::Decoded(_) => self.phase == Phase::Decoding,
        }
    }

    /// Whether there was voice, and none for `RECOGNIZER_IDLE` up to `now`.
    pub open spec fn fell_silent(self, now: u64) -> bool {
        self.last_voice is Some && now - self.last_voice->0 >= RECOGNIZER_IDLE
    }

    /// Whether the utterance is over with `event`: the microphone was closed, or
    /// the speaker has fallen silent.
    pub open spec fn is_ended_by(self, event: RecognizerEvent) -> bool {
        match event {
            RecognizerEvent::Reported { at } => self.fell_silent(at),
            RecognizerEvent::Ended => true,
            _ => false,
        }
    }

    /// What is to become of the utterance as it stands.
    pub open spec fn verdict(self) -> Verdict {
        if self.audio.len() < self.min_samples {
            Verdict::TooShort
        } else if self.voiced < self.min_samples {
            Verdict::NoVoice
        } else {
            Verdict::Decode
        }
    }

    /// Whether there is enough audio, and enough voice in it, to decode.
    pub open spec fn worth_decoding(self) -> bool {
        self.verdict() == Verdict::Decode
    }

    /// The utterance with one more chunk.
    pub open spec fn with_chunk(self, samples: Seq<u32>, at: u64) -> Utterance {
        Utterance {
            audio: self.audio + samples,
            voiced: self.voiced + voiced_count(samples),
            last_voice: if crate::sample::is_voiced(samples) {
                Some(at)
            } else {
                self.last_voice
            },
            ..self
        }
    }

    /// The utterance after its end.
    pub open spec fn closed(self) -> Utterance {
        Utterance {
            phase: if self.worth_decoding() {
                Phase::Decoding
            } else {
                Phase::Done
            },
            ..self
        }
    }

    /// What follows the end of the utterance: a decode, or an empty transcript.
    pub open spec fn closing(self) -> Answer {
        if self.worth_decoding() {
            Answer::Decode
        } else {
            Answer::Complete(seq![Ok(Seq::empty())])
        }
    }

    /// The utterance after `event`.
    pub open spec fn after(self, event: RecognizerEvent) -> Utterance {
        match event {
            RecognizerEvent::Chunk { samples, at } => if samples@.len() == 0 {
                self
            } else {
                Utterance { phase: Phase::Reporting, ..self.with_chunk(samples@, at) }
            },
            RecognizerEvent::Reported { at } => if self.fell_silent(at) {
                self.closed()
            } else {
                Utterance { phase: Phase::Listening, ..self }
            },
            RecognizerEvent::Ended => self.closed(),
            RecognizerEvent::Decoded(_) => Utterance { phase: Phase::Done, ..self },
        }
    }

    /// What to do after `event`.
    pub open spec fn answer(self, event: RecognizerEvent) -> Answer {
        match event {
            RecognizerEvent::Chunk { samples, at } => if samples@.len() == 0 {
                Answer::Listen
            } else {
                Answer::Report(progress_of(samples@, self.audio.len() + samples@.len()))
            },
            RecognizerEvent::Reported { at } => if self.fell_silent(at) {
                self.closing()
            } else {
                Answer::Listen
            },
            RecognizerEvent::Ended => self.closing(),
            RecognizerEvent::Decoded(decoded) => Answer::Complete(
                final_texts(decoded, Seq::empty()),
            ),
        }
    }
}

/// Voiced samples of a chunk: all of them or none.
pub open spec fn voiced_count(samples: Seq<u32>) -> nat {
    if crate::sample::is_voiced(samples) {
        samples.len()
    } else {
        0
    }
}

/// What is reported after a chunk: how loud it is, and twice how many samples
/// there are by now, a number that starts again at 0 after 32 bits.
pub open spec fn progress_of(samples: Seq<u32>, total: nat) -> Seq<PttProgress> {
    let count = (total % 0x1_0000_0000) as u32;
    seq![
        PttProgress::VuVolume(crate::sample::peak(samples)),
        PttProgress::SentSamples(count),
        PttProgress::ProcessedSamples(count),
    ]
}

/// The messages that complete an utterance.
pub fn final_messages(
    decoded: Result<String, WhisperSttError>,
    latest_partial: String,
) -> (messages: Vec<Result<String, String>>)
    ensures
        message_texts(messages@) == final_texts(decoded, latest_partial@),
{
    let mut messages: Vec<Result<String, String>> = Vec::new();
    match decoded {
        Ok(text) => {
            messages.push(Ok(text));
        },
        Err(e) => {
            if !is_blank_text(latest_partial.as_str()) {
                messages.push(Ok(latest_partial));
            }
            messages.push(Err(e.message()));
        },
    }
    assert(message_texts(messages@) =~= final_texts(decoded, latest_partial@));
    messages
}

/// The recognizer of one utterance.
#[derive(Debug)]
pub struct Recognizer {
    min_samples: usize,
    audio: Vec<u32>,
    voiced_samples: usize,
    last_voice: Option<u64>,
    phase: Phase,
}

impl View for Recognizer {
    type V = Utterance;

    closed spec fn view(&self) -> Utterance {
        Utterance {
            min_samples: self.min_samples as nat,
            audio: self.audio@,
            voiced: self.voiced_samples as nat,
            last_voice: self.last_voice,
            phase: self.phase,
        }
    }
}

impl Recognizer {
    /// A recognizer that has heard nothing yet.
    pub fn new(config: &WhisperSttConfig) -> (recognizer: Self)
        requires
            config.min_audio_ms * WHISPER_SAMPLE_RATE <= usize::MAX,
        ensures
            recognizer@ == Utterance::fresh(
                (config.min_audio_ms * WHISPER_SAMPLE_RATE / 1000) as nat,
            ),
            recognizer@.wf(),
    {
        Recognizer {
            min_samples: ms_to_samples(config.min_audio_ms),
            audio: Vec::new(),
            voiced_samples: 0,
            last_voice: None,
            phase: Phase::Listening,
        }
    }

    /// Takes in what happened, and says what to do next.
    pub fn step(&mut self, event: RecognizerEvent) -> (action: RecognizerAction)
        requires
            old(self)@.wf(),
            old(self)@.expects(event),
        ensures
            final(self)@.wf(),
            final(self)@ == old(self)@.after(event),
            action@ == old(self)@.answer(event),
    {
        match event {
            RecognizerEvent::Chunk { samples, at } => {
                if samples.len() == 0 {
                    return RecognizerAction::Listen;
                }
                let progress = self.hear(samples, at);
                self.phase = Phase::Reporting;
                RecognizerAction::Report(progress)
            },
            RecognizerEvent::Reported { at } => {
                if self.has_fallen_silent(at) {
                    self.close()
                } else {
                    self.phase = Phase::Listening;
                    RecognizerAction::Listen
                }
            },
            RecognizerEvent::Ended => self.close(),
            RecognizerEvent::Decoded(decoded) => {
                self.phase = Phase::Done;
                RecognizerAction::Complete(final_messages(decoded, String::new()))
            },
        }
    }

    /// All the audio of the utterance so far.
    pub fn audio(&self) -> (audio: &Vec<u32>)
        ensures
            audio@ == self@.audio,
    {
        &self.audio
    }

    /// What the recognizer waits for.
    pub fn phase(&self) -> (phase: Phase)
        ensures
            phase == self@.phase,
    {
        self.phase
    }

    /// The number of samples in voiced chunks so far.
    pub fn voiced_samples(&self) -> (samples: usize)
        ensures
            samples == self@.voiced,
    {
        self.voiced_samples
    }

    /// The number of samples, and of voiced ones, from which on an utterance is
    /// worth a decode.
    pub fn min_samples(&self) -> (samples: usize)
        ensures
            samples == self@.min_samples,
    {
        self.min_samples
    }

    /// What is to become of the utterance as it stands. Too little audio, or too
    /// little voice in it, is not decoded: over a near-silent buffer the model
    /// makes up a phrase.
    pub fn verdict(&self) -> (verdict: Verdict)
        ensures
            verdict == self@.verdict(),
    {
        if self.audio.len() < self.min_samples {
            Verdict::TooShort
        } else if self.voiced_samples < self.min_samples {
            Verdict::NoVoice
        } else {
            Verdict::Decode
        }
    }

    /// Gathers a chunk.
    fn hear(&mut self, samples: Vec<u32>, at: u64) -> (progress: Vec<PttProgress>)
        requires
            old(self)@.wf(),
        ensures
            final(self)@.wf(),
            final(self)@ == old(self)@.with_chunk(samples@, at),
            progress@ == progress_of(samples@, final(self)@.audio.len()),
    {
        let loudest: u32 = chunk_peak(samples.as_slice());
        self.audio.extend_from_slice(samples.as_slice());
        assert(self.audio@ =~= old(self).audio@ + samples@);
        let total: usize = self.audio.len();
        if loudest >= SILENCE_PEAK {
            self.last_voice = Some(at);
            self.voiced_samples = self.voiced_samples + samples.len();
        }
        let count: u32 = low_half(total as u64);
        let mut progress: Vec<PttProgress> = Vec::new();
        progress.push(PttProgress::VuVolume(loudest));
        progress.push(PttProgress::SentSamples(count));
        progress.push(PttProgress::ProcessedSamples(count));
        assert(progress@ =~= progress_of(samples@, total as nat));
        progress
    }

    fn has_fallen_silent(&self, now: u64) -> (yes: bool)
        ensures
            yes == self@.fell_silent(now),
    {
        match self.last_voice {
            Some(voiced_at) => now >= voiced_at && now - voiced_at >= RECOGNIZER_IDLE,
            None => false,
        }
    }

    /// Ends the utterance.
    fn close(&mut self) -> (action: RecognizerAction)
        requires
            old(self)@.wf(),
        ensures
            final(self)@ == old(self)@.closed(),
            action@ == old(self)@.closing(),
    {
        match self.verdict() {
            Verdict::Decode => {
                self.phase = Phase::Decoding;
                RecognizerAction::Decode
            },
            _ => {
                self.phase = Phase::Done;
                let mut messages: Vec<Result<String, String>> = Vec::new();
                messages.push(Ok(String::new()));
                assert(message_texts(messages@) =~= seq![Ok(Seq::<char>::empty())]);
                RecognizerAction::Complete(messages)
            },
        }
    }
}

/// The low 32 bits of a number.
fn low_half(n: u64) -> (low: u32)
    ensures
        low == n % 0x1_0000_0000,
{
    assert(n as u32 == n % 0x1_0000_0000) by (bit_vector);
    #[verifier::truncate]
    (n as u32)
}

impl Utterance {
    /// The utterance after `events`, first to last.
    pub open spec fn after_all(self, events: Seq<RecognizerEvent>) -> Utterance
        decreases events.len(),
    {
        if events.len() == 0 {
            self
        } else {
            self.after_all(events.drop_last()).after(events.last())
        }
    }

    /// Whether each of `events` is waited for when it comes.
    pub open spec fn expects_all(self, events: Seq<RecognizerEvent>) -> bool
        decreases events.len(),
    {
        events.len() > 0 ==> {
            &&& self.expects_all(events.drop_last())
            &&& self.after_all(events.drop_last()).expects(events.last())
        }
    }

    /// The answers to `events`, first to last.
    pub open spec fn answers(self, events: Seq<RecognizerEvent>) -> Seq<Answer>
        decreases events.len(),
    {
        if events.len() == 0 {
            Seq::empty()
        } else {
            self.answers(events.drop_last()).push(
                self.after_all(events.drop_last()).answer(events.last()),
            )
        }
    }
}

/// The number of completions among `answers`.
pub open spec fn completions(answers: Seq<Answer>) -> nat {
    answers.filter(|a: Answer| a is Complete).len()
}

/// The number of decodes among `answers`.
pub open spec fn decodes(answers: Seq<Answer>) -> nat {
    answers.filter(|a: Answer| a is Decode).len()
}

/// All the samples that `events` delivered, in order.
pub open spec fn heard(events: Seq<RecognizerEvent>) -> Seq<u32>
    decreases events.len(),
{
    if events.len() == 0 {
        Seq::empty()
    } else {
        heard(events.drop_last()) + match events.last() {
            RecognizerEvent::Chunk { samples, .. } => samples@,
            _ => Seq::empty(),
        }
    }
}

/// The number of samples in the voiced chunks among `events`.
pub open spec fn voiced_in(events: Seq<RecognizerEvent>) -> nat
    decreases events.len(),
{
    if events.len() == 0 {
        0
    } else {
        voiced_in(events.drop_last()) + match events.last() {
            RecognizerEvent::Chunk { samples, .. } => voiced_count(samples@),
            _ => 0,
        }
    }
}

proof fn lemma_counts_after_push(answers: Seq<Answer>, answer: Answer)
    ensures
        completions(answers.push(answer)) == completions(answers) + (if answer is Complete {
            1nat
        } else {
            0
        }),
        decodes(answers.push(answer)) == decodes(answers) + (if answer is Decode {
            1nat
        } else {
            0
        }),
{
    reveal(Seq::filter);
    assert(answers.push(answer).drop_last() =~= answers);
}

/// One transcription for one utterance, whatever happens and in whatever
/// order: the audio is decoded once at most, the utterance is completed exactly
/// once by the time it is done and not before, and the completion is one
/// message.
pub proof fn law_one_transcription_per_utterance(min_samples: nat, events: Seq<RecognizerEvent>)
    requires
        Utterance::fresh(min_samples).expects_all(events),
    ensures
        ({
            let phase = Utterance::fresh(min_samples).after_all(events).phase;
            let answers = Utterance::fresh(min_samples).answers(events);
            &&& completions(answers) == if phase == Phase::Done {
                1nat
            } else {
                0
            }
            &&& decodes(answers) <= 1
            &&& phase == Phase::Decoding ==> decodes(answers) == 1
            &&& phase == Phase::Listening || phase == Phase::Reporting ==> decodes(answers) == 0
            &&& forall|i: int|
                0 <= i < answers.len() && (#[trigger] answers[i]) is Complete
                    ==> answers[i]->Complete_0.len() == 1
        }),
    decreases events.len(),
{
    let start = Utterance::fresh(min_samples);
    reveal(Seq::filter);
    if events.len() > 0 {
        let before = events.drop_last();
        law_one_transcription_per_utterance(min_samples, before);
        lemma_counts_after_push(
            start.answers(before),
            start.after_all(before).answer(events.last()),
        );
        assert(crate::transcript::is_blank(Seq::empty()));
    }
}

/// All the messages that `answers` send, in order.
pub open spec fn sent(answers: Seq<Answer>) -> Seq<Result<Seq<char>, Seq<char>>>
    decreases answers.len(),
{
    if answers.len() == 0 {
        Seq::empty()
    } else {
        sent(answers.drop_last()) + match answers.last() {
            Answer::Complete(messages) => messages,
            _ => Seq::empty(),
        }
    }
}

/// A recognizer sends one message by the time its utterance is done, and none
/// before.
pub proof fn law_one_message_per_utterance(min_samples: nat, events: Seq<RecognizerEvent>)
    requires
        Utterance::fresh(min_samples).expects_all(events),
    ensures
        sent(Utterance::fresh(min_samples).answers(events)).len() == if Utterance::fresh(
            min_samples,
        ).after_all(events).phase == Phase::Done {
            1nat
        } else {
            0
        },
    decreases events.len(),
{
    if events.len() > 0 {
        let start = Utterance::fresh(min_samples);
        let before = events.drop_last();
        law_one_message_per_utterance(min_samples, before);
        assert(start.answers(events).drop_last() =~= start.answers(before));
        assert(crate::transcript::is_blank(Seq::empty()));
    }
}

/// An utterance that is done stays as it is: nothing more is waited for.
pub proof fn law_done_is_final(utterance: Utterance, event: RecognizerEvent)
    requires
        utterance.phase == Phase::Done,
    ensures
        !utterance.expects(event),
{
}

/// No audio is lost and none is made up: a recognizer holds what it heard, in
/// order, and counts as voiced the samples of the voiced chunks.
pub proof fn law_audio_is_what_was_heard(min_samples: nat, events: Seq<RecognizerEvent>)
    ensures
        Utterance::fresh(min_samples).after_all(events).audio == heard(events),
        Utterance::fresh(min_samples).after_all(events).voiced == voiced_in(events),
        Utterance::fresh(min_samples).after_all(events).min_samples == min_samples,
        voiced_in(events) <= heard(events).len(),
    decreases events.len(),
{
    if events.len() > 0 {
        law_audio_is_what_was_heard(min_samples, events.drop_last());
        assert(Utterance::fresh(min_samples).after_all(events).audio =~= heard(events));
    }
}

/// Protection against hallucination: an answer is a decode exactly where the
/// utterance ends there, be it that the microphone is closed or that the speaker
/// has fallen silent, and at least the minimum of voiced samples was heard.
pub proof fn law_voice_decides_on_the_decode(min_samples: nat, events: Seq<RecognizerEvent>)
    requires
        events.len() > 0,
        Utterance::fresh(min_samples).expects_all(events),
    ensures
        ({
            let before = Utterance::fresh(min_samples).after_all(events.drop_last());
            let answer = Utterance::fresh(min_samples).answers(events).last();
            let enough_voice = voiced_in(events) >= min_samples;
            &&& answer is Decode <==> before.is_ended_by(events.last()) && enough_voice
            &&& events.last() is Ended ==> (answer is Decode <==> enough_voice)
            &&& events.last() is Reported && before.fell_silent(events.last()->Reported_at) ==> (
            answer is Decode <==> enough_voice)
        }),
{
    law_audio_is_what_was_heard(min_samples, events);
    law_audio_is_what_was_heard(min_samples, events.drop_last());
}

proof fn lemma_silence_has_no_voice(events: Seq<RecognizerEvent>)
    requires
        forall|i: int|
            0 <= i < events.len() && (#[trigger] events[i]) is Chunk ==> !crate::sample::is_voiced(
                events[i]->samples@,
            ),
    ensures
        voiced_in(events) == 0,
    decreases events.len(),
{
    if events.len() > 0 {
        let before = events.drop_last();
        assert forall|i: int| 0 <= i < before.len() && (#[trigger] before[i]) is Chunk implies
            !crate::sample::is_voiced(before[i]->samples@) by {
            assert(before[i] == events[i]);
        }
        lemma_silence_has_no_voice(before);
        assert(events.last() == events[events.len() - 1]);
    }
}

/// Silence is never decoded: where a minimum is set and no chunk is voiced, no
/// answer is a decode, and a completion is one empty transcript.
pub proof fn law_silence_is_never_decoded(min_samples: nat, events: Seq<RecognizerEvent>)
    requires
        min_samples > 0,
        Utterance::fresh(min_samples).expects_all(events),
        forall|i: int|
            0 <= i < events.len() && (#[trigger] events[i]) is Chunk ==> !crate::sample::is_voiced(
                events[i]->samples@,
            ),
    ensures
        Utterance::fresh(min_samples).after_all(events).phase != Phase::Decoding,
        forall|i: int|
            0 <= i < events.len() ==> {
                let answer = #[trigger] Utterance::fresh(min_samples).answers(events)[i];
                &&& !(answer is Decode)
                &&& answer is Complete ==> answer->Complete_0 == seq![
                    Ok::<Seq<char>, Seq<char>>(Seq::empty()),
                ]
            },
    decreases events.len(),
{
    if events.len() > 0 {
        let start = Utterance::fresh(min_samples);
        let before = events.drop_last();
        assert forall|i: int| 0 <= i < before.len() && (#[trigger] before[i]) is Chunk implies
            !crate::sample::is_voiced(before[i]->samples@) by {
            assert(before[i] == events[i]);
        }
        law_silence_is_never_decoded(min_samples, before);
        lemma_silence_has_no_voice(before);
        law_audio_is_what_was_heard(min_samples, before);
        lemma_answers_len(start, before);
        assert forall|i: int| 0 <= i < events.len() implies {
            let answer = #[trigger] start.answers(events)[i];
            &&& !(answer is Decode)
            &&& answer is Complete ==> answer->Complete_0 == seq![
                Ok::<Seq<char>, Seq<char>>(Seq::empty()),
            ]
        } by {
            if i < before.len() {
                assert(start.answers(events)[i] == start.answers(before)[i]);
            }
        }
    }
}

proof fn lemma_answers_len(start: Utterance, events: Seq<RecognizerEvent>)
    ensures
        start.answers(events).len() == events.len(),
    decreases events.len(),
{
    if events.len() > 0 {
        lemma_answers_len(start, events.drop_last());
    }
}

/// Release ends the utterance: in whatever state of an utterance that is still
/// listening the microphone is closed, the answer is the one decode or the
/// empty transcript, and no more audio is waited for.
pub proof fn law_release_ends_the_utterance(utterance: Utterance)
    requires
        utterance.phase == Phase::Listening,
    ensures
        utterance.expects(RecognizerEvent::Ended),
        utterance.answer(RecognizerEvent::Ended) is Decode <==> utterance.worth_decoding(),
        utterance.answer(RecognizerEvent::Ended) is Complete <==> !utterance.worth_decoding(),
        utterance.after(RecognizerEvent::Ended).phase == Phase::Decoding || utterance.after(
            RecognizerEvent::Ended,
        ).phase == Phase::Done,
        utterance.after(RecognizerEvent::Ended).audio == utterance.audio,
{
}

/// While nothing voiced was heard, silence does not end the utterance: the
/// recognizer waits for the speaker.
pub proof fn law_silence_before_voice_is_waited_out(utterance: Utterance, at: u64)
    requires
        utterance.phase == Phase::Reporting,
        utterance.last_voice is None,
    ensures
        utterance.answer(RecognizerEvent::Reported { at }) is Listen,
        utterance.after(RecognizerEvent::Reported { at }).phase == Phase::Listening,
{
}

/// A fresh utterance holds nothing, and waits for audio or its end.
pub proof fn law_fresh_utterance_is_empty(min_samples: nat, samples: Vec<u32>, at: u64)
    ensures
        ({
            let fresh = Utterance::fresh(min_samples);
            &&& fresh.min_samples == min_samples
            &&& fresh.audio.len() == 0
            &&& fresh.voiced == 0
            &&& fresh.last_voice is None
            &&& fresh.wf()
            &&& fresh.expects(RecognizerEvent::Chunk { samples, at })
            &&& fresh.expects(RecognizerEvent::Ended)
        }),
{
}

/// A chunk is gathered whole. It counts as voiced, with all its samples and at
/// the time it came, exactly where one of its samples is loud; it has no bearing
/// on anything else. An empty chunk changes nothing.
pub proof fn law_chunk_is_gathered_whole(utterance: Utterance, samples: Vec<u32>, at: u64)
    ensures
        ({
            let next = utterance.after(RecognizerEvent::Chunk { samples, at });
            let loud = exists|i: int|
                0 <= i < samples@.len() && crate::sample::loudness(#[trigger] samples@[i])
                    >= SILENCE_PEAK;
            &&& next.min_samples == utterance.min_samples
            &&& next.audio == utterance.audio + samples@
            &&& loud ==> next.voiced == utterance.voiced + samples@.len()
            &&& loud ==> next.last_voice == Some(at)
            &&& !loud ==> next.voiced == utterance.voiced
            &&& !loud ==> next.last_voice == utterance.last_voice
            &&& samples@.len() == 0 ==> next == utterance
            &&& samples@.len() > 0 ==> next.phase == Phase::Reporting
        }),
{
    crate::sample::law_voiced_iff_a_sample_is_loud(samples@);
    assert(utterance.after(RecognizerEvent::Chunk { samples, at }).audio =~= utterance.audio
        + samples@);
}

/// After a chunk that is not empty, three things are reported: how loud its
/// loudest sample is, and, twice, how many samples there are by now, in 32 bits.
/// After an empty one, nothing is.
pub proof fn law_progress_is_loudness_and_total(utterance: Utterance, samples: Vec<u32>, at: u64)
    ensures
        ({
            let answer = utterance.answer(RecognizerEvent::Chunk { samples, at });
            let total = utterance.audio.len() + samples@.len();
            let progress = answer->Report_0;
            &&& samples@.len() == 0 <==> answer is Listen
            &&& samples@.len() > 0 <==> answer is Report
            &&& samples@.len() > 0 ==> {
                &&& progress.len() == 3
                &&& progress[0] is VuVolume
                &&& forall|i: int|
                    0 <= i < samples@.len() ==> crate::sample::loudness(#[trigger] samples@[i])
                        <= progress[0]->VuVolume_0
                &&& exists|i: int|
                    0 <= i < samples@.len() && crate::sample::loudness(#[trigger] samples@[i])
                        == progress[0]->VuVolume_0
                &&& progress[1] is SentSamples
                &&& progress[1]->SentSamples_0 as int == total % 0x1_0000_0000
                &&& progress[2] is ProcessedSamples
                &&& progress[2]->ProcessedSamples_0 as int == total % 0x1_0000_0000
            }
        }),
{
    crate::sample::law_peak_is_the_loudest(samples@);
    if samples@.len() > 0 && crate::sample::peak(samples@) == 0 {
        assert(crate::sample::loudness(samples@[0]) == 0);
    }
}

/// Once progress is reported, the utterance goes on unless there was voice and
/// `RECOGNIZER_IDLE` has passed since. Going on changes nothing but what is
/// waited for.
pub proof fn law_utterance_goes_on_while_there_is_voice(utterance: Utterance, at: u64)
    ensures
        ({
            let event = RecognizerEvent::Reported { at };
            let goes_on = utterance.last_voice is None || at < utterance.last_voice->0
                + RECOGNIZER_IDLE;
            &&& utterance.answer(event) is Listen <==> goes_on
            &&& goes_on ==> utterance.after(event) == (Utterance {
                phase: Phase::Listening,
                ..utterance
            })
            &&& !goes_on ==> utterance.after(event) == utterance.after(RecognizerEvent::Ended)
            &&& !goes_on ==> utterance.answer(event) == utterance.answer(RecognizerEvent::Ended)
        }),
{
}

/// The end of an utterance: it is decoded exactly where both its audio and its
/// voice reach the minimum, and completed by an empty transcript otherwise. What
/// was gathered stays as it is.
pub proof fn law_end_decodes_or_completes(utterance: Utterance)
    ensures
        ({
            let event = RecognizerEvent::Ended;
            let enough = utterance.audio.len() >= utterance.min_samples && utterance.voiced
                >= utterance.min_samples;
            &&& enough ==> utterance.answer(event) is Decode
            &&& enough ==> utterance.after(event) == (Utterance {
                phase: Phase::Decoding,
                ..utterance
            })
            &&& !enough ==> utterance.answer(event) == Answer::Complete(
                seq![Ok::<Seq<char>, Seq<char>>(Seq::empty())],
            )
            &&& !enough ==> utterance.after(event) == (Utterance {
                phase: Phase::Done,
                ..utterance
            })
        }),
{
}

/// The verdict names the first of the two that is lacking: audio, or voice.
pub proof fn law_verdict_names_what_is_lacking(utterance: Utterance)
    ensures
        utterance.verdict() == Verdict::TooShort <==> utterance.audio.len() < utterance.min_samples,
        utterance.verdict() == Verdict::NoVoice <==> utterance.audio.len() >= utterance.min_samples
            && utterance.voiced < utterance.min_samples,
        utterance.verdict() == Verdict::Decode <==> utterance.audio.len() >= utterance.min_samples
            && utterance.voiced >= utterance.min_samples,
{
}

/// What the model made of the audio is sent on: its transcript letter for letter,
/// or the text of its error. Then the utterance is done.
pub proof fn law_decode_is_sent_on(
    utterance: Utterance,
    text: String,
    error: WhisperSttError,
)
    ensures
        utterance.answer(RecognizerEvent::Decoded(Ok(text))) == Answer::Complete(
            seq![Ok::<Seq<char>, Seq<char>>(text@)],
        ),
        utterance.answer(RecognizerEvent::Decoded(Err(error))) == Answer::Complete(
            seq![Err::<Seq<char>, Seq<char>>(error.text())],
        ),
        utterance.after(RecognizerEvent::Decoded(Ok(text))) == (Utterance {
            phase: Phase::Done,
            ..utterance
        }),
        utterance.after(RecognizerEvent::Decoded(Err(error))) == (Utterance {
            phase: Phase::Done,
            ..utterance
        }),
{
    assert(crate::transcript::is_blank(Seq::empty()));
}

/// A transcript is sent alone. An error is sent too, alone where there is no
/// partial transcript or only a blank one, and after the partial one otherwise.
pub proof fn law_partial_goes_ahead_of_the_error(
    text: String,
    error: WhisperSttError,
    partial: Seq<char>,
)
    ensures
        final_texts(Ok(text), partial) == seq![Ok::<Seq<char>, Seq<char>>(text@)],
        (forall|i: int|
            0 <= i < partial.len() ==> crate::transcript::is_white_space(#[trigger] partial[i]))
            ==> final_texts(Err(error), partial) == seq![
            Err::<Seq<char>, Seq<char>>(error.text()),
        ],
        (exists|i: int|
            0 <= i < partial.len() && !crate::transcript::is_white_space(#[trigger] partial[i]))
            ==> final_texts(Err(error), partial) == seq![
            Ok::<Seq<char>, Seq<char>>(partial),
            Err::<Seq<char>, Seq<char>>(error.text()),
        ],
{
}

/// A message reads as it was written, and so do messages in a row.
pub proof fn law_messages_read_as_written(
    text: String,
    messages: Seq<Result<String, String>>,
    i: int,
)
    requires
        0 <= i < messages.len(),
    ensures
        message_text(Ok(text)) == Ok::<Seq<char>, Seq<char>>(text@),
        message_text(Err(text)) == Err::<Seq<char>, Seq<char>>(text@),
        message_texts(messages).len() == messages.len(),
        message_texts(messages)[i] == message_text(messages[i]),
{
}

/// An action says what it holds.
pub proof fn law_actions_say_what_they_hold(
    progress: Vec<PttProgress>,
    messages: Vec<Result<String, String>>,
)
    ensures
        RecognizerAction::Listen@ == Answer::Listen,
        RecognizerAction::Report(progress)@ == Answer::Report(progress@),
        RecognizerAction::Decode@ == Answer::Decode,
        RecognizerAction::Complete(messages)@ == Answer::Complete(message_texts(messages@)),
{
}

/// What is waited for is what was asked for: audio or its end after `Listen`, the
/// report after `Report`, the decode after `Decode`, and nothing after
/// `Complete`.
pub proof fn law_waits_for_what_was_asked_for(
    utterance: Utterance,
    event: RecognizerEvent,
    next: RecognizerEvent,
)
    requires
        utterance.expects(event),
    ensures
        utterance.after(event).expects(next) <==> match utterance.answer(event) {
            Answer::Listen => next is Chunk || next is Ended,
            Answer::Report(_) => next is Reported,
            Answer::Decode => next is Decoded,
            Answer::Complete(_) => false,
        },
{
}

/// Whether the chunk at place `i` of `events` is the last one that holds voice.
pub open spec fn is_last_voice(events: Seq<RecognizerEvent>, i: int) -> bool {
    &&& 0 <= i < events.len()
    &&& events[i] is Chunk
    &&& crate::sample::is_voiced(events[i]->samples@)
    &&& forall|j: int|
        i < j < events.len() && (#[trigger] events[j]) is Chunk ==> !crate::sample::is_voiced(
            events[j]->samples@,
        )
}

proof fn lemma_last_voice(start: Utterance, events: Seq<RecognizerEvent>)
    requires
        start.last_voice is None,
    ensures
        start.after_all(events).last_voice is None ==> forall|i: int|
            0 <= i < events.len() && (#[trigger] events[i]) is Chunk ==> !crate::sample::is_voiced(
                events[i]->samples@,
            ),
        start.after_all(events).last_voice is Some ==> exists|i: int| #[trigger]
            is_last_voice(events, i) && events[i]->Chunk_at == start.after_all(
                events,
            ).last_voice->0,
    decreases events.len(),
{
    if events.len() > 0 {
        let front = events.drop_last();
        let last = events.len() - 1;
        lemma_last_voice(start, front);
        assert(events[last] == events.last());
        assert(forall|i: int| 0 <= i < last ==> front[i] == #[trigger] events[i]);
        if events.last() is Chunk && crate::sample::is_voiced(events.last()->samples@) {
            assert(events.last()->samples@.len() > 0) by {
                if events.last()->samples@.len() == 0 {
                    assert(crate::sample::peak(events.last()->samples@) == 0);
                }
            }
            assert(is_last_voice(events, last));
        } else {
            if start.after_all(front).last_voice is Some {
                let i = choose|i: int| #[trigger]
                    is_last_voice(front, i) && front[i]->Chunk_at == start.after_all(
                        front,
                    ).last_voice->0;
                assert(is_last_voice(events, i));
            }
        }
    }
}

/// The recognizer listens on as long as the speaker has not fallen silent:
/// whatever was heard, once progress is reported at `at`, the answer is to listen
/// exactly where no chunk so far holds voice, or the last one that does came less
/// than `RECOGNIZER_IDLE` before `at`.
pub proof fn law_listens_until_the_speaker_falls_silent(
    min_samples: nat,
    events: Seq<RecognizerEvent>,
)
    requires
        events.len() > 0,
        events.last() is Reported,
        Utterance::fresh(min_samples).expects_all(events),
    ensures
        Utterance::fresh(min_samples).answers(events).last() is Listen <==> {
            ||| forall|i: int|
                0 <= i < events.len() && (#[trigger] events[i]) is Chunk
                    ==> !crate::sample::is_voiced(events[i]->samples@)
            ||| exists|i: int|
                {
                    &&& 0 <= i < events.len()
                    &&& (#[trigger] events[i]) is Chunk
                    &&& crate::sample::is_voiced(events[i]->samples@)
                    &&& forall|j: int|
                        i < j < events.len() && (#[trigger] events[j]) is Chunk
                            ==> !crate::sample::is_voiced(events[j]->samples@)
                    &&& events.last()->Reported_at - events[i]->Chunk_at < RECOGNIZER_IDLE
                }
        },
{
    let start = Utterance::fresh(min_samples);
    let front = events.drop_last();
    let before = start.after_all(front);
    lemma_last_voice(start, front);
    law_utterance_goes_on_while_there_is_voice(before, events.last()->Reported_at);
    assert(events[events.len() - 1] == events.last());
    assert(forall|i: int| 0 <= i < front.len() ==> front[i] == #[trigger] events[i]);
    if before.last_voice is Some {
        let i = choose|i: int| #[trigger]
            is_last_voice(front, i) && front[i]->Chunk_at == before.last_voice->0;
        assert(events[i] is Chunk);
        assert forall|k: int|
            {
                &&& 0 <= k < events.len()
                &&& (#[trigger] events[k]) is Chunk
                &&& crate::sample::is_voiced(events[k]->samples@)
                &&& forall|j: int|
                    k < j < events.len() && (#[trigger] events[j]) is Chunk
                        ==> !crate::sample::is_voiced(events[j]->samples@)
            } implies k == i by {
            if k < i {
                assert(events[i] is Chunk);
            }
            if i < k {
                assert(front[k] is Chunk);
            }
        }
    }
}

/// What was heard and what of it is voiced, event by event: a chunk adds its
/// samples to what was heard, and their number to what is voiced exactly where
/// one of them is loud; nothing else adds anything.
pub proof fn law_heard_and_voiced_event_by_event(
    events: Seq<RecognizerEvent>,
    event: RecognizerEvent,
)
    ensures
        heard(Seq::empty()) == Seq::<u32>::empty(),
        voiced_in(Seq::empty()) == 0,
        event is Chunk ==> heard(events.push(event)) == heard(events) + event->samples@,
        !(event is Chunk) ==> heard(events.push(event)) == heard(events),
        event is Chunk && (exists|i: int|
            0 <= i < event->samples@.len() && crate::sample::loudness(
                #[trigger] event->samples@[i],
            ) >= SILENCE_PEAK) ==> voiced_in(events.push(event)) == voiced_in(events)
            + event->samples@.len(),
        event is Chunk && (forall|i: int|
            0 <= i < event->samples@.len() ==> crate::sample::loudness(
                #[trigger] event->samples@[i],
            ) < SILENCE_PEAK) ==> voiced_in(events.push(event)) == voiced_in(events),
        !(event is Chunk) ==> voiced_in(events.push(event)) == voiced_in(events),
{
    assert(events.push(event).drop_last() =~= events);
    if event is Chunk {
        crate::sample::law_voiced_iff_a_sample_is_loud(event->samples@);
    } else {
        assert(heard(events.push(event)) =~= heard(events));
    }
}

/// The state after a course of events, and the answers to it, event by event.
pub proof fn law_courses_go_event_by_event(
    start: Utterance,
    events: Seq<RecognizerEvent>,
    event: RecognizerEvent,
)
    ensures
        start.after_all(Seq::empty()) == start,
        start.after_all(events.push(event)) == start.after_all(events).after(event),
        start.answers(Seq::empty()) == Seq::<Answer>::empty(),
        start.answers(events.push(event)) == start.answers(events).push(
            start.after_all(events).answer(event),
        ),
        start.expects_all(Seq::empty()),
        start.expects_all(events.push(event)) <==> start.expects_all(events) && start.after_all(
            events,
        ).expects(event),
{
    assert(events.push(event).drop_last() =~= events);
}

} // verus!
