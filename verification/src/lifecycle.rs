//! What holds of every course that dictation can take.
//!
//! A course is a sequence of what can happen to dictation: presses, openings of
//! the capture stream, releases, polls, threads that are joined, and the close.

use crate::config::WhisperSttConfig;
use crate::recognizer::{Answer, Phase, RecognizerEvent, Utterance};
use crate::stt::{
    Dictation, FinishedThreads, Recording, StartFailure, ThreadsDone, MAX_DURATION, UNLOAD_AFTER,
};
use vstd::multiset::Multiset;
use vstd::prelude::*;

verus! {

/// What can happen to dictation.
pub enum SttOp<C, T, R> {
    /// `ptt_start`
    Start { done: ThreadsDone, now: u64 },
    /// `ptt_not_started`
    NotStarted { failure: StartFailure },
    /// `ptt_opened`
    Opened {
        ready: Option<Result<(), String>>,
        capture: C,
        capture_thread: T,
        recognizer: T,
        inbox: R,
        now: u64,
    },
    /// `ptt_end`
    End { now: u64 },
    /// `take_transcription`
    Poll { done: ThreadsDone, messages: Seq<Result<String, String>>, now: u64 },
    /// `reap_finished_threads`
    Reap { done: ThreadsDone },
    /// `close`
    Close { now: u64 },
}

impl<C, T, R> SttOp<C, T, R> {
    /// The marks by which threads are taken out here.
    pub open spec fn marks(self) -> Option<ThreadsDone> {
        match self {
            SttOp::Start { done, .. } => Some(done),
            SttOp::Poll { done, .. } => Some(done),
            SttOp::Reap { done } => Some(done),
            _ => None,
        }
    }

    /// Whether a session begins here.
    pub open spec fn opens(self) -> bool {
        self matches SttOp::Opened { ready: Some(Ok(())), .. }
    }

    /// Whether a session that began at `opened_at` ends here, by a release, by
    /// the close, or by a poll that is overdue and brings no transcript.
    pub open spec fn ends(self, opened_at: u64) -> bool {
        match self {
            SttOp::End { .. } => true,
            SttOp::Close { .. } => true,
            SttOp::Poll { messages, now, .. } => crate::stt::latest_text(messages) is None && now
                >= opened_at + MAX_DURATION,
            _ => false,
        }
    }
}

impl<M, C, T, R> Dictation<M, C, T, R> {
    /// Whether `op` can happen.
    pub open spec fn allows(self, op: SttOp<C, T, R>) -> bool {
        match op {
            SttOp::Opened { .. } => self.active is None,
            _ => op.marks() is Some ==> self.marked_by(op.marks()->0),
        }
    }

    /// Dictation after `op`.
    pub open spec fn after(self, op: SttOp<C, T, R>) -> Self {
        match op {
            SttOp::Start { done, now } => self.reaped(done).used(now),
            SttOp::NotStarted { .. } => self,
            SttOp::Opened { ready, capture, capture_thread, recognizer, inbox, now } => match ready {
                Some(Ok(())) => self.recording(capture, capture_thread, recognizer, inbox, now),
                _ => self.not_opened(capture_thread, recognizer),
            },
            SttOp::End { now } => self.used(now).stopped(),
            SttOp::Poll { done, messages, now } => self.reaped(done).polled(messages, now),
            SttOp::Reap { done } => self.reaped(done),
            SttOp::Close { now } => if self.active is Some {
                self.used(now).stopped()
            } else {
                self
            },
        }
    }

    /// The capture that `op` hands out, to be stopped.
    pub open spec fn hands_out(self, op: SttOp<C, T, R>) -> Option<C> {
        let held = match self.active {
            Some(session) => Some(session.capture),
            None => None,
        };
        match op {
            SttOp::Opened { capture, .. } => if op.opens() {
                None
            } else {
                Some(capture)
            },
            SttOp::End { .. } => held,
            SttOp::Poll { messages, now, .. } => if self.poll_stops(messages, now) {
                held
            } else {
                None
            },
            SttOp::Close { .. } => held,
            _ => None,
        }
    }

    /// The recognizers that `op` takes out, to be joined.
    pub open spec fn joins(self, op: SttOp<C, T, R>) -> Multiset<T> {
        match op.marks() {
            Some(done) => crate::stt::one_pass(
                self.finished_recognizers,
                done.recognizers@,
                0,
            ).1.to_multiset(),
            None => Multiset::empty(),
        }
    }

    /// The capture threads that `op` takes out, to be joined.
    pub open spec fn joins_captures(self, op: SttOp<C, T, R>) -> Multiset<T> {
        match op.marks() {
            Some(done) => crate::stt::one_pass(
                self.finished_captures,
                done.captures@,
                0,
            ).1.to_multiset(),
            None => Multiset::empty(),
        }
    }

    /// The transcript that `op` hands out.
    pub open spec fn shows(self, op: SttOp<C, T, R>) -> Option<Seq<char>> {
        match op {
            SttOp::Poll { messages, .. } => crate::stt::latest_text(self.seen(messages)),
            _ => None,
        }
    }

    /// The clock reading at which `op` uses the model, if it does: a press, a
    /// release, a transcript, or the close of a recording.
    pub open spec fn uses(self, op: SttOp<C, T, R>) -> Option<u64> {
        match op {
            SttOp::Start { now, .. } => Some(now),
            SttOp::End { now } => Some(now),
            SttOp::Poll { now, .. } => if self.shows(op) is Some {
                Some(now)
            } else {
                None
            },
            SttOp::Close { now } => if self.active is Some {
                Some(now)
            } else {
                None
            },
            _ => None,
        }
    }

    /// Dictation after `ops`, first to last.
    pub open spec fn after_all(self, ops: Seq<SttOp<C, T, R>>) -> Self
        decreases ops.len(),
    {
        if ops.len() == 0 {
            self
        } else {
            self.after_all(ops.drop_last()).after(ops.last())
        }
    }

    /// Whether `ops` can happen, first to last.
    pub open spec fn allows_all(self, ops: Seq<SttOp<C, T, R>>) -> bool
        decreases ops.len(),
    {
        ops.len() > 0 ==> {
            &&& self.allows_all(ops.drop_last())
            &&& self.after_all(ops.drop_last()).allows(ops.last())
        }
    }

    /// The captures that `ops` hand out.
    pub open spec fn handed_out(self, ops: Seq<SttOp<C, T, R>>) -> Multiset<C>
        decreases ops.len(),
    {
        if ops.len() == 0 {
            Multiset::empty()
        } else {
            self.handed_out(ops.drop_last()).add(
                only(self.after_all(ops.drop_last()).hands_out(ops.last())),
            )
        }
    }

    /// The recognizers that `ops` take out, to be joined.
    pub open spec fn joined(self, ops: Seq<SttOp<C, T, R>>) -> Multiset<T>
        decreases ops.len(),
    {
        if ops.len() == 0 {
            Multiset::empty()
        } else {
            self.joined(ops.drop_last()).add(self.after_all(ops.drop_last()).joins(ops.last()))
        }
    }

    /// The capture threads that `ops` take out, to be joined.
    pub open spec fn joined_captures(self, ops: Seq<SttOp<C, T, R>>) -> Multiset<T>
        decreases ops.len(),
    {
        if ops.len() == 0 {
            Multiset::empty()
        } else {
            self.joined_captures(ops.drop_last()).add(
                self.after_all(ops.drop_last()).joins_captures(ops.last()),
            )
        }
    }

    /// The number of transcripts that `ops` hand out.
    pub open spec fn shown(self, ops: Seq<SttOp<C, T, R>>) -> nat
        decreases ops.len(),
    {
        if ops.len() == 0 {
            0
        } else {
            self.shown(ops.drop_last()) + if self.after_all(ops.drop_last()).shows(
                ops.last(),
            ) is Some {
                1nat
            } else {
                0
            }
        }
    }

    /// The clock reading at the last use of the model in `ops`; `before` where
    /// there is none.
    pub open spec fn last_use(self, before: u64, ops: Seq<SttOp<C, T, R>>) -> u64
        decreases ops.len(),
    {
        if ops.len() == 0 {
            before
        } else {
            match self.after_all(ops.drop_last()).uses(ops.last()) {
                Some(now) => now,
                None => self.last_use(before, ops.drop_last()),
            }
        }
    }

    /// The capture that is running.
    pub open spec fn running(self) -> Multiset<C> {
        match self.active {
            Some(session) => Multiset::singleton(session.capture),
            None => Multiset::empty(),
        }
    }

    /// The recognizers that have not been joined.
    pub open spec fn recognizers(self) -> Multiset<T> {
        self.finished_recognizers.to_multiset().add(
            match self.active {
                Some(session) => Multiset::singleton(session.recognizer),
                None => Multiset::empty(),
            },
        )
    }

    /// The capture threads that have not been joined.
    pub open spec fn capture_threads(self) -> Multiset<T> {
        self.finished_captures.to_multiset().add(
            match self.active {
                Some(session) => Multiset::singleton(session.capture_thread),
                None => Multiset::empty(),
            },
        )
    }

    /// Dictation after a poll that finds in each inbox what `mail` says, of
    /// which it reads its own.
    pub open spec fn collected(
        self,
        done: ThreadsDone,
        mail: spec_fn(R) -> Seq<Result<String, String>>,
        now: u64,
    ) -> Self {
        let messages = match self.inbox {
            Some(inbox) => mail(inbox),
            None => Seq::empty(),
        };
        self.after(SttOp::Poll { done, messages, now })
    }

    /// The transcript that such a poll hands out.
    pub open spec fn collected_text(self, mail: spec_fn(R) -> Seq<Result<String, String>>) -> Option<
        Seq<char>,
    > {
        match self.inbox {
            Some(inbox) => crate::stt::latest_text(mail(inbox)),
            None => None,
        }
    }
}

/// What an option holds.
pub open spec fn only<A>(item: Option<A>) -> Multiset<A> {
    match item {
        Some(item) => Multiset::singleton(item),
        None => Multiset::empty(),
    }
}

/// The captures that `ops` bring in.
pub open spec fn brought_captures<C, T, R>(ops: Seq<SttOp<C, T, R>>) -> Multiset<C>
    decreases ops.len(),
{
    if ops.len() == 0 {
        Multiset::empty()
    } else {
        brought_captures(ops.drop_last()).add(
            match ops.last() {
                SttOp::Opened { capture, .. } => Multiset::singleton(capture),
                _ => Multiset::empty(),
            },
        )
    }
}

/// The recognizers that `ops` bring in.
pub open spec fn brought_recognizers<C, T, R>(ops: Seq<SttOp<C, T, R>>) -> Multiset<T>
    decreases ops.len(),
{
    if ops.len() == 0 {
        Multiset::empty()
    } else {
        brought_recognizers(ops.drop_last()).add(
            match ops.last() {
                SttOp::Opened { recognizer, .. } => Multiset::singleton(recognizer),
                _ => Multiset::empty(),
            },
        )
    }
}

/// The capture threads that `ops` bring in.
pub open spec fn brought_capture_threads<C, T, R>(ops: Seq<SttOp<C, T, R>>) -> Multiset<T>
    decreases ops.len(),
{
    if ops.len() == 0 {
        Multiset::empty()
    } else {
        brought_capture_threads(ops.drop_last()).add(
            match ops.last() {
                SttOp::Opened { capture_thread, .. } => Multiset::singleton(capture_thread),
                _ => Multiset::empty(),
            },
        )
    }
}

/// All the messages that the polls among `ops` read, in order.
pub open spec fn messages_read<C, T, R>(ops: Seq<SttOp<C, T, R>>) -> Seq<Result<String, String>>
    decreases ops.len(),
{
    if ops.len() == 0 {
        Seq::empty()
    } else {
        messages_read(ops.drop_last()) + match ops.last() {
            SttOp::Poll { messages, .. } => messages,
            _ => Seq::empty(),
        }
    }
}

/// Whether the session that begins at place `i` of `ops` is still in progress
/// after all of them.
pub open spec fn in_progress<C, T, R>(ops: Seq<SttOp<C, T, R>>, i: int) -> bool {
    &&& 0 <= i < ops.len()
    &&& ops[i].opens()
    &&& forall|j: int| i < j < ops.len() ==> !(#[trigger] ops[j]).ends(ops[i]->Opened_now)
}

/// The inbox of the last session that began in `ops`; `before` where none did.
pub open spec fn latest_inbox<C, T, R>(before: Option<R>, ops: Seq<SttOp<C, T, R>>) -> Option<R>
    decreases ops.len(),
{
    if ops.len() == 0 {
        before
    } else {
        match ops.last() {
            SttOp::Opened { ready: Some(Ok(())), inbox, .. } => Some(inbox),
            _ => latest_inbox(before, ops.drop_last()),
        }
    }
}

/// Press and release: a press while a recording is in progress leaves it alone,
/// the release hands out the capture that the press brought about and leaves its
/// thread and its recognizer to be joined and its inbox to be read, and there is
/// nothing left for another release to end.
pub proof fn law_press_and_release<M, C, T, R>(
    idle: Dictation<M, C, T, R>,
    capture: C,
    capture_thread: T,
    recognizer: T,
    inbox: R,
    opened_at: u64,
    done: ThreadsDone,
    pressed_again_at: u64,
    released_at: u64,
)
    requires
        idle.active is None,
    ensures
        ({
            let opened = SttOp::Opened {
                ready: Some(Ok(())),
                capture,
                capture_thread,
                recognizer,
                inbox,
                now: opened_at,
            };
            let again = SttOp::Start { done, now: pressed_again_at };
            let release = SttOp::End { now: released_at };
            let recording = idle.after(opened).after(again);
            let released = recording.after(release);
            &&& idle.hands_out(opened) is None
            &&& recording.active == idle.after(opened).active
            &&& recording.active is Some
            &&& recording.hands_out(again) is None
            &&& recording.hands_out(release) == Some(capture)
            &&& released.active is None
            &&& released.inbox == Some(inbox)
            &&& released.finished_recognizers == idle.reaped(done).finished_recognizers.push(recognizer)
            &&& released.finished_captures == idle.reaped(done).finished_captures.push(
                capture_thread,
            )
            &&& released.hands_out(release) is None
        }),
{
}

/// A capture stream that does not open leaves dictation idle: its capture comes
/// back, its thread and its recognizer are left to be joined, and what the
/// session before transcribed can still be read.
pub proof fn law_failed_start_leaves_idle<M, C, T, R>(
    idle: Dictation<M, C, T, R>,
    ready: Option<Result<(), String>>,
    capture: C,
    capture_thread: T,
    recognizer: T,
    inbox: R,
    now: u64,
)
    requires
        idle.active is None,
        !(ready matches Some(Ok(()))),
    ensures
        ({
            let opened = SttOp::Opened { ready, capture, capture_thread, recognizer, inbox, now };
            &&& idle.hands_out(opened) == Some(capture)
            &&& idle.after(opened).active is None
            &&& idle.after(opened).inbox == idle.inbox
            &&& idle.after(opened).finished_recognizers == idle.finished_recognizers.push(
                recognizer,
            )
            &&& idle.after(opened).finished_captures == idle.finished_captures.push(capture_thread)
        }),
{
}

/// A recording is bounded: of the polls that bring no transcript, those from
/// `MAX_DURATION` after its start on end it, and the earlier ones do not. A poll
/// that brings a transcript never does.
pub proof fn law_recording_is_bounded<M, C, T, R>(
    idle: Dictation<M, C, T, R>,
    capture: C,
    capture_thread: T,
    recognizer: T,
    inbox: R,
    opened_at: u64,
    done: ThreadsDone,
    messages: Seq<Result<String, String>>,
    now: u64,
)
    ensures
        ({
            let recording = idle.recording(capture, capture_thread, recognizer, inbox, opened_at);
            let poll = SttOp::Poll { done, messages, now };
            let ends = crate::stt::latest_text(messages) is None && now >= opened_at + MAX_DURATION;
            &&& recording.after(poll).active is None <==> ends
            &&& recording.hands_out(poll) == if ends {
                Some(capture)
            } else {
                None
            }
        }),
{
}

/// The model is unloaded no earlier than `UNLOAD_AFTER` after the last press,
/// release or transcript; polls that bring nothing do not put it off.
pub proof fn law_use_puts_off_unloading<M, C, T, R>(
    state: Dictation<M, C, T, R>,
    done: ThreadsDone,
    messages: Seq<Result<String, String>>,
    now: u64,
)
    ensures
        state.after(SttOp::Start { done, now }).unload_at == now + UNLOAD_AFTER,
        state.after(SttOp::End { now }).unload_at == now + UNLOAD_AFTER,
        state.after(SttOp::Poll { done, messages, now }).unload_at == if crate::stt::latest_text(
            state.seen(messages),
        ) is Some {
            now + UNLOAD_AFTER
        } else {
            state.unload_at
        },
{
}

/// What the model made of an utterance is what a poll hands out: the transcript
/// of its segments, tidied once, comes through the recognizer's one message and
/// is not changed again on the way. A blank one is not handed out.
pub proof fn law_transcript_arrives_as_decoded<M, C, T, R>(
    utterance: Utterance,
    segments: Seq<Seq<char>>,
    transcript: String,
    state: Dictation<M, C, T, R>,
    message: Result<String, String>,
)
    requires
        utterance.phase == Phase::Decoding,
        transcript@ == crate::transcript::normalized(crate::transcript::joined(segments)),
        utterance.answer(RecognizerEvent::Decoded(Ok(transcript))) == Answer::Complete(
            crate::recognizer::message_texts(seq![message]),
        ),
        state.inbox is Some,
    ensures
        crate::stt::latest_text(state.seen(seq![message])) == if crate::transcript::is_blank(
            crate::transcript::joined(segments),
        ) {
            None
        } else {
            Some(transcript@)
        },
{
    let text = crate::transcript::joined(segments);
    let sent = crate::recognizer::message_texts(seq![message]);
    assert(sent[0] == crate::recognizer::message_text(message));
    assert(crate::recognizer::final_texts(Ok(transcript), Seq::empty())[0] == Ok::<
        Seq<char>,
        Seq<char>,
    >(transcript@));
    crate::transcript::law_normalizing_twice_changes_nothing(text);
    crate::transcript::law_normalized_is_empty_iff_blank(text);
    assert(seq![message].drop_last() =~= Seq::empty());
    assert(crate::stt::latest_text(Seq::empty()) is None);
}

/// An utterance that is not decoded shows nothing: its empty transcript is not
/// handed out, and does not hide an earlier one.
pub proof fn law_empty_transcript_shows_nothing<M, C, T, R>(
    utterance: Utterance,
    state: Dictation<M, C, T, R>,
    earlier: Seq<Result<String, String>>,
    message: Result<String, String>,
)
    requires
        !utterance.worth_decoding(),
        utterance.closing() == Answer::Complete(
            crate::recognizer::message_texts(seq![message]),
        ),
        state.inbox is Some,
    ensures
        crate::stt::latest_text(state.seen(earlier.push(message))) == crate::stt::latest_text(
            state.seen(earlier),
        ),
        state.drained(earlier.push(message)) == state.drained(earlier),
{
    let sent = crate::recognizer::message_texts(seq![message]);
    assert(sent[0] == crate::recognizer::message_text(message));
    assert(seq![Ok::<Seq<char>, Seq<char>>(Seq::empty())][0] == Ok::<Seq<char>, Seq<char>>(
        Seq::empty(),
    ));
    assert(earlier.push(message).drop_last() =~= earlier);
    crate::transcript::law_normalized_is_empty_iff_blank(Seq::empty());
}

/// A recording always has an inbox.
pub proof fn law_recording_has_an_inbox<M, C, T, R>(
    start: Dictation<M, C, T, R>,
    ops: Seq<SttOp<C, T, R>>,
)
    requires
        start.wf(),
    ensures
        start.after_all(ops).wf(),
    decreases ops.len(),
{
    if ops.len() > 0 {
        law_recording_has_an_inbox(start, ops.drop_last());
    }
}

/// Polls read the inbox of the last session that began, and of no other.
pub proof fn law_inbox_is_of_the_latest_session<M, C, T, R>(
    start: Dictation<M, C, T, R>,
    ops: Seq<SttOp<C, T, R>>,
)
    ensures
        start.after_all(ops).inbox == latest_inbox(start.inbox, ops),
    decreases ops.len(),
{
    if ops.len() > 0 {
        law_inbox_is_of_the_latest_session(start, ops.drop_last());
    }
}

/// A late decode of an earlier session cannot leak into a later one: whatever
/// comes after a session with the inbox `inbox` began, as long as no other
/// begins, what arrives in other inboxes changes neither the transcript that a
/// poll hands out nor the state that it leaves.
pub proof fn law_late_decode_cannot_leak<M, C, T, R>(
    start: Dictation<M, C, T, R>,
    capture: C,
    capture_thread: T,
    recognizer: T,
    inbox: R,
    opened_at: u64,
    later: Seq<SttOp<C, T, R>>,
    done: ThreadsDone,
    mail: spec_fn(R) -> Seq<Result<String, String>>,
    other_mail: spec_fn(R) -> Seq<Result<String, String>>,
    now: u64,
)
    requires
        forall|i: int| 0 <= i < later.len() ==> !(#[trigger] later[i]).opens(),
        mail(inbox) == other_mail(inbox),
    ensures
        ({
            let state = start.recording(
                capture,
                capture_thread,
                recognizer,
                inbox,
                opened_at,
            ).after_all(later);
            &&& state.inbox == Some(inbox)
            &&& state.collected_text(mail) == state.collected_text(other_mail)
            &&& state.collected(done, mail, now) == state.collected(done, other_mail, now)
        }),
{
    let begun = start.recording(capture, capture_thread, recognizer, inbox, opened_at);
    law_inbox_is_of_the_latest_session(begun, later);
    lemma_no_session_no_inbox(begun.inbox, later);
}

proof fn lemma_no_session_no_inbox<C, T, R>(before: Option<R>, ops: Seq<SttOp<C, T, R>>)
    requires
        forall|i: int| 0 <= i < ops.len() ==> !(#[trigger] ops[i]).opens(),
    ensures
        latest_inbox(before, ops) == before,
    decreases ops.len(),
{
    if ops.len() > 0 {
        let front = ops.drop_last();
        assert(!ops[ops.len() - 1].opens());
        assert forall|i: int| 0 <= i < front.len() implies !(#[trigger] front[i]).opens() by {
            assert(!ops[i].opens());
        }
        lemma_no_session_no_inbox(before, front);
    }
}

/// Every capture that is brought in is either running or was handed out, once,
/// to be stopped.
pub proof fn law_every_capture_is_stopped_once<M, C, T, R>(
    start: Dictation<M, C, T, R>,
    ops: Seq<SttOp<C, T, R>>,
)
    requires
        start.allows_all(ops),
    ensures
        start.after_all(ops).running().add(start.handed_out(ops)) == start.running().add(
            brought_captures(ops),
        ),
    decreases ops.len(),
{
    broadcast use vstd::multiset::group_multiset_axioms;

    if ops.len() > 0 {
        let front = ops.drop_last();
        law_every_capture_is_stopped_once(start, front);
        let before = start.after_all(front);
        let op = ops.last();
        let brought = match op {
            SttOp::Opened { capture, .. } => Multiset::singleton(capture),
            _ => Multiset::empty(),
        };
        assert(before.after(op).running().add(only(before.hands_out(op))) =~= before.running().add(
            brought,
        ));
        assert(start.after_all(ops).running().add(start.handed_out(ops)) =~= before.after(
            op,
        ).running().add(only(before.hands_out(op))).add(start.handed_out(front)));
        assert(before.running().add(brought).add(start.handed_out(front)) =~= before.running().add(
            start.handed_out(front),
        ).add(brought));
        assert(start.running().add(brought_captures(front)).add(brought) =~= start.running().add(
            brought_captures(ops),
        ));
    }
}

/// No recognizer is lost: every one that is brought in was taken out, once, to
/// be joined, or is kept.
pub proof fn law_no_recognizer_is_lost<M, C, T, R>(
    start: Dictation<M, C, T, R>,
    ops: Seq<SttOp<C, T, R>>,
)
    requires
        start.allows_all(ops),
    ensures
        start.after_all(ops).recognizers().add(start.joined(ops)) == start.recognizers().add(
            brought_recognizers(ops),
        ),
    decreases ops.len(),
{
    broadcast use vstd::multiset::group_multiset_axioms;
    broadcast use vstd::seq_lib::group_to_multiset_ensures;

    if ops.len() > 0 {
        let front = ops.drop_last();
        law_no_recognizer_is_lost(start, front);
        let before = start.after_all(front);
        let op = ops.last();
        let brought = match op {
            SttOp::Opened { recognizer, .. } => Multiset::singleton(recognizer),
            _ => Multiset::empty(),
        };
        let joined = before.joins(op);
        if op.marks() is Some {
            let marks = op.marks()->0.recognizers@;
            crate::stt::law_one_pass_takes_the_marked(before.finished_recognizers, marks);
            crate::stt::law_reaping_loses_no_thread(before.finished_recognizers, marks);
        }
        assert(before.after(op).recognizers().add(joined) =~= before.recognizers().add(brought));
        assert(start.after_all(ops).recognizers().add(start.joined(ops)) =~= before.after(
            op,
        ).recognizers().add(joined).add(start.joined(front)));
        assert(before.recognizers().add(brought).add(start.joined(front))
            =~= before.recognizers().add(start.joined(front)).add(brought));
        assert(start.recognizers().add(brought_recognizers(front)).add(brought)
            =~= start.recognizers().add(brought_recognizers(ops)));
    }
}

/// No capture thread is lost: every one that is brought in was taken out, once,
/// to be joined, or is kept.
pub proof fn law_no_capture_thread_is_lost<M, C, T, R>(
    start: Dictation<M, C, T, R>,
    ops: Seq<SttOp<C, T, R>>,
)
    requires
        start.allows_all(ops),
    ensures
        start.after_all(ops).capture_threads().add(start.joined_captures(ops))
            == start.capture_threads().add(brought_capture_threads(ops)),
    decreases ops.len(),
{
    broadcast use vstd::multiset::group_multiset_axioms;
    broadcast use vstd::seq_lib::group_to_multiset_ensures;

    if ops.len() > 0 {
        let front = ops.drop_last();
        law_no_capture_thread_is_lost(start, front);
        let before = start.after_all(front);
        let op = ops.last();
        let brought = match op {
            SttOp::Opened { capture_thread, .. } => Multiset::singleton(capture_thread),
            _ => Multiset::empty(),
        };
        let joined = before.joins_captures(op);
        if op.marks() is Some {
            let marks = op.marks()->0.captures@;
            crate::stt::law_one_pass_takes_the_marked(before.finished_captures, marks);
            crate::stt::law_reaping_loses_no_thread(before.finished_captures, marks);
        }
        assert(before.after(op).capture_threads().add(joined) =~= before.capture_threads().add(
            brought,
        ));
        assert(start.after_all(ops).capture_threads().add(start.joined_captures(ops))
            =~= before.after(op).capture_threads().add(joined).add(start.joined_captures(front)));
        assert(before.capture_threads().add(brought).add(start.joined_captures(front))
            =~= before.capture_threads().add(start.joined_captures(front)).add(brought));
        assert(start.capture_threads().add(brought_capture_threads(front)).add(brought)
            =~= start.capture_threads().add(brought_capture_threads(ops)));
    }
}

/// The caller is never blocked by a stalled microphone or a running decode: of
/// the threads of either kind, only those that are known to have finished are
/// ever taken out to be joined, and a release takes out none.
pub proof fn law_no_running_thread_is_joined<M, C, T, R>(
    state: Dictation<M, C, T, R>,
    op: SttOp<C, T, R>,
    thread: T,
)
    requires
        state.allows(op),
    ensures
        op is End ==> state.joins(op).len() == 0 && state.joins_captures(op).len() == 0,
        state.joins(op).contains(thread) ==> op.marks() is Some && exists|i: int|
            0 <= i < state.finished_recognizers.len() && #[trigger] state.finished_recognizers[i]
                == thread && op.marks()->0.recognizers@[i],
        state.joins_captures(op).contains(thread) ==> op.marks() is Some && exists|i: int|
            0 <= i < state.finished_captures.len() && #[trigger] state.finished_captures[i]
                == thread && op.marks()->0.captures@[i],
{
    broadcast use vstd::multiset::group_multiset_axioms;

    if op.marks() is Some {
        let recognizers = op.marks()->0.recognizers@;
        let captures = op.marks()->0.captures@;
        crate::stt::law_one_pass_takes_the_marked(state.finished_recognizers, recognizers);
        crate::stt::law_one_pass_takes_the_marked(state.finished_captures, captures);
        if state.joins(op).contains(thread) {
            crate::stt::law_only_marked_threads_are_chosen(
                state.finished_recognizers,
                recognizers,
                true,
                thread,
            );
        }
        if state.joins_captures(op).contains(thread) {
            crate::stt::law_only_marked_threads_are_chosen(
                state.finished_captures,
                captures,
                true,
                thread,
            );
        }
    }
}

/// A press that fails before there is a stream changes nothing but what the
/// press itself changed: dictation is idle, and nothing is handed out.
pub proof fn law_failed_setup_changes_nothing<M, C, T, R>(
    idle: Dictation<M, C, T, R>,
    failure: StartFailure,
)
    ensures
        ({
            let op = SttOp::NotStarted { failure };
            &&& idle.allows(op)
            &&& idle.after(op) == idle
            &&& idle.hands_out(op) is None
            &&& idle.joins(op) == Multiset::<T>::empty()
            &&& idle.joins_captures(op) == Multiset::<T>::empty()
        }),
{
}

/// Over any history of dictation that starts idle, a release succeeds exactly
/// where a session that began has been ended neither by a release, nor by the
/// close, nor by an overdue poll; and it ends that session.
pub proof fn law_release_succeeds_iff_in_progress<M, C, T, R>(
    start: Dictation<M, C, T, R>,
    ops: Seq<SttOp<C, T, R>>,
    now: u64,
)
    requires
        start.active is None,
        start.allows_all(ops),
    ensures
        start.after_all(ops).hands_out(SttOp::End { now }) is Some <==> exists|i: int|
            in_progress(ops, i),
        forall|i: int| #[trigger]
            in_progress(ops, i) ==> start.after_all(ops).active == Some(session_of(ops[i])),
    decreases ops.len(),
{
    if ops.len() > 0 {
        let front = ops.drop_last();
        let op = ops.last();
        let last = ops.len() - 1;
        let before = start.after_all(front);
        law_release_succeeds_iff_in_progress(start, front, now);
        law_recording_has_an_inbox(start, front);
        assert(ops[last] == op);
        assert forall|i: int| in_progress(ops, i) implies i == last || in_progress(front, i) by {
            if i < last {
                assert(front[i] == ops[i]);
                assert forall|j: int| i < j < front.len() implies !(#[trigger] front[j]).ends(
                    front[i]->Opened_now,
                ) by {
                    assert(front[j] == ops[j]);
                }
            }
        }
        if op.opens() {
            assert(in_progress(ops, last));
            assert forall|i: int| in_progress(front, i) implies false by {
                assert(before.active is Some);
            }
        } else if before.active is Some {
            let i = choose|i: int| in_progress(front, i);
            assert(before.hands_out(SttOp::End { now }) is Some);
            assert(in_progress(front, i));
            assert(front[i] == ops[i]);
            assert(before.active == Some(session_of(ops[i])));
            if !op.ends(ops[i]->Opened_now) {
                assert forall|j: int| i < j < ops.len() implies !(#[trigger] ops[j]).ends(
                    ops[i]->Opened_now,
                ) by {
                    if j < last {
                        assert(front[j] == ops[j]);
                    }
                }
                assert(in_progress(ops, i));
            } else {
                assert forall|k: int| in_progress(ops, k) implies false by {
                    assert(in_progress(front, k));
                    assert(front[k] == ops[k]);
                    assert(before.active == Some(session_of(front[k])));
                    assert(!ops[last].ends(ops[k]->Opened_now));
                }
            }
        }
    }
}

/// The recording that an opening brings about.
pub open spec fn session_of<C, T, R>(op: SttOp<C, T, R>) -> Recording<C, T> {
    Recording {
        capture: op->Opened_capture,
        capture_thread: op->Opened_capture_thread,
        recognizer: op->Opened_recognizer,
        deadline: op->Opened_now + MAX_DURATION,
    }
}

/// Over any history, the model may be unloaded `UNLOAD_AFTER` after its last
/// use, and not before.
pub proof fn law_unloading_follows_the_last_use<M, C, T, R>(
    start: Dictation<M, C, T, R>,
    used_at: u64,
    ops: Seq<SttOp<C, T, R>>,
)
    requires
        start.unload_at == used_at + UNLOAD_AFTER,
    ensures
        start.after_all(ops).unload_at == start.last_use(used_at, ops) + UNLOAD_AFTER,
    decreases ops.len(),
{
    if ops.len() > 0 {
        law_unloading_follows_the_last_use(start, used_at, ops.drop_last());
    }
}

proof fn lemma_shown_needs_messages<M, C, T, R>(
    start: Dictation<M, C, T, R>,
    ops: Seq<SttOp<C, T, R>>,
)
    ensures
        start.shown(ops) <= messages_read(ops).len(),
    decreases ops.len(),
{
    if ops.len() > 0 {
        lemma_shown_needs_messages(start, ops.drop_last());
    }
}

/// One session, one transcript: where the polls of a course read no more than
/// what the recognizer of one utterance sent, whatever it went through, at most
/// one of them hands out a transcript.
pub proof fn law_one_transcript_per_session<M, C, T, R>(
    min_samples: nat,
    events: Seq<RecognizerEvent>,
    start: Dictation<M, C, T, R>,
    ops: Seq<SttOp<C, T, R>>,
)
    requires
        Utterance::fresh(min_samples).expects_all(events),
        crate::recognizer::message_texts(messages_read(ops)).is_prefix_of(
            crate::recognizer::sent(Utterance::fresh(min_samples).answers(events)),
        ),
    ensures
        start.shown(ops) <= 1,
{
    crate::recognizer::law_one_message_per_utterance(min_samples, events);
    lemma_shown_needs_messages(start, ops);
}

/// Dictation that is set up knows its number, its configuration and its model,
/// and has nothing else: no recording, no thread, no inbox and no error.
pub proof fn law_set_up_is_idle<M, C, T, R>(
    id: usize,
    config: WhisperSttConfig,
    model: M,
    now: u64,
)
    ensures
        ({
            let fresh = Dictation::<M, C, T, R>::fresh(id, config, model, now);
            &&& fresh.id == id
            &&& fresh.config == config
            &&& fresh.model == model
            &&& fresh.active is None
            &&& fresh.finished_recognizers.len() == 0
            &&& fresh.finished_captures.len() == 0
            &&& fresh.inbox is None
            &&& fresh.last_error is None
            &&& fresh.unload_at == now + UNLOAD_AFTER
            &&& fresh.wf()
        }),
{
}

/// The model stays loaded for `UNLOAD_AFTER` after it was loaded and after each
/// use: over any history of dictation that was set up at `now`, it may be
/// unloaded at `t` exactly where more than that has passed since the last use,
/// or since `now` where there was none.
pub proof fn law_model_stays_while_in_use<M, C, T, R>(
    id: usize,
    config: WhisperSttConfig,
    model: M,
    now: u64,
    ops: Seq<SttOp<C, T, R>>,
    t: u64,
)
    ensures
        ({
            let fresh = Dictation::<M, C, T, R>::fresh(id, config, model, now);
            &&& fresh.after_all(ops).unload_at < t <==> t > fresh.last_use(now, ops) + UNLOAD_AFTER
            &&& fresh.last_use(now, Seq::empty()) == now
        }),
{
    let fresh = Dictation::<M, C, T, R>::fresh(id, config, model, now);
    law_unloading_follows_the_last_use(fresh, now, ops);
}

/// The last use is the last operation that uses the model: a press, a release, a
/// poll that hands out a transcript, or the close of a recording.
pub proof fn law_last_use_is_the_last<M, C, T, R>(
    start: Dictation<M, C, T, R>,
    before: u64,
    ops: Seq<SttOp<C, T, R>>,
    op: SttOp<C, T, R>,
)
    ensures
        ({
            let state = start.after_all(ops);
            let earlier = start.last_use(before, ops);
            let last = start.last_use(before, ops.push(op));
            match op {
                SttOp::Start { now, .. } => last == now,
                SttOp::End { now } => last == now,
                SttOp::Poll { messages, now, .. } => last == if state.inbox is Some
                    && crate::stt::latest_text(messages) is Some {
                    now
                } else {
                    earlier
                },
                SttOp::Close { now } => last == if state.active is Some {
                    now
                } else {
                    earlier
                },
                _ => last == earlier,
            }
        }),
{
    assert(ops.push(op).drop_last() =~= ops);
}

/// A press takes out the threads that have finished and puts off the unloading.
/// A recording in progress, its inbox and the last error are left alone.
pub proof fn law_press_leaves_the_rest_alone<M, C, T, R>(
    state: Dictation<M, C, T, R>,
    done: ThreadsDone,
    now: u64,
)
    ensures
        ({
            let pressed = state.reaped(done).used(now);
            &&& pressed.unload_at == now + UNLOAD_AFTER
            &&& pressed.id == state.id
            &&& pressed.config == state.config
            &&& pressed.model == state.model
            &&& pressed.active == state.active
            &&& pressed.inbox == state.inbox
            &&& pressed.last_error == state.last_error
            &&& pressed.finished_recognizers == state.reaped(done).finished_recognizers
            &&& pressed.finished_captures == state.reaped(done).finished_captures
        }),
{
}

/// Taking out threads leaves those that have not finished, and everything else,
/// as it is; what is taken out are those that have.
pub proof fn law_reaping_leaves_the_rest_alone<M, C, T, R>(
    state: Dictation<M, C, T, R>,
    done: ThreadsDone,
    finished: FinishedThreads<T>,
)
    requires
        done.recognizers@.len() == state.finished_recognizers.len(),
        done.captures@.len() == state.finished_captures.len(),
    ensures
        state.marked_by(done),
        ({
            let reaped = state.reaped(done);
            let recognizers = state.finished_recognizers;
            let captures = state.finished_captures;
            &&& reaped.finished_recognizers.to_multiset() == crate::stt::chosen(
                recognizers,
                done.recognizers@,
                false,
            )
            &&& reaped.finished_captures.to_multiset() == crate::stt::chosen(
                captures,
                done.captures@,
                false,
            )
            &&& state.reaps(done, finished) ==> finished.recognizers@.to_multiset()
                == crate::stt::chosen(recognizers, done.recognizers@, true)
            &&& state.reaps(done, finished) ==> finished.captures@.to_multiset()
                == crate::stt::chosen(captures, done.captures@, true)
            &&& reaped.id == state.id
            &&& reaped.config == state.config
            &&& reaped.model == state.model
            &&& reaped.active == state.active
            &&& reaped.inbox == state.inbox
            &&& reaped.last_error == state.last_error
            &&& reaped.unload_at == state.unload_at
        }),
{
    crate::stt::law_one_pass_takes_the_marked(state.finished_recognizers, done.recognizers@);
    crate::stt::law_one_pass_takes_the_marked(state.finished_captures, done.captures@);
}

/// What is taken out comes in the order of one pass over each list.
pub proof fn law_reaping_is_one_pass<M, C, T, R>(
    state: Dictation<M, C, T, R>,
    done: ThreadsDone,
    finished: FinishedThreads<T>,
)
    requires
        state.reaps(done, finished),
    ensures
        (state.reaped(done).finished_recognizers, finished.recognizers@) == crate::stt::one_pass(
            state.finished_recognizers,
            done.recognizers@,
            0,
        ),
        (state.reaped(done).finished_captures, finished.captures@) == crate::stt::one_pass(
            state.finished_captures,
            done.captures@,
            0,
        ),
{
}

/// A stream that opens begins a session with what it brought: its capture, both
/// threads, its inbox, and `MAX_DURATION` to go. Nothing else changes.
pub proof fn law_opening_begins_a_session<M, C, T, R>(
    state: Dictation<M, C, T, R>,
    capture: C,
    capture_thread: T,
    recognizer: T,
    inbox: R,
    now: u64,
)
    ensures
        ({
            let begun = state.recording(capture, capture_thread, recognizer, inbox, now);
            &&& begun.active is Some
            &&& begun.active->0.capture == capture
            &&& begun.active->0.capture_thread == capture_thread
            &&& begun.active->0.recognizer == recognizer
            &&& begun.active->0.deadline == now + MAX_DURATION
            &&& begun.inbox == Some(inbox)
            &&& begun.id == state.id
            &&& begun.config == state.config
            &&& begun.model == state.model
            &&& begun.finished_recognizers == state.finished_recognizers
            &&& begun.finished_captures == state.finished_captures
            &&& begun.last_error == state.last_error
            &&& begun.unload_at == state.unload_at
        }),
{
}

/// A stream that does not open leaves its two threads to be joined, and changes
/// nothing else.
pub proof fn law_failed_opening_leaves_two_threads<M, C, T, R>(
    state: Dictation<M, C, T, R>,
    capture_thread: T,
    recognizer: T,
)
    ensures
        ({
            let failed = state.not_opened(capture_thread, recognizer);
            &&& failed.finished_recognizers == state.finished_recognizers.push(recognizer)
            &&& failed.finished_captures == state.finished_captures.push(capture_thread)
            &&& failed.id == state.id
            &&& failed.config == state.config
            &&& failed.model == state.model
            &&& failed.active == state.active
            &&& failed.inbox == state.inbox
            &&& failed.last_error == state.last_error
            &&& failed.unload_at == state.unload_at
        }),
{
}

/// Stopping ends the recording and leaves its two threads to be joined and its
/// inbox to be read; where there is no recording, it changes nothing. It has no
/// bearing on anything else.
pub proof fn law_stopping_ends_the_recording<M, C, T, R>(state: Dictation<M, C, T, R>)
    ensures
        ({
            let stopped = state.stopped();
            &&& stopped.active is None
            &&& state.active is Some ==> stopped.finished_recognizers
                == state.finished_recognizers.push(state.active->0.recognizer)
            &&& state.active is Some ==> stopped.finished_captures == state.finished_captures.push(
                state.active->0.capture_thread,
            )
            &&& state.active is None ==> stopped.finished_recognizers == state.finished_recognizers
            &&& state.active is None ==> stopped.finished_captures == state.finished_captures
            &&& stopped.id == state.id
            &&& stopped.config == state.config
            &&& stopped.model == state.model
            &&& stopped.inbox == state.inbox
            &&& stopped.last_error == state.last_error
            &&& stopped.unload_at == state.unload_at
        }),
{
}

/// A poll: what it reads is what is in the inbox, and nothing where there is
/// none yet. The last error read is remembered. A transcript puts off the
/// unloading; where there is none, a recording whose deadline has come ends,
/// with its two threads left to be joined. Nothing else changes.
pub proof fn law_poll_reads_the_inbox<M, C, T, R>(
    state: Dictation<M, C, T, R>,
    messages: Seq<Result<String, String>>,
    now: u64,
)
    ensures
        state.inbox is Some ==> state.seen(messages) == messages,
        state.inbox is None ==> state.seen(messages).len() == 0,
        ({
            let polled = state.polled(messages, now);
            let text = crate::stt::latest_text(state.seen(messages));
            let error = crate::stt::latest_error(state.seen(messages));
            let ends = text is None && state.active is Some && now >= state.active->0.deadline;
            &&& polled.last_error == if error is Some {
                error
            } else {
                state.last_error
            }
            &&& polled.unload_at == if text is Some {
                now + UNLOAD_AFTER
            } else {
                state.unload_at
            }
            &&& state.poll_stops(messages, now) <==> ends
            &&& ends ==> polled.active is None
            &&& ends ==> polled.finished_recognizers == state.finished_recognizers.push(
                state.active->0.recognizer,
            )
            &&& ends ==> polled.finished_captures == state.finished_captures.push(
                state.active->0.capture_thread,
            )
            &&& !ends ==> polled.active == state.active
            &&& !ends ==> polled.finished_recognizers == state.finished_recognizers
            &&& !ends ==> polled.finished_captures == state.finished_captures
            &&& polled.inbox == state.inbox
            &&& polled.id == state.id
            &&& polled.config == state.config
            &&& polled.model == state.model
        }),
{
}

/// The number, the configuration and the model stay what they were at the start,
/// whatever happens.
pub proof fn law_identity_is_kept<M, C, T, R>(
    start: Dictation<M, C, T, R>,
    ops: Seq<SttOp<C, T, R>>,
)
    ensures
        start.after_all(ops).id == start.id,
        start.after_all(ops).config == start.config,
        start.after_all(ops).model == start.model,
    decreases ops.len(),
{
    if ops.len() > 0 {
        law_identity_is_kept(start, ops.drop_last());
    }
}

/// The last error is the last one that was read, over any history.
pub proof fn law_last_error_is_the_last_read<M, C, T, R>(
    start: Dictation<M, C, T, R>,
    ops: Seq<SttOp<C, T, R>>,
)
    requires
        start.inbox is Some,
    ensures
        start.after_all(ops).last_error == if crate::stt::latest_error(
            messages_read(ops),
        ) is Some {
            crate::stt::latest_error(messages_read(ops))
        } else {
            start.last_error
        },
        start.after_all(ops).inbox is Some,
    decreases ops.len(),
{
    if ops.len() > 0 {
        let front = ops.drop_last();
        law_last_error_is_the_last_read(start, front);
        if ops.last() is Poll {
            lemma_latest_error_of_both(messages_read(front), ops.last()->messages);
        } else {
            assert(messages_read(ops) =~= messages_read(front));
        }
    }
}

proof fn lemma_latest_error_of_both(
    a: Seq<Result<String, String>>,
    b: Seq<Result<String, String>>,
)
    ensures
        crate::stt::latest_error(a + b) == if crate::stt::latest_error(b) is Some {
            crate::stt::latest_error(b)
        } else {
            crate::stt::latest_error(a)
        },
    decreases b.len(),
{
    if b.len() == 0 {
        assert(a + b =~= a);
    } else {
        assert((a + b).drop_last() =~= a + b.drop_last());
        lemma_latest_error_of_both(a, b.drop_last());
    }
}

/// The operations of a course are the calls: what each does to dictation, and
/// which capture it hands out.
pub proof fn law_operations_are_the_calls<M, C, T, R>(
    state: Dictation<M, C, T, R>,
    done: ThreadsDone,
    messages: Seq<Result<String, String>>,
    capture: C,
    capture_thread: T,
    recognizer: T,
    inbox: R,
    ready: Option<Result<(), String>>,
    now: u64,
)
    ensures
        ({
            let opened = SttOp::Opened { ready, capture, capture_thread, recognizer, inbox, now };
            let poll = SttOp::Poll { done, messages, now };
            let held = state.active is Some;
            let opens = ready is Some && ready->0 is Ok;
            &&& state.after(SttOp::Start { done, now }) == state.reaped(done).used(now)
            &&& state.after(SttOp::Reap { done }) == state.reaped(done)
            &&& state.after(SttOp::End { now }) == state.used(now).stopped()
            &&& state.after(poll) == state.reaped(done).polled(messages, now)
            &&& held ==> state.after(SttOp::Close { now }) == state.used(now).stopped()
            &&& !held ==> state.after(SttOp::Close { now }) == state
            &&& opens ==> state.after(opened) == state.recording(
                capture,
                capture_thread,
                recognizer,
                inbox,
                now,
            )
            &&& !opens ==> state.after(opened) == state.not_opened(
                capture_thread,
                recognizer,
            )
            &&& state.hands_out(SttOp::End { now }) is Some <==> held
            &&& held ==> state.hands_out(SttOp::End { now }) == Some(state.active->0.capture)
            &&& state.hands_out(SttOp::Close { now }) == state.hands_out(SttOp::End { now })
            &&& state.poll_stops(messages, now) ==> state.hands_out(poll) == Some(
                state.active->0.capture,
            )
            &&& !state.poll_stops(messages, now) ==> state.hands_out(poll) is None
        }),
{
}

/// The state after a course, operation by operation.
pub proof fn law_courses_go_operation_by_operation<M, C, T, R>(
    start: Dictation<M, C, T, R>,
    ops: Seq<SttOp<C, T, R>>,
    op: SttOp<C, T, R>,
)
    ensures
        start.after_all(Seq::empty()) == start,
        start.after_all(ops.push(op)) == start.after_all(ops).after(op),
        start.allows_all(Seq::empty()),
        start.allows_all(ops.push(op)) <==> start.allows_all(ops) && start.after_all(ops).allows(op),
{
    assert(ops.push(op).drop_last() =~= ops);
}

} // verus!
