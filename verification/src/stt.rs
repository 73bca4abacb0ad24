//! Push-to-talk dictation: the life of its sessions.
//!
//! Press starts a session, release ends it, and a poll from the render loop
//! picks up what was transcribed. The library decides; whoever drives it opens
//! and stops the capture stream, runs and joins threads, and reads the clock.
//! Four kinds of things pass through it untouched:
//!
//! - `M`, the loaded model;
//! - `C`, a running capture, which its owner can tell to stop;
//! - `T`, a thread, which its owner can join;
//! - `R`, the inbox of a session, where its recognizer, and no other, leaves
//!   its messages.
//!
//! A clock reading is a number of nanoseconds on a clock that does not go back.

use crate::config::WhisperSttConfig;
use crate::error::WhisperSttError;
use crate::sample::WHISPER_SAMPLE_RATE;
use crate::transcript::normalize_transcript;
use vstd::multiset::Multiset;
use vstd::prelude::*;

verus! {

/// A recording is not longer than this.
pub const MAX_DURATION: u64 = 30_000_000_000;

/// The model may be unloaded when it has not been used for this long.
pub const UNLOAD_AFTER: u64 = 300_000_000_000;

/// The capture stream is waited for this long at most, so that a stalled or
/// suspended device cannot freeze the display.
pub const READY_TIMEOUT: u64 = 3_000_000_000;

/// A recording in progress.
struct CaptureSession<C, T> {
    capture: C,
    capture_thread: T,
    recognizer: T,
    deadline: u128,
}

/// Push-to-talk dictation.
pub struct WhisperStt<M, C, T, R> {
    id: usize,
    config: WhisperSttConfig,
    model: M,
    active: Option<CaptureSession<C, T>>,
    // Threads of sessions that ended, to be joined once they have finished: to
    // join one that still runs could block the caller.
    finished_recognizers: Vec<T>,
    finished_captures: Vec<T>,
    // The inbox of the latest session. That of an earlier one is dropped, so a
    // late message of its recognizer reaches nobody.
    inbox: Option<R>,
    last_error: Option<String>,
    unload_at: u128,
}

/// Which of the threads of ended sessions have finished: one mark for each
/// thread of the list of that name.
#[derive(Debug)]
pub struct ThreadsDone {
    pub recognizers: Vec<bool>,
    pub captures: Vec<bool>,
}

/// Threads that have finished, to be joined: that does not block.
#[derive(Debug)]
pub struct FinishedThreads<T> {
    pub recognizers: Vec<T>,
    pub captures: Vec<T>,
}

/// What follows a press.
#[derive(Debug)]
pub struct Press<T> {
    pub finished: FinishedThreads<T>,
    /// What to open, or why not.
    pub plan: Result<CapturePlan, WhisperSttError>,
}

/// Why a session could not even be set up.
#[derive(Debug)]
pub enum StartFailure {
    /// The thread of the recognizer could not be spawned.
    Thread(String),
    /// The capture could not be started.
    Capture(String),
}

/// What to open for a new session.
#[derive(Debug)]
pub struct CapturePlan {
    /// The source node to capture from; `None` for the default source.
    pub target: Option<String>,
    /// Samples per second.
    pub rate: u32,
}

/// What a poll brought.
#[derive(Debug)]
pub struct Poll<C, T> {
    pub finished: FinishedThreads<T>,
    /// The latest transcript, if there is one.
    pub text: Option<String>,
    /// The capture of a recording that has been going on for too long, to be
    /// stopped.
    pub stopped: Option<C>,
}

/// A recording in progress.
pub struct Recording<C, T> {
    pub capture: C,
    /// The thread that the capture runs on.
    pub capture_thread: T,
    pub recognizer: T,
    /// The clock reading from which on the recording is too long.
    pub deadline: int,
}

/// The state of dictation.
pub struct Dictation<M, C, T, R> {
    pub id: usize,
    pub config: WhisperSttConfig,
    pub model: M,
    pub active: Option<Recording<C, T>>,
    pub finished_recognizers: Seq<T>,
    pub finished_captures: Seq<T>,
    pub inbox: Option<R>,
    pub last_error: Option<Seq<char>>,
    /// The clock reading after which the model may be unloaded.
    pub unload_at: int,
}

impl<M, C, T, R> View for WhisperStt<M, C, T, R> {
    type V = Dictation<M, C, T, R>;

    closed spec fn view(&self) -> Dictation<M, C, T, R> {
        Dictation {
            id: self.id,
            config: self.config,
            model: self.model,
            active: match self.active {
                Some(session) => Some(
                    Recording {
                        capture: session.capture,
                        capture_thread: session.capture_thread,
                        recognizer: session.recognizer,
                        deadline: session.deadline as int,
                    },
                ),
                None => None,
            },
            finished_recognizers: self.finished_recognizers@,
            finished_captures: self.finished_captures@,
            inbox: self.inbox,
            last_error: match self.last_error {
                Some(text) => Some(text@),
                None => None,
            },
            unload_at: self.unload_at as int,
        }
    }
}

/// The transcript to show among `messages`: the latest that is not blank, in
/// its tidy form.
pub open spec fn latest_text(messages: Seq<Result<String, String>>) -> Option<Seq<char>>
    decreases messages.len(),
{
    if messages.len() == 0 {
        None
    } else {
        match messages.last() {
            Ok(text) => if crate::transcript::normalized(text@).len() > 0 {
                Some(crate::transcript::normalized(text@))
            } else {
                latest_text(messages.drop_last())
            },
            Err(_) => latest_text(messages.drop_last()),
        }
    }
}

/// The latest error among `messages`.
pub open spec fn latest_error(messages: Seq<Result<String, String>>) -> Option<Seq<char>>
    decreases messages.len(),
{
    if messages.len() == 0 {
        None
    } else {
        match messages.last() {
            Ok(_) => latest_error(messages.drop_last()),
            Err(text) => Some(text@),
        }
    }
}

impl<M, C, T, R> Dictation<M, C, T, R> {
    /// Dictation just set up.
    pub open spec fn fresh(id: usize, config: WhisperSttConfig, model: M, now: u64) -> Self {
        Dictation {
            id,
            config,
            model,
            active: None,
            finished_recognizers: Seq::empty(),
            finished_captures: Seq::empty(),
            inbox: None,
            last_error: None,
            unload_at: now + UNLOAD_AFTER,
        }
    }

    /// A recording has an inbox for what will become of it.
    pub open spec fn wf(self) -> bool {
        self.active is Some ==> self.inbox is Some
    }

    /// Whether `done` has a mark for each thread of the ended sessions.
    pub open spec fn marked_by(self, done: ThreadsDone) -> bool {
        &&& done.recognizers@.len() == self.finished_recognizers.len()
        &&& done.captures@.len() == self.finished_captures.len()
    }

    /// The threads that have finished were taken out.
    pub open spec fn reaped(self, done: ThreadsDone) -> Self {
        Dictation {
            finished_recognizers: one_pass(self.finished_recognizers, done.recognizers@, 0).0,
            finished_captures: one_pass(self.finished_captures, done.captures@, 0).0,
            ..self
        }
    }

    /// Whether `finished` are the threads that were taken out.
    pub open spec fn reaps(self, done: ThreadsDone, finished: FinishedThreads<T>) -> bool {
        &&& finished.recognizers@ == one_pass(self.finished_recognizers, done.recognizers@, 0).1
        &&& finished.captures@ == one_pass(self.finished_captures, done.captures@, 0).1
    }

    /// The model was used, or is about to be.
    pub open spec fn used(self, now: u64) -> Self {
        Dictation { unload_at: now + UNLOAD_AFTER, ..self }
    }

    /// The capture stream is open: a session begins.
    pub open spec fn recording(
        self,
        capture: C,
        capture_thread: T,
        recognizer: T,
        inbox: R,
        now: u64,
    ) -> Self {
        Dictation {
            active: Some(
                Recording { capture, capture_thread, recognizer, deadline: now + MAX_DURATION },
            ),
            inbox: Some(inbox),
            ..self
        }
    }

    /// The capture stream did not open: neither thread has anything to do, and
    /// neither is waited for.
    pub open spec fn not_opened(self, capture_thread: T, recognizer: T) -> Self {
        Dictation {
            finished_recognizers: self.finished_recognizers.push(recognizer),
            finished_captures: self.finished_captures.push(capture_thread),
            ..self
        }
    }

    /// The session, if there is one, is over. Neither of its threads is waited
    /// for: the microphone may be stalled, and the recognizer may still decode.
    pub open spec fn stopped(self) -> Self {
        match self.active {
            Some(session) => Dictation {
                active: None,
                finished_recognizers: self.finished_recognizers.push(session.recognizer),
                finished_captures: self.finished_captures.push(session.capture_thread),
                ..self
            },
            None => self,
        }
    }

    /// What of `messages` is seen: nothing where no session has begun yet.
    pub open spec fn seen(self, messages: Seq<Result<String, String>>) -> Seq<
        Result<String, String>,
    > {
        if self.inbox is Some {
            messages
        } else {
            Seq::empty()
        }
    }

    /// The messages were read.
    pub open spec fn drained(self, messages: Seq<Result<String, String>>) -> Self {
        Dictation {
            last_error: match latest_error(self.seen(messages)) {
                Some(text) => Some(text),
                None => self.last_error,
            },
            ..self
        }
    }

    /// Whether the recording has been going on for too long.
    pub open spec fn overdue(self, now: u64) -> bool {
        self.active is Some && now >= self.active->0.deadline
    }

    /// Whether a poll that reads `messages` stops the recording: it is overdue,
    /// and there is no transcript to hand out first.
    pub open spec fn poll_stops(self, messages: Seq<Result<String, String>>, now: u64) -> bool {
        latest_text(self.seen(messages)) is None && self.overdue(now)
    }

    /// The inbox was polled.
    pub open spec fn polled(self, messages: Seq<Result<String, String>>, now: u64) -> Self {
        let read = self.drained(messages);
        if latest_text(self.seen(messages)) is Some {
            read.used(now)
        } else if read.overdue(now) {
            read.stopped()
        } else {
            read
        }
    }
}

/// Those of `handles` that have the mark `mark`, each as often as it occurs.
pub open spec fn chosen<T>(handles: Seq<T>, marks: Seq<bool>, mark: bool) -> Multiset<T>
    decreases handles.len(),
{
    if handles.len() == 0 {
        Multiset::empty()
    } else {
        chosen(handles.drop_last(), marks.drop_last(), mark).add(
            one_if(marks.last() == mark, handles.last()),
        )
    }
}

/// What one pass over `handles`, from place `from` on, leaves and what it takes,
/// in order: it takes each that is marked, and the last one moves into the gap.
pub open spec fn one_pass<T>(handles: Seq<T>, marks: Seq<bool>, from: nat) -> (Seq<T>, Seq<T>)
    decreases handles.len() - from,
{
    if from >= handles.len() {
        (handles, Seq::empty())
    } else if marks[from as int] {
        let (kept, taken) = one_pass(
            handles.update(from as int, handles.last()).drop_last(),
            marks.update(from as int, marks.last()).drop_last(),
            from,
        );
        (kept, seq![handles[from as int]] + taken)
    } else {
        one_pass(handles, marks, from + 1)
    }
}

/// `item`, or nothing.
pub open spec fn one_if<T>(there: bool, item: T) -> Multiset<T> {
    if there {
        Multiset::singleton(item)
    } else {
        Multiset::empty()
    }
}

/// Each handle has one mark or the other: none is lost, and none is there twice.
pub proof fn law_reaping_loses_no_thread<T>(handles: Seq<T>, marks: Seq<bool>)
    requires
        handles.len() == marks.len(),
    ensures
        chosen(handles, marks, true).add(chosen(handles, marks, false)) == handles.to_multiset(),
    decreases handles.len(),
{
    broadcast use vstd::multiset::group_multiset_axioms;
    broadcast use vstd::seq_lib::group_to_multiset_ensures;

    if handles.len() > 0 {
        law_reaping_loses_no_thread(handles.drop_last(), marks.drop_last());
        assert(handles.drop_last().push(handles.last()) =~= handles);
    }
    assert(chosen(handles, marks, true).add(chosen(handles, marks, false))
        =~= handles.to_multiset());
}

/// A handle is chosen only where it has the mark: no thread is joined that is
/// not known to have finished.
pub proof fn law_only_marked_threads_are_chosen<T>(
    handles: Seq<T>,
    marks: Seq<bool>,
    mark: bool,
    handle: T,
)
    requires
        handles.len() == marks.len(),
        chosen(handles, marks, mark).contains(handle),
    ensures
        exists|i: int| 0 <= i < handles.len() && #[trigger] handles[i] == handle && marks[i] == mark,
    decreases handles.len(),
{
    broadcast use vstd::multiset::group_multiset_axioms;

    if handles.len() > 0 {
        let front = handles.drop_last();
        if chosen(front, marks.drop_last(), mark).contains(handle) {
            law_only_marked_threads_are_chosen(front, marks.drop_last(), mark, handle);
            let i = choose|i: int|
                0 <= i < front.len() && #[trigger] front[i] == handle && marks.drop_last()[i]
                    == mark;
            assert(handles[i] == handle);
        } else {
            assert(handles[handles.len() - 1] == handle);
        }
    }
}

proof fn lemma_chosen_after_update<T>(
    handles: Seq<T>,
    marks: Seq<bool>,
    i: int,
    handle: T,
    its_mark: bool,
    mark: bool,
)
    requires
        handles.len() == marks.len(),
        0 <= i < handles.len(),
    ensures
        chosen(handles.update(i, handle), marks.update(i, its_mark), mark).add(
            one_if(marks[i] == mark, handles[i]),
        ) == chosen(handles, marks, mark).add(one_if(its_mark == mark, handle)),
    decreases handles.len(),
{
    broadcast use vstd::multiset::group_multiset_axioms;

    let new_handles = handles.update(i, handle);
    let new_marks = marks.update(i, its_mark);
    let left = one_if(marks[i] == mark, handles[i]);
    let entered = one_if(its_mark == mark, handle);
    if i == handles.len() - 1 {
        assert(new_handles.drop_last() =~= handles.drop_last());
        assert(new_marks.drop_last() =~= marks.drop_last());
        let front = chosen(handles.drop_last(), marks.drop_last(), mark);
        assert(front.add(entered).add(left) =~= front.add(left).add(entered));
    } else {
        lemma_chosen_after_update(
            handles.drop_last(),
            marks.drop_last(),
            i,
            handle,
            its_mark,
            mark,
        );
        assert(new_handles.drop_last() =~= handles.drop_last().update(i, handle));
        assert(new_marks.drop_last() =~= marks.drop_last().update(i, its_mark));
        let last = one_if(marks.last() == mark, handles.last());
        let front = chosen(handles.drop_last(), marks.drop_last(), mark);
        let new_front = chosen(new_handles.drop_last(), new_marks.drop_last(), mark);
        assert(new_front.add(last).add(left) =~= new_front.add(left).add(last));
        assert(front.add(entered).add(last) =~= front.add(last).add(entered));
    }
}

/// To move the last handle to the place of another takes that other one out.
proof fn lemma_chosen_after_swap_remove<T>(handles: Seq<T>, marks: Seq<bool>, i: int, mark: bool)
    requires
        handles.len() == marks.len(),
        0 <= i < handles.len(),
    ensures
        chosen(
            handles.update(i, handles.last()).drop_last(),
            marks.update(i, marks.last()).drop_last(),
            mark,
        ).add(one_if(marks[i] == mark, handles[i])) == chosen(handles, marks, mark),
{
    broadcast use vstd::multiset::group_multiset_axioms;

    lemma_chosen_after_update(handles, marks, i, handles.last(), marks.last(), mark);
    let moved = one_if(marks.last() == mark, handles.last());
    let left = one_if(marks[i] == mark, handles[i]);
    let rest = chosen(
        handles.update(i, handles.last()).drop_last(),
        marks.update(i, marks.last()).drop_last(),
        mark,
    );
    assert(rest.add(moved).add(left) == chosen(handles, marks, mark).add(moved));
    assert forall|handle: T| #[trigger]
        rest.add(left).count(handle) == chosen(handles, marks, mark).count(handle) by {
        assert(rest.add(moved).add(left).count(handle) == chosen(handles, marks, mark).add(
            moved,
        ).count(handle));
    }
    assert(rest.add(left) =~= chosen(handles, marks, mark));
}

proof fn lemma_chosen_of_unmarked<T>(handles: Seq<T>, marks: Seq<bool>)
    requires
        handles.len() == marks.len(),
        forall|k: int| 0 <= k < marks.len() ==> !#[trigger] marks[k],
    ensures
        chosen(handles, marks, true) == Multiset::<T>::empty(),
    decreases handles.len(),
{
    broadcast use vstd::multiset::group_multiset_axioms;

    if handles.len() > 0 {
        let front = marks.drop_last();
        assert forall|k: int| 0 <= k < front.len() implies !#[trigger] front[k] by {
            assert(!marks[k]);
        }
        assert(!marks[marks.len() - 1]);
        lemma_chosen_of_unmarked(handles.drop_last(), front);
    }
    assert(chosen(handles, marks, true) =~= Multiset::<T>::empty());
}

/// One pass takes the handles that are marked, and leaves the others.
pub proof fn law_one_pass_takes_the_marked<T>(handles: Seq<T>, marks: Seq<bool>)
    requires
        handles.len() == marks.len(),
    ensures
        one_pass(handles, marks, 0).0.to_multiset() == chosen(handles, marks, false),
        one_pass(handles, marks, 0).1.to_multiset() == chosen(handles, marks, true),
{
    lemma_one_pass(handles, marks, 0);
}

proof fn lemma_one_pass<T>(handles: Seq<T>, marks: Seq<bool>, from: nat)
    requires
        handles.len() == marks.len(),
        from <= handles.len(),
        forall|k: int| 0 <= k < from ==> !#[trigger] marks[k],
    ensures
        one_pass(handles, marks, from).0.to_multiset() == chosen(handles, marks, false),
        one_pass(handles, marks, from).1.to_multiset() == chosen(handles, marks, true),
    decreases handles.len() - from,
{
    broadcast use vstd::multiset::group_multiset_axioms;
    broadcast use vstd::seq_lib::group_to_multiset_ensures;

    let i = from as int;
    if from == handles.len() {
        lemma_chosen_of_unmarked(handles, marks);
        law_reaping_loses_no_thread(handles, marks);
        assert(handles.to_multiset() =~= chosen(handles, marks, false));
        assert(Seq::<T>::empty().to_multiset() =~= chosen(handles, marks, true));
    } else if marks[i] {
        let fewer = handles.update(i, handles.last()).drop_last();
        let fewer_marks = marks.update(i, marks.last()).drop_last();
        lemma_one_pass(fewer, fewer_marks, from);
        lemma_chosen_after_swap_remove(handles, marks, i, true);
        lemma_chosen_after_swap_remove(handles, marks, i, false);
        assert(chosen(fewer, fewer_marks, false) =~= chosen(handles, marks, false));
        let taken = one_pass(fewer, fewer_marks, from).1;
        vstd::seq_lib::lemma_multiset_commutative(seq![handles[i]], taken);
        assert(seq![handles[i]] =~= Seq::<T>::empty().push(handles[i]));
        assert((seq![handles[i]] + taken).to_multiset() =~= chosen(handles, marks, true));
    } else {
        lemma_one_pass(handles, marks, from + 1);
    }
}

/// Takes out of `handles` those that are marked as done, and leaves the others.
fn reap<T>(handles: &mut Vec<T>, done: &Vec<bool>) -> (taken: Vec<T>)
    requires
        old(handles)@.len() == done@.len(),
    ensures
        (final(handles)@, taken@) == one_pass(old(handles)@, done@, 0),
{
    let mut marks: Vec<bool> = Vec::new();
    marks.extend_from_slice(done.as_slice());
    assert(marks@ =~= done@);
    let mut taken: Vec<T> = Vec::new();
    let ghost all = handles@;
    let mut i: usize = 0;
    assert(one_pass(all, done@, 0).1 =~= taken@ + one_pass(handles@, marks@, 0).1);
    while i < handles.len()
        invariant
            i <= handles@.len(),
            handles@.len() == marks@.len(),
            one_pass(all, done@, 0).0 == one_pass(handles@, marks@, i as nat).0,
            one_pass(all, done@, 0).1 == taken@ + one_pass(handles@, marks@, i as nat).1,
        decreases handles@.len() - i,
    {
        if marks[i] {
            let ghost taken_before = taken@;
            let handle = handles.swap_remove(i);
            let _ = marks.swap_remove(i);
            taken.push(handle);
            assert(taken@ =~= taken_before + seq![handle]);
            assert(one_pass(all, done@, 0).1 =~= taken@ + one_pass(handles@, marks@, i as nat).1);
        } else {
            i = i + 1;
        }
    }
    assert(taken@ =~= one_pass(all, done@, 0).1);
    taken
}

impl<M, C, T, R> WhisperStt<M, C, T, R> {
    /// Dictation number `id` with the model as it was loaded, or as it failed to
    /// load.
    pub fn init(id: usize, config: WhisperSttConfig, loaded: Result<M, String>, now: u64) -> (stt:
        Result<Self, WhisperSttError>)
        ensures
            match loaded {
                Ok(model) => stt is Ok && stt->Ok_0@ == Dictation::<M, C, T, R>::fresh(
                    id,
                    config,
                    model,
                    now,
                ),
                Err(e) => stt is Err && stt->Err_0 == WhisperSttError::ModelLoad(e),
            },
    {
        match loaded {
            Err(e) => Err(WhisperSttError::ModelLoad(e)),
            Ok(model) => Ok(
                WhisperStt {
                    id,
                    config,
                    model,
                    active: None,
                    finished_recognizers: Vec::new(),
                    finished_captures: Vec::new(),
                    inbox: None,
                    last_error: None,
                    unload_at: now as u128 + UNLOAD_AFTER as u128,
                },
            ),
        }
    }

    /// Press: says what to open, unless a recording is in progress. What came
    /// of it is for `ptt_opened`. Threads that have finished are taken out.
    pub fn ptt_start(&mut self, done: &ThreadsDone, now: u64) -> (press: Press<T>)
        requires
            old(self)@.marked_by(*done),
        ensures
            final(self)@ == old(self)@.reaped(*done).used(now),
            old(self)@.reaps(*done, press.finished),
            match press.plan {
                Ok(plan) => {
                    &&& old(self)@.active is None
                    &&& plan.target == old(self)@.config.capture_target
                    &&& plan.rate == WHISPER_SAMPLE_RATE
                },
                Err(e) => old(self)@.active is Some && e == WhisperSttError::AlreadyRecording,
            },
    {
        self.unload_at = now as u128 + UNLOAD_AFTER as u128;
        let finished = self.reap_finished_threads(done);
        if self.active.is_some() {
            return Press { finished, plan: Err(WhisperSttError::AlreadyRecording) };
        }
        let plan = CapturePlan {
            target: self.config.capture_target.clone(),
            rate: WHISPER_SAMPLE_RATE as u32,
        };
        Press { finished, plan: Ok(plan) }
    }

    /// The error of a press for which `ptt_start` gave a plan and which failed
    /// before there was a stream to wait for. Dictation stays as `ptt_start` left
    /// it.
    pub fn ptt_not_started(&self, failure: StartFailure) -> (e: WhisperSttError)
        ensures
            match failure {
                StartFailure::Thread(text) => e == WhisperSttError::ThreadSpawn(text),
                StartFailure::Capture(text) => e == WhisperSttError::CaptureInit(text),
            },
    {
        match failure {
            StartFailure::Thread(text) => WhisperSttError::ThreadSpawn(text),
            StartFailure::Capture(text) => WhisperSttError::CaptureInit(text),
        }
    }

    /// Takes in how the opening of the capture stream went. `ready` is what the
    /// stream reported within `READY_TIMEOUT`, `None` where it reported nothing.
    /// A capture that is of no use comes back, to be told to stop; its thread
    /// and the recognizer are kept, to be joined once they have finished.
    pub fn ptt_opened(
        &mut self,
        ready: Option<Result<(), String>>,
        capture: C,
        capture_thread: T,
        recognizer: T,
        inbox: R,
        now: u64,
    ) -> (opened: Result<(), (C, WhisperSttError)>)
        requires
            old(self)@.active is None,
        ensures
            match ready {
                Some(Ok(())) => {
                    &&& opened is Ok
                    &&& final(self)@ == old(self)@.recording(
                        capture,
                        capture_thread,
                        recognizer,
                        inbox,
                        now,
                    )
                },
                Some(Err(e)) => {
                    &&& opened is Err
                    &&& opened->Err_0 == (capture, WhisperSttError::CaptureInit(e))
                    &&& final(self)@ == old(self)@.not_opened(capture_thread, recognizer)
                },
                None => {
                    &&& opened is Err
                    &&& opened->Err_0.0 == capture
                    &&& opened->Err_0.1 is CaptureInit
                    &&& opened->Err_0.1->CaptureInit_0@
                        == "microphone did not start within timeout"@
                    &&& final(self)@ == old(self)@.not_opened(capture_thread, recognizer)
                },
            },
    {
        let message = match ready {
            Some(Ok(())) => {
                self.inbox = Some(inbox);
                self.active = Some(
                    CaptureSession {
                        capture,
                        capture_thread,
                        recognizer,
                        deadline: now as u128 + MAX_DURATION as u128,
                    },
                );
                return Ok(());
            },
            Some(Err(e)) => e,
            None => "microphone did not start within timeout".to_owned(),
        };
        self.finished_recognizers.push(recognizer);
        self.finished_captures.push(capture_thread);
        Err((capture, WhisperSttError::CaptureInit(message)))
    }

    /// Ends the recording in progress and hands out its capture, to be told to
    /// stop. Its threads are kept, to be joined once they have finished.
    fn stop_active_capture(&mut self) -> (capture: Result<C, WhisperSttError>)
        ensures
            final(self)@ == old(self)@.stopped(),
            match capture {
                Ok(capture) => old(self)@.active is Some && capture
                    == old(self)@.active->0.capture,
                Err(e) => old(self)@.active is None && e == WhisperSttError::NotRecording,
            },
    {
        match self.active.take() {
            None => Err(WhisperSttError::NotRecording),
            Some(session) => {
                self.finished_recognizers.push(session.recognizer);
                self.finished_captures.push(session.capture_thread);
                Ok(session.capture)
            },
        }
    }

    /// Release: ends the recording and hands out its capture, to be told to stop.
    /// The recognizer goes on with the decode; `take_transcription` brings what
    /// becomes of it. No thread is handed out to be joined, so neither a stalled
    /// microphone nor a running decode can block the caller.
    pub fn ptt_end(&mut self, now: u64) -> (capture: Result<C, WhisperSttError>)
        ensures
            final(self)@ == old(self)@.used(now).stopped(),
            match capture {
                Ok(capture) => old(self)@.active is Some && capture
                    == old(self)@.active->0.capture,
                Err(e) => old(self)@.active is None && e == WhisperSttError::NotRecording,
            },
    {
        self.unload_at = now as u128 + UNLOAD_AFTER as u128;
        self.stop_active_capture()
    }

    /// Reads the messages that were in the inbox, and gives the transcript to
    /// show.
    fn drain_completed_transcriptions(&mut self, received: Vec<Result<String, String>>) -> (text:
        Option<String>)
        ensures
            final(self)@ == old(self)@.drained(received@),
            match text {
                Some(text) => latest_text(old(self)@.seen(received@)) == Some(text@),
                None => latest_text(old(self)@.seen(received@)) is None,
            },
    {
        if self.inbox.is_none() {
            return None;
        }
        let mut latest: Option<String> = None;
        let mut error: Option<String> = None;
        let ghost all = received@;
        for message in messages: received
            invariant
                messages.seq() == all,
                match latest {
                    Some(text) => latest_text(all.take(messages.index())) == Some(text@),
                    None => latest_text(all.take(messages.index())) is None,
                },
                match error {
                    Some(text) => latest_error(all.take(messages.index())) == Some(text@),
                    None => latest_error(all.take(messages.index())) is None,
                },
        {
            assert(all.take(messages.index() + 1).drop_last() =~= all.take(messages.index()));
            match message {
                Ok(text) => {
                    let text = normalize_transcript(text);
                    if !text.as_str().is_empty() {
                        latest = Some(text);
                    }
                },
                Err(e) => {
                    error = Some(e);
                },
            }
        }
        assert(all.take(all.len() as int) =~= all);
        if error.is_some() {
            self.last_error = error;
        }
        latest
    }

    /// Poll from the render loop: takes in the messages that were in `inbox`,
    /// all of them, in order, and hands out the latest transcript. Where there
    /// is none and the recording has been going on for too long, it ends, and
    /// its capture is handed out, to be stopped. Threads that have finished are
    /// taken out first.
    pub fn take_transcription(
        &mut self,
        done: &ThreadsDone,
        received: Vec<Result<String, String>>,
        now: u64,
    ) -> (poll: Poll<C, T>)
        requires
            old(self)@.marked_by(*done),
        ensures
            final(self)@ == old(self)@.reaped(*done).polled(received@, now),
            old(self)@.reaps(*done, poll.finished),
            match poll.text {
                Some(text) => latest_text(old(self)@.seen(received@)) == Some(text@),
                None => latest_text(old(self)@.seen(received@)) is None,
            },
            match poll.stopped {
                Some(capture) => old(self)@.poll_stops(received@, now) && capture
                    == old(self)@.active->0.capture,
                None => !old(self)@.poll_stops(received@, now),
            },
    {
        let finished = self.reap_finished_threads(done);
        let latest = self.drain_completed_transcriptions(received);
        if latest.is_some() {
            self.unload_at = now as u128 + UNLOAD_AFTER as u128;
            return Poll { finished, text: latest, stopped: None };
        }
        let overdue: bool = match &self.active {
            Some(session) => now as u128 >= session.deadline,
            None => false,
        };
        if overdue {
            match self.stop_active_capture() {
                Ok(capture) => {
                    return Poll { finished, text: None, stopped: Some(capture) };
                },
                Err(e) => {
                    self.last_error = Some(e.message());
                },
            }
        }
        Poll { finished, text: None, stopped: None }
    }

    /// Whether the model has not been used for `UNLOAD_AFTER`.
    pub fn should_unload(&self, now: u64) -> (yes: bool)
        ensures
            yes == (self@.unload_at < now),
    {
        self.unload_at < now as u128
    }

    /// Dictation is being closed: ends the recording in progress, if there is
    /// one, and hands out its capture, to be stopped.
    pub fn close(&mut self, now: u64) -> (capture: Option<C>)
        ensures
            match capture {
                Some(capture) => {
                    &&& old(self)@.active is Some
                    &&& capture == old(self)@.active->0.capture
                    &&& final(self)@ == old(self)@.used(now).stopped()
                },
                None => old(self)@.active is None && final(self)@ == old(self)@,
            },
    {
        if self.active.is_some() {
            match self.ptt_end(now) {
                Ok(capture) => {
                    return Some(capture);
                },
                Err(_) => {},
            }
        }
        None
    }

    /// Takes out the threads that have finished.
    pub fn reap_finished_threads(&mut self, done: &ThreadsDone) -> (finished: FinishedThreads<T>)
        requires
            old(self)@.marked_by(*done),
        ensures
            final(self)@ == old(self)@.reaped(*done),
            old(self)@.reaps(*done, finished),
    {
        let recognizers = reap(&mut self.finished_recognizers, &done.recognizers);
        let captures = reap(&mut self.finished_captures, &done.captures);
        FinishedThreads { recognizers, captures }
    }

    /// The number of this dictation.
    pub fn id(&self) -> (id: usize)
        ensures
            id == self@.id,
    {
        self.id
    }

    /// How this dictation is set up.
    pub fn config(&self) -> (config: &WhisperSttConfig)
        ensures
            *config == self@.config,
    {
        &self.config
    }

    /// The loaded model.
    pub fn model(&self) -> (model: &M)
        ensures
            *model == self@.model,
    {
        &self.model
    }

    /// The inbox of the latest session.
    pub fn inbox(&self) -> (inbox: Option<&R>)
        ensures
            match inbox {
                Some(inbox) => self@.inbox == Some(*inbox),
                None => self@.inbox is None,
            },
    {
        self.inbox.as_ref()
    }

    /// Recognizers of sessions that ended.
    pub fn finished_recognizers(&self) -> (threads: &Vec<T>)
        ensures
            threads@ == self@.finished_recognizers,
    {
        &self.finished_recognizers
    }

    /// Capture threads of sessions that ended.
    pub fn finished_captures(&self) -> (threads: &Vec<T>)
        ensures
            threads@ == self@.finished_captures,
    {
        &self.finished_captures
    }

    /// The text of the latest error that a recognizer reported.
    pub fn last_error(&self) -> (text: Option<&String>)
        ensures
            match text {
                Some(text) => self@.last_error == Some(text@),
                None => self@.last_error is None,
            },
    {
        self.last_error.as_ref()
    }
}

/// The transcript to show is the tidy form of the last message that is a
/// transcript and not blank; there is none exactly where all of them are errors
/// or blank.
pub proof fn law_latest_text_is_of_the_last_that_says_something(
    messages: Seq<Result<String, String>>,
)
    ensures
        latest_text(messages) is None <==> forall|i: int|
            0 <= i < messages.len() && (#[trigger] messages[i]) is Ok
                ==> crate::transcript::is_blank(messages[i]->Ok_0@),
        latest_text(messages) is Some ==> exists|i: int|
            {
                &&& 0 <= i < messages.len()
                &&& (#[trigger] messages[i]) is Ok
                &&& !crate::transcript::is_blank(messages[i]->Ok_0@)
                &&& latest_text(messages) == Some(
                    crate::transcript::normalized(messages[i]->Ok_0@),
                )
                &&& forall|j: int|
                    i < j < messages.len() && (#[trigger] messages[j]) is Ok
                        ==> crate::transcript::is_blank(messages[j]->Ok_0@)
            },
    decreases messages.len(),
{
    if messages.len() > 0 {
        let front = messages.drop_last();
        let last = messages.len() - 1;
        law_latest_text_is_of_the_last_that_says_something(front);
        assert(messages[last] == messages.last());
        assert(forall|i: int| 0 <= i < last ==> front[i] == #[trigger] messages[i]);
        if messages.last() is Ok {
            crate::transcript::law_normalized_is_empty_iff_blank(messages.last()->Ok_0@);
        }
        let says_something = messages.last() is Ok && !crate::transcript::is_blank(
            messages.last()->Ok_0@,
        );
        if !says_something {
            assert(latest_text(messages) == latest_text(front));
            if latest_text(front) is Some {
                let i = choose|i: int|
                    {
                        &&& 0 <= i < front.len()
                        &&& (#[trigger] front[i]) is Ok
                        &&& !crate::transcript::is_blank(front[i]->Ok_0@)
                        &&& latest_text(front) == Some(
                            crate::transcript::normalized(front[i]->Ok_0@),
                        )
                        &&& forall|j: int|
                            i < j < front.len() && (#[trigger] front[j]) is Ok
                                ==> crate::transcript::is_blank(front[j]->Ok_0@)
                    };
                assert(messages[i] is Ok);
            } else {
                assert forall|i: int|
                    0 <= i < messages.len() && (#[trigger] messages[i])
                        is Ok implies crate::transcript::is_blank(messages[i]->Ok_0@) by {
                    if i < last {
                        assert(front[i] is Ok);
                    }
                }
            }
        }
    }
}

/// The error to remember is the last message that is an error; there is none
/// exactly where no message is one.
pub proof fn law_latest_error_is_the_last(messages: Seq<Result<String, String>>)
    ensures
        latest_error(messages) is None <==> forall|i: int|
            0 <= i < messages.len() ==> (#[trigger] messages[i]) is Ok,
        latest_error(messages) is Some ==> exists|i: int|
            {
                &&& 0 <= i < messages.len()
                &&& (#[trigger] messages[i]) is Err
                &&& latest_error(messages) == Some(messages[i]->Err_0@)
                &&& forall|j: int| i < j < messages.len() ==> (#[trigger] messages[j]) is Ok
            },
    decreases messages.len(),
{
    if messages.len() > 0 {
        let front = messages.drop_last();
        let last = messages.len() - 1;
        law_latest_error_is_the_last(front);
        assert(messages[last] == messages.last());
        assert(forall|i: int| 0 <= i < last ==> front[i] == #[trigger] messages[i]);
        if messages.last() is Ok && latest_error(front) is Some {
            let i = choose|i: int|
                {
                    &&& 0 <= i < front.len()
                    &&& (#[trigger] front[i]) is Err
                    &&& latest_error(front) == Some(front[i]->Err_0@)
                    &&& forall|j: int| i < j < front.len() ==> (#[trigger] front[j]) is Ok
                };
            assert(messages[i] is Err);
        }
    }
}

/// A handle is chosen by its own mark, and each time it occurs.
pub proof fn law_handles_are_chosen_by_their_marks<T>(
    handles: Seq<T>,
    marks: Seq<bool>,
    handle: T,
    its_mark: bool,
    mark: bool,
)
    ensures
        chosen(Seq::<T>::empty(), Seq::empty(), mark) == Multiset::<T>::empty(),
        its_mark == mark ==> chosen(handles.push(handle), marks.push(its_mark), mark) == chosen(
            handles,
            marks,
            mark,
        ).insert(handle),
        its_mark != mark ==> chosen(handles.push(handle), marks.push(its_mark), mark) == chosen(
            handles,
            marks,
            mark,
        ),
{
    broadcast use vstd::multiset::group_multiset_axioms;

    assert(handles.push(handle).drop_last() =~= handles);
    assert(marks.push(its_mark).drop_last() =~= marks);
    let all = chosen(handles.push(handle), marks.push(its_mark), mark);
    if its_mark == mark {
        assert(all =~= chosen(handles, marks, mark).insert(handle));
    } else {
        assert(all =~= chosen(handles, marks, mark));
    }
}

proof fn lemma_one_pass_skips_unmarked<T>(handles: Seq<T>, marks: Seq<bool>, from: nat, to: nat)
    requires
        from <= to <= handles.len(),
        forall|k: int| from <= k < to ==> !#[trigger] marks[k],
    ensures
        one_pass(handles, marks, from) == one_pass(handles, marks, to),
    decreases to - from,
{
    if from < to {
        lemma_one_pass_skips_unmarked(handles, marks, from + 1, to);
    }
}

/// A pass over handles of which none is marked takes none and moves none. Where
/// there is one, the first is taken first, the last handle moves into its place,
/// and the rest goes as a pass over what is left.
pub proof fn law_one_pass_takes_the_first_marked_first<T>(
    handles: Seq<T>,
    marks: Seq<bool>,
    first: int,
)
    requires
        handles.len() == marks.len(),
        0 <= first <= handles.len(),
        forall|k: int| 0 <= k < first ==> !#[trigger] marks[k],
        first < handles.len() ==> marks[first],
    ensures
        first == handles.len() ==> one_pass(handles, marks, 0) == (handles, Seq::<T>::empty()),
        first < handles.len() ==> {
            let rest = one_pass(
                handles.update(first, handles.last()).drop_last(),
                marks.update(first, marks.last()).drop_last(),
                0,
            );
            &&& one_pass(handles, marks, 0).0 == rest.0
            &&& one_pass(handles, marks, 0).1 == seq![handles[first]] + rest.1
        },
{
    lemma_one_pass_skips_unmarked(handles, marks, 0, first as nat);
    if first < handles.len() {
        let fewer_marks = marks.update(first, marks.last()).drop_last();
        assert(forall|k: int| 0 <= k < first ==> fewer_marks[k] == #[trigger] marks[k]);
        lemma_one_pass_skips_unmarked(
            handles.update(first, handles.last()).drop_last(),
            fewer_marks,
            0,
            first as nat,
        );
    }
}

} // verus!
