//! The timer: one session at a time runs against an estimate, and a finished
//! session tells by how many minutes the estimate was off.
//!
//! The tracker holds what is kept between two runs of the program: the
//! session that is running, if any, and the sessions that were finished. It
//! trusts nothing else, so a session that was started by a run that has since
//! ended is finished like any other.

use crate::day_section::SECONDS_PER_MINUTE;
use vstd::prelude::*;

verus! {

/// A session that is running.
#[derive(Debug)]
pub struct TimerSession {
    pub task_name: String,
    /// When the session was started, in seconds.
    pub started_at: u64,
    pub estimated_minutes: u32,
}

/// A session that was finished.
#[derive(Debug)]
pub struct CompletedSession {
    pub task_name: String,
    /// When the session was started, in seconds.
    pub started_at: u64,
    /// When the session was finished, in seconds.
    pub ended_at: u64,
    pub estimated_minutes: u32,
    /// The whole minutes from the start to the end.
    pub actual_minutes: i64,
    /// By how many minutes the session outran its estimate; negative where
    /// it took less.
    pub error_minutes: i64,
}

/// A running session as a mathematical value.
pub struct SessionModel {
    pub task_name: Seq<char>,
    pub started_at: u64,
    pub estimated_minutes: u32,
}

/// A finished session as a mathematical value.
pub struct CompletedModel {
    pub task_name: Seq<char>,
    pub started_at: u64,
    pub ended_at: u64,
    pub estimated_minutes: u32,
    pub actual_minutes: int,
    pub error_minutes: int,
}

impl View for TimerSession {
    type V = SessionModel;

    open spec fn view(&self) -> SessionModel {
        SessionModel {
            task_name: self.task_name@,
            started_at: self.started_at,
            estimated_minutes: self.estimated_minutes,
        }
    }
}

impl View for CompletedSession {
    type V = CompletedModel;

    open spec fn view(&self) -> CompletedModel {
        CompletedModel {
            task_name: self.task_name@,
            started_at: self.started_at,
            ended_at: self.ended_at,
            estimated_minutes: self.estimated_minutes,
            actual_minutes: self.actual_minutes as int,
            error_minutes: self.error_minutes as int,
        }
    }
}

impl Clone for TimerSession {
    fn clone(&self) -> (r: TimerSession)
        ensures
            r == *self,
    {
        TimerSession {
            task_name: self.task_name.clone(),
            started_at: self.started_at,
            estimated_minutes: self.estimated_minutes,
        }
    }
}

impl Clone for CompletedSession {
    fn clone(&self) -> (r: CompletedSession)
        ensures
            r == *self,
    {
        CompletedSession {
            task_name: self.task_name.clone(),
            started_at: self.started_at,
            ended_at: self.ended_at,
            estimated_minutes: self.estimated_minutes,
            actual_minutes: self.actual_minutes,
            error_minutes: self.error_minutes,
        }
    }
}

/// Why the timer did not do what was asked.
#[derive(Clone, Copy, Debug, PartialEq, Eq, Structural)]
pub enum TimerStateError {
    /// A session is running, so none can be started.
    AlreadyRunning,
    /// No session is running, so none can be finished.
    NotRunning,
}

/// The whole minutes from `started_at` to `ended_at`, both in seconds;
/// negative where the clock was set back in between.
pub open spec fn elapsed_minutes(started_at: u64, ended_at: u64) -> int {
    if ended_at >= started_at {
        (ended_at - started_at) / SECONDS_PER_MINUTE as int
    } else {
        -((started_at - ended_at) / SECONDS_PER_MINUTE as int)
    }
}

impl SessionModel {
    /// The session as finished at `now`.
    pub open spec fn completed(self, now: u64) -> CompletedModel {
        CompletedModel {
            task_name: self.task_name,
            started_at: self.started_at,
            ended_at: now,
            estimated_minutes: self.estimated_minutes,
            actual_minutes: elapsed_minutes(self.started_at, now),
            error_minutes: elapsed_minutes(self.started_at, now) - self.estimated_minutes,
        }
    }
}

/// What the timer keeps, as a mathematical value.
pub struct TrackerModel {
    pub ongoing: Option<SessionModel>,
    pub history: Seq<CompletedModel>,
}

impl TrackerModel {
    /// What becomes of the timer when a session is to be started, and the
    /// answer given: an idle timer runs the new session, a running one
    /// refuses and stays as it is.
    pub open spec fn started(self, task_name: Seq<char>, estimated_minutes: u32, now: u64) -> (
        TrackerModel,
        Result<(), TimerStateError>,
    ) {
        match self.ongoing {
            Some(_) => (self, Err(TimerStateError::AlreadyRunning)),
            None => (
                TrackerModel {
                    ongoing: Some(SessionModel { task_name, started_at: now, estimated_minutes }),
                    history: self.history,
                },
                Ok(()),
            ),
        }
    }

    /// What becomes of the timer when the session is to be finished, and the
    /// answer given: a running timer writes the finished session at the end
    /// of its history and is idle again, an idle one refuses and stays as it
    /// is.
    pub open spec fn finished(self, now: u64) -> (
        TrackerModel,
        Result<CompletedModel, TimerStateError>,
    ) {
        match self.ongoing {
            Some(session) => (
                TrackerModel { ongoing: None, history: self.history.push(session.completed(now)) },
                Ok(session.completed(now)),
            ),
            None => (self, Err(TimerStateError::NotRunning)),
        }
    }
}

/// The finished sessions of a vector as mathematical values.
pub open spec fn completed_models(sessions: Seq<CompletedSession>) -> Seq<CompletedModel> {
    sessions.map_values(|session: CompletedSession| session@)
}

/// The whole minutes from `started_at` to `ended_at`, both in seconds.
pub fn minutes_between(started_at: u64, ended_at: u64) -> (minutes: i64)
    ensures
        minutes == elapsed_minutes(started_at, ended_at),
{
    if ended_at >= started_at {
        ((ended_at - started_at) / SECONDS_PER_MINUTE) as i64
    } else {
        -(((started_at - ended_at) / SECONDS_PER_MINUTE) as i64)
    }
}

/// The timer: the session that is running, if any, and the sessions that
/// were finished, oldest first.
pub struct TimerTracker {
    pub ongoing: Option<TimerSession>,
    pub history: Vec<CompletedSession>,
}

impl View for TimerTracker {
    type V = TrackerModel;

    open spec fn view(&self) -> TrackerModel {
        TrackerModel {
            ongoing: match self.ongoing {
                Some(session) => Some(session@),
                None => None,
            },
            history: completed_models(self.history@),
        }
    }
}

impl TimerTracker {
    /// The timer as a run of the program finds it: with the session that was
    /// kept, if one was, and nothing finished yet.
    pub fn recover(ongoing: Option<TimerSession>) -> (tracker: TimerTracker)
        ensures
            tracker.ongoing == ongoing,
            tracker@.history == Seq::<CompletedModel>::empty(),
    {
        let tracker = TimerTracker { ongoing, history: Vec::new() };
        assert(tracker@.history =~= Seq::<CompletedModel>::empty());
        tracker
    }

    /// Whether a session is running.
    pub fn is_running(&self) -> (r: bool)
        ensures
            r == (self@.ongoing is Some),
    {
        self.ongoing.is_some()
    }

    /// Starts a session at `now`, a time in seconds. Where one is running
    /// already, it is left untouched and the answer is `AlreadyRunning`.
    pub fn start(&mut self, task_name: String, estimated_minutes: u32, now: u64) -> (r: Result<
        (),
        TimerStateError,
    >)
        ensures
            (final(self)@, r) == old(self)@.started(task_name@, estimated_minutes, now),
            r is Err ==> *final(self) == *old(self),
    {
        if self.ongoing.is_some() {
            return Err(TimerStateError::AlreadyRunning);
        }
        self.ongoing = Some(TimerSession { task_name, started_at: now, estimated_minutes });
        Ok(())
    }

    /// Finishes the running session at `now`, a time in seconds: the
    /// finished session goes to the end of the history, and the timer is
    /// idle again. Where none is running, nothing changes and the answer is
    /// `NotRunning`.
    pub fn done(&mut self, now: u64) -> (r: Result<CompletedSession, TimerStateError>)
        ensures
            final(self)@ == old(self)@.finished(now).0,
            match r {
                Ok(session) => old(self)@.finished(now).1 == Ok::<
                    CompletedModel,
                    TimerStateError,
                >(session@),
                Err(e) => old(self)@.finished(now).1 == Err::<CompletedModel, TimerStateError>(e)
                    && *final(self) == *old(self),
            },
    {
        let session = match self.ongoing.take() {
            Some(session) => session,
            None => {
                return Err(TimerStateError::NotRunning);
            },
        };
        let actual_minutes = minutes_between(session.started_at, now);
        let error_minutes = actual_minutes - session.estimated_minutes as i64;
        let ghost before = completed_models(self.history@);
        let finished = CompletedSession {
            task_name: session.task_name,
            started_at: session.started_at,
            ended_at: now,
            estimated_minutes: session.estimated_minutes,
            actual_minutes,
            error_minutes,
        };
        self.history.push(finished.clone());
        assert(completed_models(self.history@) =~= before.push(finished@));
        Ok(finished)
    }
}

/// A timer that runs a session refuses to start another and stays as it is,
/// whatever is asked for; so of two starts with no finish between them the
/// second fails and leaves the session of the first untouched.
pub proof fn law_running_timer_refuses_start(
    tracker: TrackerModel,
    first_name: Seq<char>,
    first_estimate: u32,
    first_now: u64,
    second_name: Seq<char>,
    second_estimate: u32,
    second_now: u64,
)
    ensures
        tracker.ongoing is Some ==> tracker.started(first_name, first_estimate, first_now) == (
            tracker,
            Err::<(), TimerStateError>(TimerStateError::AlreadyRunning),
        ),
        ({
            let once = tracker.started(first_name, first_estimate, first_now).0;
            let twice = once.started(second_name, second_estimate, second_now);
            twice == (once, Err::<(), TimerStateError>(TimerStateError::AlreadyRunning))
        }),
{
}

/// An idle timer refuses to finish and stays as it is.
pub proof fn law_idle_timer_refuses_done(tracker: TrackerModel, now: u64)
    requires
        tracker.ongoing is None,
    ensures
        tracker.finished(now) == (
            tracker,
            Err::<CompletedModel, TimerStateError>(TimerStateError::NotRunning),
        ),
{
}

/// A session outlives the run that started it: a timer that holds nothing but
/// the session that an idle timer started at `started_at` finishes it, and
/// counts the minutes from `started_at`.
pub proof fn law_kept_session_is_finished(
    tracker: TrackerModel,
    task_name: Seq<char>,
    estimated_minutes: u32,
    started_at: u64,
    now: u64,
)
    requires
        tracker.ongoing is None,
    ensures
        ({
            let kept = tracker.started(task_name, estimated_minutes, started_at).0.ongoing;
            let found = TrackerModel { ongoing: kept, history: Seq::<CompletedModel>::empty() };
            let (after, answer) = found.finished(now);
            &&& answer matches Ok(session)
            &&& session.task_name == task_name
            &&& session.started_at == started_at
            &&& session.ended_at == now
            &&& session.estimated_minutes == estimated_minutes
            &&& session.actual_minutes == elapsed_minutes(started_at, now)
            &&& session.error_minutes == elapsed_minutes(started_at, now) - estimated_minutes
            &&& after.ongoing is None
            &&& after.history == seq![session]
        }),
{
    let kept = tracker.started(task_name, estimated_minutes, started_at).0.ongoing;
    let found = TrackerModel { ongoing: kept, history: Seq::<CompletedModel>::empty() };
    assert(found.finished(now).0.history =~= seq![found.finished(now).1->Ok_0]);
}

} // verus!
