use dayplan::timer::{minutes_between, TimerSession, TimerStateError, TimerTracker};

const T0: u64 = 1_700_000_000;

#[test]
fn start_then_done_measures_the_estimate() {
    let mut tracker = TimerTracker::recover(None);
    assert!(!tracker.is_running());
    assert_eq!(tracker.start("do-da-work".to_string(), 30, T0), Ok(()));
    assert!(tracker.is_running());
    let session = tracker.done(T0 + 45 * 60).expect("a session is running");
    assert_eq!(session.task_name, "do-da-work");
    assert_eq!(session.started_at, T0);
    assert_eq!(session.ended_at, T0 + 45 * 60);
    assert_eq!(session.estimated_minutes, 30);
    assert_eq!(session.actual_minutes, 45);
    assert_eq!(session.error_minutes, 15);
    assert!(!tracker.is_running());
}

#[test]
fn second_start_fails_and_leaves_the_session_untouched() {
    let mut tracker = TimerTracker::recover(None);
    assert_eq!(tracker.start("first".to_string(), 30, T0), Ok(()));
    assert_eq!(tracker.start("second".to_string(), 5, T0 + 100), Err(TimerStateError::AlreadyRunning));
    let ongoing = tracker.ongoing.as_ref().expect("the first session still runs");
    assert_eq!(ongoing.task_name, "first");
    assert_eq!(ongoing.started_at, T0);
    assert_eq!(ongoing.estimated_minutes, 30);
    assert!(tracker.history.is_empty());
    let session = tracker.done(T0 + 600).expect("the first session still runs");
    assert_eq!(session.task_name, "first");
    assert_eq!(session.actual_minutes, 10);
    assert_eq!(session.error_minutes, -20);
}

#[test]
fn done_without_session_fails_and_changes_nothing() {
    let mut tracker = TimerTracker::recover(None);
    assert_eq!(tracker.done(T0).err(), Some(TimerStateError::NotRunning));
    assert!(tracker.ongoing.is_none());
    assert!(tracker.history.is_empty());
    assert_eq!(tracker.start("again".to_string(), 1, T0), Ok(()));
    assert!(tracker.done(T0 + 60).is_ok());
    assert_eq!(tracker.done(T0 + 120).err(), Some(TimerStateError::NotRunning));
    assert_eq!(tracker.history.len(), 1);
}

#[test]
fn session_kept_by_an_earlier_run_is_finished() {
    let mut first_run = TimerTracker::recover(None);
    assert_eq!(first_run.start("long".to_string(), 60, T0), Ok(()));
    let kept = first_run.ongoing.take();

    let mut next_run = TimerTracker::recover(kept);
    assert!(next_run.is_running());
    let session = next_run.done(T0 + 3 * 3600).expect("the kept session is running");
    assert_eq!(session.started_at, T0);
    assert_eq!(session.actual_minutes, 180);
    assert_eq!(session.error_minutes, 120);
    assert!(!next_run.is_running());
}

#[test]
fn recovered_timer_refuses_a_start() {
    let kept = TimerSession { task_name: "kept".to_string(), started_at: T0, estimated_minutes: 15 };
    let mut tracker = TimerTracker::recover(Some(kept));
    assert_eq!(tracker.start("new".to_string(), 1, T0 + 1), Err(TimerStateError::AlreadyRunning));
    assert_eq!(tracker.ongoing.as_ref().map(|s| s.task_name.as_str()), Some("kept"));
}

#[test]
fn history_grows_at_its_end_only() {
    let mut tracker = TimerTracker::recover(None);
    for (i, name) in ["a", "b", "c"].into_iter().enumerate() {
        let begin = T0 + 1000 * i as u64;
        assert_eq!(tracker.start(name.to_string(), 10, begin), Ok(()));
        assert_eq!(tracker.history.len(), i);
        let session = tracker.done(begin + 600).expect("a session is running");
        assert_eq!(session.task_name, name);
        assert_eq!(tracker.history.len(), i + 1);
    }
    let names: Vec<&str> = tracker.history.iter().map(|s| s.task_name.as_str()).collect();
    assert_eq!(names, vec!["a", "b", "c"]);
    assert_eq!(tracker.history[1].started_at, T0 + 1000);
    assert_eq!(tracker.history[1].ended_at, T0 + 1600);
    assert_eq!(tracker.history[1].actual_minutes, 10);
    assert_eq!(tracker.history[1].error_minutes, 0);
}

#[test]
fn minutes_are_whole_minutes() {
    assert_eq!(minutes_between(T0, T0), 0);
    assert_eq!(minutes_between(T0, T0 + 59), 0);
    assert_eq!(minutes_between(T0, T0 + 60), 1);
    assert_eq!(minutes_between(T0, T0 + 119), 1);
    assert_eq!(minutes_between(T0, T0 + 45 * 60), 45);
    assert_eq!(minutes_between(0, u64::MAX), (u64::MAX / 60) as i64);
}

#[test]
fn clock_set_back_gives_minutes_below_zero() {
    assert_eq!(minutes_between(T0 + 59, T0), 0);
    assert_eq!(minutes_between(T0 + 60, T0), -1);
    assert_eq!(minutes_between(T0 + 600, T0), -10);
    assert_eq!(minutes_between(u64::MAX, 0), -((u64::MAX / 60) as i64));
    let mut tracker = TimerTracker::recover(None);
    assert_eq!(tracker.start("odd".to_string(), 5, T0 + 600), Ok(()));
    let session = tracker.done(T0).expect("a session is running");
    assert_eq!(session.actual_minutes, -10);
    assert_eq!(session.error_minutes, -15);
}

#[test]
fn largest_estimate_and_span_do_not_overflow() {
    let mut tracker = TimerTracker::recover(None);
    assert_eq!(tracker.start("all".to_string(), u32::MAX, u64::MAX), Ok(()));
    let session = tracker.done(0).expect("a session is running");
    assert_eq!(session.actual_minutes, -((u64::MAX / 60) as i64));
    assert_eq!(session.error_minutes, -((u64::MAX / 60) as i64) - u32::MAX as i64);
}
