use campaign::persist::{
    FailureLog, FlushLogLevel, Persist, PersistError, SendFailure, TimerCommand, UnreachableReason,
};

fn ok() -> Result<(), PersistError> {
    Ok(())
}

fn err() -> Result<(), PersistError> {
    Err(PersistError::Db("disk full".into()))
}

#[test]
fn schedule_fires_after_debounce() {
    let mut p = Persist::new();
    assert!(!p.is_dirty());
    let cmd = p.schedule();
    assert!(p.is_dirty(), "scheduling makes it dirty immediately");
    assert_eq!(cmd, TimerCommand { abort_prior: false, arm: true }, "a timer is armed");
}

#[test]
fn repeated_schedule_coalesces_to_one_fire() {
    let mut p = Persist::new();
    p.schedule();
    for _ in 0..4 {
        let cmd = p.schedule();
        assert_eq!(cmd, TimerCommand { abort_prior: true, arm: true }, "each re-arm aborts the prior timer");
    }
    assert_eq!(p.attempts(), 0);
}

#[test]
fn mark_clean_cancels_pending_timer() {
    let mut p = Persist::new();
    p.schedule();
    let cmd = p.mark_clean();
    assert!(!p.is_dirty());
    assert_eq!(cmd, TimerCommand { abort_prior: true, arm: false });
}

#[test]
fn after_flush_ok_marks_clean() {
    let mut p = Persist::new();
    p.schedule();
    let res = p.after_flush(&ok());
    assert!(!p.is_dirty(), "a durable write clears dirtiness");
    assert_eq!(res.timer, TimerCommand { abort_prior: true, arm: false });
    assert_eq!(res.failure_log, None);
}

#[test]
fn after_flush_err_stays_dirty_and_reschedules() {
    let mut p = Persist::new();
    p.schedule();
    let res = p.after_flush(&err());
    assert!(p.is_dirty(), "a failed flush must not clear dirtiness");
    assert_eq!(res.timer, TimerCommand { abort_prior: true, arm: true });
    assert_eq!(res.failure_log, Some(FailureLog { level: FlushLogLevel::Warn, attempts: 1 }));
    let res = p.after_flush(&err());
    assert_eq!(res.failure_log, Some(FailureLog { level: FlushLogLevel::Error, attempts: 2 }), "escalates when degraded");
    p.schedule();
    assert_eq!(p.attempts(), 2, "an edit keeps the failure count");
}

#[test]
fn failed_sends_become_persist_errors() {
    assert_eq!(PersistError::from_send_failure(SendFailure::HandlerError("boom".into())), PersistError::Db("boom".into()));
    assert_eq!(PersistError::from_send_failure(SendFailure::ActorStopped), PersistError::Unreachable(UnreachableReason::Stopped));
    assert_eq!(PersistError::from_send_failure(SendFailure::Timeout), PersistError::Unreachable(UnreachableReason::Timeout));
    assert_eq!(UnreachableReason::MailboxFull.as_str(), "writer mailbox full");
}
