//! Shared persistence state machine for the CRDT room actors.
//!
//! A room actor debounces client edits and flushes a full snapshot of its
//! document. Its persistence state is one sum type: `Clean`, or `Pending`
//! with an armed debounce timer and a count of consecutive failed flushes.
//! Being dirty without a scheduled flush is unrepresentable: every
//! transition into `Pending` arms the timer, and every transition to
//! `Clean` cancels it. The timer itself is run by the actor; each transition
//! here returns the [`TimerCommand`] the actor must carry out.
use vstd::prelude::*;

verus! {

/// Consecutive failed flushes at which the retry log escalates from a
/// warning to an error.
pub const DEGRADED_AFTER: u32 = 2;

/// The debounce-fired message both room actors handle to flush their doc.
#[derive(Debug, Clone, Copy, PartialEq, Eq)]
pub struct PersistNow;

/// Why the write actor could not be reached.
#[derive(Debug, Clone, Copy, PartialEq, Eq, Structural)]
pub enum UnreachableReason {
    NotRunning,
    Stopped,
    MailboxFull,
    Timeout,
}

/// The log text of a reason the write actor could not be reached.
pub open spec fn unreachable_text(r: UnreachableReason) -> Seq<char> {
    match r {
        UnreachableReason::NotRunning => "writer not running"@,
        UnreachableReason::Stopped => "writer stopped"@,
        UnreachableReason::MailboxFull => "writer mailbox full"@,
        UnreachableReason::Timeout => "writer timeout"@,
    }
}

impl UnreachableReason {
    /// The log text for this reason.
    pub fn as_str(self) -> (s: &'static str)
        ensures
            s@ == unreachable_text(self),
    {
        match self {
            UnreachableReason::NotRunning => "writer not running",
            UnreachableReason::Stopped => "writer stopped",
            UnreachableReason::MailboxFull => "writer mailbox full",
            UnreachableReason::Timeout => "writer timeout",
        }
    }
}

/// How a request to another actor failed before (or instead of) a reply.
/// `HandlerError` carries the handler's own error; the other variants mean
/// the message never got a reply.
#[derive(Debug, Clone, PartialEq, Eq)]
pub enum SendFailure<E> {
    HandlerError(E),
    ActorNotRunning,
    ActorStopped,
    MailboxFull,
    Timeout,
}

/// Why a flush could not be made durable: the write handler itself failed
/// (its message is kept), or the write actor was unreachable.
#[derive(Debug, Clone, PartialEq, Eq)]
pub enum PersistError {
    Db(String),
    Unreachable(UnreachableReason),
}

impl PersistError {
    /// Collapse a failed write request into a `PersistError`: the handler's
    /// own error is a database failure, every other variant an unreachable
    /// writer.
    pub fn from_send_failure(err: SendFailure<String>) -> (r: PersistError)
        ensures
            match err {
                SendFailure::HandlerError(m) => r == PersistError::Db(m),
                SendFailure::ActorNotRunning => r == PersistError::Unreachable(UnreachableReason::NotRunning),
                SendFailure::ActorStopped => r == PersistError::Unreachable(UnreachableReason::Stopped),
                SendFailure::MailboxFull => r == PersistError::Unreachable(UnreachableReason::MailboxFull),
                SendFailure::Timeout => r == PersistError::Unreachable(UnreachableReason::Timeout),
            },
    {
        match err {
            SendFailure::HandlerError(m) => PersistError::Db(m),
            SendFailure::ActorNotRunning => PersistError::Unreachable(UnreachableReason::NotRunning),
            SendFailure::ActorStopped => PersistError::Unreachable(UnreachableReason::Stopped),
            SendFailure::MailboxFull => PersistError::Unreachable(UnreachableReason::MailboxFull),
            SendFailure::Timeout => PersistError::Unreachable(UnreachableReason::Timeout),
        }
    }
}

/// What the actor must do with its debounce timer after a transition.
/// `abort_prior`: abort the timer currently armed. `arm`: spawn a fresh
/// timer that fires [`PersistNow`] after the debounce.
#[derive(Debug, Clone, Copy, PartialEq, Eq, Structural)]
pub struct TimerCommand {
    pub abort_prior: bool,
    pub arm: bool,
}

/// How loudly a failed flush is logged.
#[derive(Debug, Clone, Copy, PartialEq, Eq, Structural)]
pub enum FlushLogLevel {
    Warn,
    Error,
}

/// A failed flush's log line: its level and the consecutive failure count.
#[derive(Debug, Clone, Copy, PartialEq, Eq, Structural)]
pub struct FailureLog {
    pub level: FlushLogLevel,
    pub attempts: u32,
}

/// The outcome of resolving a flush: the timer command, and for a failed
/// flush the log level and the new attempt count.
#[derive(Debug, Clone, Copy, PartialEq, Eq, Structural)]
pub struct FlushResolution {
    pub timer: TimerCommand,
    pub failure_log: Option<FailureLog>,
}

/// Persistence state of a room actor's CRDT doc.
///
/// `Clean`: the in-memory doc matches what is durable.
/// `Pending`: unpersisted edits, an armed debounce timer, and the number of
/// consecutive failed flush attempts.
#[derive(Debug, Clone, Copy, PartialEq, Eq, Structural)]
pub enum Persist {
    Clean,
    Pending { attempts: u32 },
}

impl Default for Persist {
    fn default() -> (r: Persist)
        ensures
            r == Persist::Clean,
    {
        Persist::Clean
    }
}

/// The attempt count of a state: zero when clean.
pub open spec fn spec_attempts(p: Persist) -> u32 {
    match p {
        Persist::Clean => 0,
        Persist::Pending { attempts } => attempts,
    }
}

/// The state after an edit is scheduled: dirty, attempt count preserved.
pub open spec fn spec_schedule(p: Persist) -> Persist {
    Persist::Pending { attempts: spec_attempts(p) }
}

/// The attempt count after one more failure, saturating at `u32::MAX`.
pub open spec fn bumped_attempts(p: Persist) -> u32 {
    if spec_attempts(p) == u32::MAX {
        u32::MAX
    } else {
        (spec_attempts(p) + 1) as u32
    }
}

/// The state after a flush resolves: clean on success, dirty with one more
/// failed attempt otherwise.
pub open spec fn spec_after_flush(p: Persist, ok: bool) -> Persist {
    if ok {
        Persist::Clean
    } else {
        Persist::Pending { attempts: bumped_attempts(p) }
    }
}

/// The timer command of a transition into `next` from `prev`: a dirty
/// result always arms a fresh timer (aborting a live one), a clean result
/// only aborts the live one, if any.
pub open spec fn command_for(prev: Persist, next: Persist) -> TimerCommand {
    TimerCommand { abort_prior: prev is Pending, arm: next is Pending }
}

impl Persist {
    pub fn new() -> (r: Persist)
        ensures
            r == Persist::Clean,
    {
        Persist::Clean
    }

    pub fn is_dirty(&self) -> (r: bool)
        ensures
            r == (*self is Pending),
    {
        matches!(self, Persist::Pending { .. })
    }

    pub fn attempts(&self) -> (r: u32)
        ensures
            r == spec_attempts(*self),
    {
        match self {
            Persist::Clean => 0,
            Persist::Pending { attempts } => *attempts,
        }
    }

    /// Mark dirty and (re)arm the debounce timer, preserving the attempt
    /// count. A burst of edits collapses to one pending flush.
    pub fn schedule(&mut self) -> (cmd: TimerCommand)
        ensures
            *final(self) == spec_schedule(*old(self)),
            cmd == command_for(*old(self), *final(self)),
    {
        let attempts = self.attempts();
        self.arm(attempts)
    }

    /// Resolve a flush attempt: clean on success; on failure stay dirty,
    /// re-arm, and log at warning level, escalating to error once the
    /// failures reach [`DEGRADED_AFTER`].
    pub fn after_flush(&mut self, result: &Result<(), PersistError>) -> (res: FlushResolution)
        ensures
            *final(self) == spec_after_flush(*old(self), result is Ok),
            res.timer == command_for(*old(self), *final(self)),
            match result {
                Ok(_) => res.failure_log is None,
                Err(_) => res.failure_log == Some(FailureLog {
                    level: if bumped_attempts(*old(self)) >= DEGRADED_AFTER {
                        FlushLogLevel::Error
                    } else {
                        FlushLogLevel::Warn
                    },
                    attempts: bumped_attempts(*old(self)),
                }),
            },
    {
        match result {
            Ok(()) => {
                let timer = self.mark_clean();
                FlushResolution { timer, failure_log: None }
            },
            Err(_) => {
                let attempts = self.attempts().saturating_add(1);
                let level = if attempts >= DEGRADED_AFTER {
                    FlushLogLevel::Error
                } else {
                    FlushLogLevel::Warn
                };
                let timer = self.arm(attempts);
                FlushResolution { timer, failure_log: Some(FailureLog { level, attempts }) }
            },
        }
    }

    /// Go clean after a durable write, cancelling any armed timer.
    pub fn mark_clean(&mut self) -> (cmd: TimerCommand)
        ensures
            *final(self) == Persist::Clean,
            cmd == command_for(*old(self), *final(self)),
    {
        let abort_prior = self.is_dirty();
        *self = Persist::Clean;
        TimerCommand { abort_prior, arm: false }
    }

    /// (Re)arm the timer at the given attempt count, aborting a live timer
    /// first so that only one is ever live.
    fn arm(&mut self, attempts: u32) -> (cmd: TimerCommand)
        ensures
            *final(self) == (Persist::Pending { attempts }),
            cmd == command_for(*old(self), *final(self)),
    {
        let abort_prior = self.is_dirty();
        *self = Persist::Pending { attempts };
        TimerCommand { abort_prior, arm: true }
    }
}

/// Being dirty and holding an armed timer coincide: after any transition
/// the actor holds a live timer exactly when the new state is `Pending`,
/// and a timer that was live before is aborted whenever a new one is armed
/// or the state goes clean.
pub proof fn law_dirty_iff_timer_armed(prev: Persist, next: Persist)
    ensures
        command_for(prev, next).arm <==> next is Pending,
        prev is Pending ==> command_for(prev, next).abort_prior,
{
}

/// Scheduling is idempotent: a second edit while already pending leaves
/// the state as the first one did (only the timer is re-armed).
pub proof fn law_schedule_idempotent(p: Persist)
    ensures
        spec_schedule(spec_schedule(p)) == spec_schedule(p),
        spec_schedule(p) is Pending,
{
}

/// An edit during an outage does not reset the failure count.
pub proof fn law_schedule_preserves_attempts(p: Persist)
    ensures
        spec_attempts(spec_schedule(p)) == spec_attempts(p),
{
}

/// A durable write always clears dirtiness; a failed one never does, and
/// counts one more failure (saturating).
pub proof fn law_flush_outcome(p: Persist)
    ensures
        spec_after_flush(p, true) == Persist::Clean,
        spec_after_flush(p, false) is Pending,
        spec_attempts(p) < u32::MAX ==> spec_attempts(spec_after_flush(p, false)) == spec_attempts(p) + 1,
{
}

/// The live timers after a command: the one aborted is gone, the one armed
/// is added.
pub open spec fn live_after(live: nat, cmd: TimerCommand) -> nat {
    (if cmd.abort_prior && live > 0 { (live - 1) as nat } else { live }) + (if cmd.arm { 1nat } else { 0nat })
}

/// The state and live timer count after `k` schedules in a row, each
/// carried out as its command says.
pub open spec fn after_schedules(p: Persist, live: nat, k: nat) -> (Persist, nat)
    decreases k,
{
    if k == 0 {
        (p, live)
    } else {
        let q = spec_schedule(p);
        after_schedules(q, live_after(live, command_for(p, q)), (k - 1) as nat)
    }
}

/// Repeated schedules coalesce: from a state whose live timers match its
/// dirtiness (one when pending, none when clean), any run of one or more
/// schedules leaves the doc dirty with exactly one live timer, so exactly
/// one flush follows the last of them.
pub proof fn law_repeated_schedules_coalesce(p: Persist, k: nat)
    requires
        k >= 1,
    ensures
        after_schedules(p, if p is Pending { 1nat } else { 0nat }, k) == (spec_schedule(p), 1nat),
    decreases k,
{
    let q = spec_schedule(p);
    let live = if p is Pending { 1nat } else { 0nat };
    assert(live_after(live, command_for(p, q)) == 1nat);
    assert(after_schedules(p, live, k) == after_schedules(q, 1nat, (k - 1) as nat));
    if k > 1 {
        law_repeated_schedules_coalesce(q, (k - 1) as nat);
        assert(spec_schedule(q) == q);
    } else {
        assert(after_schedules(q, 1nat, 0nat) == (q, 1nat));
    }
}

} // verus!
