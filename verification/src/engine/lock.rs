//! The exclusive process lock, as a protocol: the decisions are taken here,
//! step by step; the caller does the work on the lock file between the steps
//! and reports what happened.

use vstd::prelude::*;
use vstd::string::StringExecFns;
use crate::engine::errors::{ErrorView, RatpmError};
use crate::text::{
    chars_of, parse_i32, parse_i32_spec, push_signed_decimal, signed_decimal, trim, trimmed,
};

verus! {

/// How long an acquisition may last, in milliseconds.
pub const LOCK_TIMEOUT_MS: u64 = 30000;

/// How long an acquisition waits between two attempts, in milliseconds.
pub const LOCK_POLL_INTERVAL_MS: u64 = 100;

/// Taken on trust of `nix`: `unistd::getpid().as_raw()` returns the
/// identifier of this process. Nothing is claimed of the value.
#[verifier::external_body]
fn current_pid() -> i32 {
    nix::unistd::getpid().as_raw()
}

/// Taken on trust of `nix`: `sys::signal::kill(pid, None)` asks the system
/// about `pid` and sends no signal. The answer is `false` when the system
/// reports that there is no such process (`ESRCH`), `true` on every other
/// outcome. Nothing is claimed of the answer: it is that of the system at the
/// time of the call.
#[verifier::external_body]
fn process_exists(pid: i32) -> bool {
    match nix::sys::signal::kill(nix::unistd::Pid::from_raw(pid), None) {
        Err(nix::errno::Errno::ESRCH) => false,
        _ => true,
    }
}

/// Where an acquisition stands: what it waits for.
#[derive(Debug, Clone, Copy, PartialEq, Eq, Structural)]
pub enum LockState {
    /// Nothing has been asked for yet.
    Start,
    /// For the lock file, and the directory it lies in, to exist.
    Ensuring,
    /// For an attempt to take the advisory lock.
    Locking,
    /// For the process identifier to be written to the lock file.
    Stamping,
    /// For the holder recorded in the lock file, after an attempt that found
    /// the lock taken `elapsed_ms` milliseconds into the acquisition.
    Reading { elapsed_ms: u64 },
    /// For the lock file of a holder that is gone to be removed.
    Removing,
    /// For the pause between two attempts to end.
    Sleeping,
    /// The acquisition is over.
    Done,
}

/// What happened since the last step.
#[derive(Debug)]
pub enum LockEvent {
    /// The acquisition begins.
    Begin,
    /// The lock file exists.
    FileReady,
    /// The advisory lock was taken.
    Locked,
    /// The advisory lock is held by someone else, `elapsed_ms` milliseconds
    /// into the acquisition.
    Busy { elapsed_ms: u64 },
    /// The process identifier was written and flushed.
    Written,
    /// The contents of the lock file, if they could be read.
    Holder(Option<String>),
    /// The lock file was removed.
    Removed,
    /// The lock file could not be removed.
    RemoveFailed,
    /// The pause is over.
    Slept,
    /// The work on the lock file failed for the given reason.
    Failed(String),
}

/// What the caller is to do next.
#[derive(Debug)]
pub enum LockAction {
    /// Create the directory of the lock file and the file, where missing,
    /// and report `FileReady`.
    EnsureFile,
    /// Open the lock file, try to take the exclusive advisory lock without
    /// waiting, and report `Locked` or `Busy`.
    TryLock,
    /// Truncate the lock file, write the given text, flush it to storage,
    /// and report `Written`.
    WritePid(String),
    /// Read the lock file and report `Holder`.
    ReadHolder,
    /// Remove the lock file and report `Removed` or `RemoveFailed`.
    RemoveStale,
    /// Pause for the given number of milliseconds and report `Slept`.
    Sleep(u64),
    /// The lock is held: keep the file open until the guard is dropped.
    Acquired,
    /// The acquisition failed with the given error.
    Fail(RatpmError),
}

/// The mathematical content of a [`LockEvent`].
pub enum LockEventView {
    Begin,
    FileReady,
    Locked,
    Busy { elapsed_ms: u64 },
    Written,
    Holder(Option<Seq<char>>),
    Removed,
    RemoveFailed,
    Slept,
    Failed(Seq<char>),
}

/// The mathematical content of a [`LockAction`].
pub enum LockActionView {
    EnsureFile,
    TryLock,
    WritePid(Seq<char>),
    ReadHolder,
    RemoveStale,
    Sleep(u64),
    Acquired,
    Fail(ErrorView),
}

impl View for LockEvent {
    type V = LockEventView;

    open spec fn view(&self) -> LockEventView {
        match self {
            LockEvent::Begin => LockEventView::Begin,
            LockEvent::FileReady => LockEventView::FileReady,
            LockEvent::Locked => LockEventView::Locked,
            LockEvent::Busy { elapsed_ms } => LockEventView::Busy { elapsed_ms: *elapsed_ms },
            LockEvent::Written => LockEventView::Written,
            LockEvent::Holder(Some(text)) => LockEventView::Holder(Some(text@)),
            LockEvent::Holder(None) => LockEventView::Holder(None),
            LockEvent::Removed => LockEventView::Removed,
            LockEvent::RemoveFailed => LockEventView::RemoveFailed,
            LockEvent::Slept => LockEventView::Slept,
            LockEvent::Failed(reason) => LockEventView::Failed(reason@),
        }
    }
}

impl View for LockAction {
    type V = LockActionView;

    open spec fn view(&self) -> LockActionView {
        match self {
            LockAction::EnsureFile => LockActionView::EnsureFile,
            LockAction::TryLock => LockActionView::TryLock,
            LockAction::WritePid(text) => LockActionView::WritePid(text@),
            LockAction::ReadHolder => LockActionView::ReadHolder,
            LockAction::RemoveStale => LockActionView::RemoveStale,
            LockAction::Sleep(ms) => LockActionView::Sleep(*ms),
            LockAction::Acquired => LockActionView::Acquired,
            LockAction::Fail(e) => LockActionView::Fail(e@),
        }
    }
}

/// The process that the contents of a lock file name: the contents, trimmed,
/// read as a number.
pub open spec fn holder_of(contents: Option<Seq<char>>) -> Option<i32> {
    match contents {
        Some(text) => parse_i32_spec(trimmed(text)),
        None => None,
    }
}

/// What an acquisition does when it found the lock taken `elapsed_ms`
/// milliseconds in and the lock file names `holder`, which the system does
/// or does not know: past the time limit it gives up, naming
/// the holder if there is one; a holder that is gone is cleared away;
/// otherwise it waits for the next attempt.
pub open spec fn on_contention(elapsed_ms: u64, holder: Option<i32>, holder_alive: bool) -> (
    LockState,
    LockActionView,
) {
    if elapsed_ms > LOCK_TIMEOUT_MS {
        match holder {
            Some(pid) => (
                LockState::Done,
                LockActionView::Fail(ErrorView::LockHeld(signed_decimal(pid as int))),
            ),
            None => (LockState::Done, LockActionView::Fail(ErrorView::LockTimeout)),
        }
    } else if holder is Some && !holder_alive {
        (LockState::Removing, LockActionView::RemoveStale)
    } else {
        (LockState::Sleeping, LockActionView::Sleep(LOCK_POLL_INTERVAL_MS))
    }
}

/// The message of the error that answers an event that the state does not
/// wait for.
pub open spec fn protocol_violation() -> Seq<char> {
    "Lock protocol violated"@
}

/// One step of the protocol, for a process called `pid`: the state that
/// follows and what to do next.
pub open spec fn next_step(state: LockState, event: LockEventView, pid: i32, holder_alive: bool)
    -> (LockState, LockActionView) {
    match (state, event) {
        (_, LockEventView::Failed(reason)) => (
            LockState::Done,
            LockActionView::Fail(ErrorView::IoError(reason)),
        ),
        (LockState::Start, LockEventView::Begin) => (LockState::Ensuring, LockActionView::EnsureFile),
        (LockState::Ensuring, LockEventView::FileReady) => (
            LockState::Locking,
            LockActionView::TryLock,
        ),
        (LockState::Locking, LockEventView::Locked) => (
            LockState::Stamping,
            LockActionView::WritePid(signed_decimal(pid as int)),
        ),
        (LockState::Locking, LockEventView::Busy { elapsed_ms }) => (
            LockState::Reading { elapsed_ms },
            LockActionView::ReadHolder,
        ),
        (LockState::Stamping, LockEventView::Written) => (LockState::Done, LockActionView::Acquired),
        (LockState::Reading { elapsed_ms }, LockEventView::Holder(contents)) => on_contention(
            elapsed_ms,
            holder_of(contents),
            holder_alive,
        ),
        (LockState::Removing, LockEventView::Removed) => (
            LockState::Ensuring,
            LockActionView::EnsureFile,
        ),
        (LockState::Removing, LockEventView::RemoveFailed) => (
            LockState::Sleeping,
            LockActionView::Sleep(LOCK_POLL_INTERVAL_MS),
        ),
        (LockState::Sleeping, LockEventView::Slept) => (LockState::Locking, LockActionView::TryLock),
        _ => (LockState::Done, LockActionView::Fail(ErrorView::BackendError(protocol_violation()))),
    }
}

/// A lock that nobody holds is acquired: from the start, when the file can
/// be ensured, the lock taken and the identifier written, the acquisition
/// ends with the lock held. Nothing of an earlier acquisition enters into it,
/// so acquiring, releasing and acquiring again succeeds both times.
pub proof fn free_lock_is_acquired(pid: i32, alive: bool)
    ensures
        next_step(LockState::Start, LockEventView::Begin, pid, alive) == (
            LockState::Ensuring,
            LockActionView::EnsureFile,
        ),
        next_step(LockState::Ensuring, LockEventView::FileReady, pid, alive) == (
            LockState::Locking,
            LockActionView::TryLock,
        ),
        next_step(LockState::Locking, LockEventView::Locked, pid, alive) == (
            LockState::Stamping,
            LockActionView::WritePid(signed_decimal(pid as int)),
        ),
        next_step(LockState::Stamping, LockEventView::Written, pid, alive) == (
            LockState::Done,
            LockActionView::Acquired,
        ),
{
}

/// An attempt that finds the lock taken past the time limit fails: with the
/// holder that the lock file names, or as a timeout when it names none.
pub proof fn held_lock_names_its_holder(
    elapsed_ms: u64,
    contents: Option<Seq<char>>,
    pid: i32,
    alive: bool,
)
    requires
        elapsed_ms > LOCK_TIMEOUT_MS,
    ensures
        next_step(LockState::Locking, LockEventView::Busy { elapsed_ms }, pid, alive) == (
            LockState::Reading { elapsed_ms },
            LockActionView::ReadHolder,
        ),
        holder_of(contents) matches Some(holder) ==> next_step(
            LockState::Reading { elapsed_ms },
            LockEventView::Holder(contents),
            pid,
            alive,
        ).1 == LockActionView::Fail(ErrorView::LockHeld(signed_decimal(holder as int))),
        holder_of(contents) is None ==> next_step(
            LockState::Reading { elapsed_ms },
            LockEventView::Holder(contents),
            pid,
            alive,
        ).1 == LockActionView::Fail(ErrorView::LockTimeout),
{
}

/// The lock counts as held only after it was taken: an acquisition ends with
/// the lock held only from the state that waits for the identifier to be
/// written, and it comes to that state only when an attempt took the lock.
/// As long as the attempts find the lock taken, the acquisition waits, clears
/// a dead holder away or fails.
pub proof fn acquired_only_after_locking(
    state: LockState,
    event: LockEventView,
    pid: i32,
    alive: bool,
)
    ensures
        next_step(state, event, pid, alive).1 is Acquired ==> state == LockState::Stamping
            && event is Written,
        next_step(state, event, pid, alive).0 == LockState::Stamping ==> state
            == LockState::Locking && event is Locked,
        state is Reading ==> {
            ||| next_step(state, event, pid, alive).1 is Fail
            ||| next_step(state, event, pid, alive).1 is RemoveStale
            ||| next_step(state, event, pid, alive).1 is Sleep
        },
{
}

/// A lock file that names a process that is gone is reclaimed at once: within
/// the time limit, the file is removed, made anew, and the lock is tried
/// again without a pause. When the file cannot be removed, the acquisition
/// goes on as after any attempt that found the lock taken: it pauses and
/// tries again.
pub proof fn stale_lock_is_reclaimed(elapsed_ms: u64, contents: Option<Seq<char>>, pid: i32)
    requires
        elapsed_ms <= LOCK_TIMEOUT_MS,
        holder_of(contents) is Some,
    ensures
        next_step(
            LockState::Reading { elapsed_ms },
            LockEventView::Holder(contents),
            pid,
            false,
        ) == (LockState::Removing, LockActionView::RemoveStale),
        next_step(LockState::Removing, LockEventView::Removed, pid, false) == (
            LockState::Ensuring,
            LockActionView::EnsureFile,
        ),
        next_step(LockState::Ensuring, LockEventView::FileReady, pid, false) == (
            LockState::Locking,
            LockActionView::TryLock,
        ),
        next_step(LockState::Removing, LockEventView::RemoveFailed, pid, false) == (
            LockState::Sleeping,
            LockActionView::Sleep(LOCK_POLL_INTERVAL_MS),
        ),
        next_step(LockState::Sleeping, LockEventView::Slept, pid, false) == (
            LockState::Locking,
            LockActionView::TryLock,
        ),
{
}

/// The process that the contents of a lock file name.
pub fn read_lock_holder(contents: &Option<String>) -> (r: Option<i32>)
    ensures
        r == holder_of(
            match contents {
                Some(text) => Some(text@),
                None => None,
            },
        ),
{
    match contents {
        Some(text) => parse_i32(&trim(&chars_of(text.as_str()))),
        None => None,
    }
}

/// The decimal text of a process identifier.
pub fn pid_text(pid: i32) -> (r: String)
    ensures
        r@ == signed_decimal(pid as int),
{
    let mut r = String::new();
    push_signed_decimal(&mut r, pid as i64);
    assert(Seq::<char>::empty() + signed_decimal(pid as int) =~= signed_decimal(pid as int));
    r
}

/// What an acquisition does when it found the lock taken.
pub fn decide_contention(elapsed_ms: u64, holder: Option<i32>, holder_alive: bool) -> (r: (
    LockState,
    LockAction,
))
    ensures
        (r.0, r.1@) == on_contention(elapsed_ms, holder, holder_alive),
{
    if elapsed_ms > LOCK_TIMEOUT_MS {
        match holder {
            Some(pid) => (LockState::Done, LockAction::Fail(RatpmError::LockHeld(pid_text(pid)))),
            None => (LockState::Done, LockAction::Fail(RatpmError::LockTimeout)),
        }
    } else if holder.is_some() && !holder_alive {
        (LockState::Removing, LockAction::RemoveStale)
    } else {
        (LockState::Sleeping, LockAction::Sleep(LOCK_POLL_INTERVAL_MS))
    }
}

/// One step of the protocol for a process called `pid`, given whether the
/// system knows the holder that the event names.
pub fn transition(state: LockState, event: LockEvent, pid: i32, holder_alive: bool) -> (r: (
    LockState,
    LockAction,
))
    ensures
        (r.0, r.1@) == next_step(state, event@, pid, holder_alive),
{
    match (state, event) {
        (_, LockEvent::Failed(reason)) => (LockState::Done, LockAction::Fail(
            RatpmError::IoError(reason),
        )),
        (LockState::Start, LockEvent::Begin) => (LockState::Ensuring, LockAction::EnsureFile),
        (LockState::Ensuring, LockEvent::FileReady) => (LockState::Locking, LockAction::TryLock),
        (LockState::Locking, LockEvent::Locked) => (
            LockState::Stamping,
            LockAction::WritePid(pid_text(pid)),
        ),
        (LockState::Locking, LockEvent::Busy { elapsed_ms }) => (
            LockState::Reading { elapsed_ms },
            LockAction::ReadHolder,
        ),
        (LockState::Stamping, LockEvent::Written) => (LockState::Done, LockAction::Acquired),
        (LockState::Reading { elapsed_ms }, LockEvent::Holder(contents)) => decide_contention(
            elapsed_ms,
            read_lock_holder(&contents),
            holder_alive,
        ),
        (LockState::Removing, LockEvent::Removed) => (LockState::Ensuring, LockAction::EnsureFile),
        (LockState::Removing, LockEvent::RemoveFailed) => (
            LockState::Sleeping,
            LockAction::Sleep(LOCK_POLL_INTERVAL_MS),
        ),
        (LockState::Sleeping, LockEvent::Slept) => (LockState::Locking, LockAction::TryLock),
        _ => (
            LockState::Done,
            LockAction::Fail(RatpmError::BackendError(String::from_str("Lock protocol violated"))),
        ),
    }
}

/// The lock on one lock file.
pub struct FileLockManager {
    lock_path: String,
}

impl FileLockManager {
    /// The lock on the file at `lock_path`.
    pub fn new(lock_path: String) -> (r: Self)
        ensures
            r.path() == lock_path@,
    {
        Self { lock_path }
    }

    /// The path of the lock file.
    pub closed spec fn path(&self) -> Seq<char> {
        self.lock_path@
    }

    /// The path of the lock file.
    pub fn lock_path(&self) -> (r: &String)
        ensures
            r@ == self.path(),
    {
        &self.lock_path
    }

    /// Whether the process `pid` is there: whether the system does not
    /// report that there is no such process.
    pub fn is_process_alive(pid: i32) -> bool {
        process_exists(pid)
    }

    /// One step of the protocol for this process: the state that follows
    /// `state` on `event`, and what to do next. The identifier of this
    /// process and the fate of a recorded holder are asked of the system.
    pub fn step(&self, state: LockState, event: LockEvent) -> (r: (LockState, LockAction))
        ensures
            exists|pid: i32, holder_alive: bool|
                (r.0, r.1@) == #[trigger] next_step(state, event@, pid, holder_alive),
    {
        let pid = current_pid();
        let holder = match &event {
            LockEvent::Holder(contents) => read_lock_holder(contents),
            _ => None,
        };
        let holder_alive = match holder {
            Some(holder_pid) => Self::is_process_alive(holder_pid),
            None => false,
        };
        let r = transition(state, event, pid, holder_alive);
        assert((r.0, r.1@) == next_step(state, event@, pid, holder_alive));
        r
    }
}

} // verus!
