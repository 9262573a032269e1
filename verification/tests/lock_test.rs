use ratpm::engine::errors::RatpmError;
use ratpm::engine::lock::{
    decide_contention, pid_text, read_lock_holder, transition, FileLockManager, LockAction,
    LockEvent, LockState, LOCK_POLL_INTERVAL_MS, LOCK_TIMEOUT_MS,
};

fn holder(text: &str) -> LockEvent {
    LockEvent::Holder(Some(text.to_string()))
}

#[test]
fn test_free_lock_is_acquired_twice() {
    for _ in 0..2 {
        let (state, action) = transition(LockState::Start, LockEvent::Begin, 4711, true);
        assert_eq!(state, LockState::Ensuring);
        assert!(matches!(action, LockAction::EnsureFile));
        let (state, action) = transition(state, LockEvent::FileReady, 4711, true);
        assert_eq!(state, LockState::Locking);
        assert!(matches!(action, LockAction::TryLock));
        let (state, action) = transition(state, LockEvent::Locked, 4711, true);
        assert_eq!(state, LockState::Stamping);
        assert!(matches!(action, LockAction::WritePid(text) if text == "4711"));
        let (state, action) = transition(state, LockEvent::Written, 4711, true);
        assert_eq!(state, LockState::Done);
        assert!(matches!(action, LockAction::Acquired));
    }
}

#[test]
fn test_contention_waits_and_retries() {
    let (state, action) = transition(LockState::Locking, LockEvent::Busy { elapsed_ms: 250 }, 1, true);
    assert_eq!(state, LockState::Reading { elapsed_ms: 250 });
    assert!(matches!(action, LockAction::ReadHolder));
    let (state, action) = transition(state, holder("1234\n"), 1, true);
    assert_eq!(state, LockState::Sleeping);
    assert!(matches!(action, LockAction::Sleep(100)));
    let (state, action) = transition(state, LockEvent::Slept, 1, true);
    assert_eq!(state, LockState::Locking);
    assert!(matches!(action, LockAction::TryLock));
    assert_eq!(LOCK_POLL_INTERVAL_MS, 100);
    assert_eq!(LOCK_TIMEOUT_MS, 30_000);
}

#[test]
fn test_timeout_names_the_holder() {
    let reading = LockState::Reading { elapsed_ms: 30_001 };
    for alive in [true, false] {
        let (state, action) = transition(reading, holder(" 1234 \n"), 1, alive);
        assert_eq!(state, LockState::Done);
        match action {
            LockAction::Fail(e) => {
                assert!(matches!(&e, RatpmError::LockHeld(pid) if pid == "1234"));
                assert_eq!(e.exit_code(), 14);
                assert_eq!(e.to_string(), "Package manager lock is held by another process (PID: 1234)");
            }
            _ => panic!("expected a failure"),
        }
        for event in [holder("not a pid"), holder(""), LockEvent::Holder(None)] {
            let (state, action) = transition(reading, event, 1, alive);
            assert_eq!(state, LockState::Done);
            assert!(matches!(action, LockAction::Fail(RatpmError::LockTimeout)));
        }
    }
    // exactly at the limit the acquisition goes on
    let (state, _) = transition(LockState::Reading { elapsed_ms: 30_000 }, holder("1234"), 1, true);
    assert_eq!(state, LockState::Sleeping);
}

#[test]
fn test_stale_lock_is_reclaimed() {
    let (state, action) = transition(LockState::Reading { elapsed_ms: 0 }, holder("1234"), 1, false);
    assert_eq!(state, LockState::Removing);
    assert!(matches!(action, LockAction::RemoveStale));
    let (state, action) = transition(state, LockEvent::Removed, 1, false);
    assert_eq!(state, LockState::Ensuring);
    assert!(matches!(action, LockAction::EnsureFile));
    let (state, action) = transition(state, LockEvent::FileReady, 1, false);
    assert_eq!(state, LockState::Locking);
    assert!(matches!(action, LockAction::TryLock));
    // a file that cannot be removed is waited for like a lock that is taken
    let (state, action) = transition(LockState::Removing, LockEvent::RemoveFailed, 1, false);
    assert_eq!(state, LockState::Sleeping);
    assert!(matches!(action, LockAction::Sleep(100)));
    let (state, action) = transition(state, LockEvent::Slept, 1, false);
    assert_eq!(state, LockState::Locking);
    assert!(matches!(action, LockAction::TryLock));
    // without a holder to name there is nothing to reclaim
    let (state, _) = transition(LockState::Reading { elapsed_ms: 0 }, holder("garbage"), 1, false);
    assert_eq!(state, LockState::Sleeping);
    let (state, _) = transition(LockState::Reading { elapsed_ms: 0 }, LockEvent::Holder(None), 1, false);
    assert_eq!(state, LockState::Sleeping);
}

#[test]
fn test_failures_and_stray_events() {
    for state in [LockState::Start, LockState::Ensuring, LockState::Stamping, LockState::Done] {
        let (next, action) = transition(state, LockEvent::Failed("disk full".to_string()), 1, true);
        assert_eq!(next, LockState::Done);
        match action {
            LockAction::Fail(e) => assert_eq!(e.to_string(), "I/O error: disk full"),
            _ => panic!("expected a failure"),
        }
    }
    for (state, event) in [
        (LockState::Start, LockEvent::Locked),
        (LockState::Done, LockEvent::Begin),
        (LockState::Locking, LockEvent::Written),
        (LockState::Sleeping, LockEvent::Busy { elapsed_ms: 1 }),
        (LockState::Removing, LockEvent::Slept),
    ] {
        let (next, action) = transition(state, event, 1, true);
        assert_eq!(next, LockState::Done);
        assert!(matches!(action, LockAction::Fail(RatpmError::BackendError(m)) if m == "Lock protocol violated"));
    }
}

#[test]
fn test_read_lock_holder() {
    let read = |text: &str| read_lock_holder(&Some(text.to_string()));
    assert_eq!(read("1234"), Some(1234));
    assert_eq!(read("  1234\r\n"), Some(1234));
    assert_eq!(read("\u{a0}42\u{2003}"), Some(42));
    assert_eq!(read("+7"), Some(7));
    assert_eq!(read("-7"), Some(-7));
    assert_eq!(read("-0"), Some(0));
    assert_eq!(read("0012"), Some(12));
    assert_eq!(read("2147483647"), Some(i32::MAX));
    assert_eq!(read("-2147483648"), Some(i32::MIN));
    assert_eq!(read("2147483648"), None);
    assert_eq!(read("-2147483649"), None);
    assert_eq!(read(""), None);
    assert_eq!(read("   "), None);
    assert_eq!(read("+"), None);
    assert_eq!(read("-"), None);
    assert_eq!(read("12 34"), None);
    assert_eq!(read("12a"), None);
    assert_eq!(read("1_000"), None);
    assert_eq!(read("١٢"), None);
    assert_eq!(read_lock_holder(&None), None);
}

#[test]
fn test_pid_text() {
    assert_eq!(pid_text(0), "0");
    assert_eq!(pid_text(7), "7");
    assert_eq!(pid_text(10), "10");
    assert_eq!(pid_text(4194304), "4194304");
    assert_eq!(pid_text(-15), "-15");
    assert_eq!(pid_text(i32::MAX), "2147483647");
    assert_eq!(pid_text(i32::MIN), "-2147483648");
}

#[test]
fn test_decide_contention() {
    assert!(matches!(decide_contention(0, Some(5), true), (LockState::Sleeping, LockAction::Sleep(100))));
    assert!(matches!(decide_contention(0, Some(5), false), (LockState::Removing, LockAction::RemoveStale)));
    assert!(matches!(decide_contention(0, None, false), (LockState::Sleeping, LockAction::Sleep(100))));
    assert!(matches!(
        decide_contention(u64::MAX, Some(-5), false),
        (LockState::Done, LockAction::Fail(RatpmError::LockHeld(pid))) if pid == "-5"
    ));
    assert!(matches!(
        decide_contention(30_001, None, true),
        (LockState::Done, LockAction::Fail(RatpmError::LockTimeout))
    ));
}

#[test]
fn test_step_asks_the_system() {
    let manager = FileLockManager::new("/var/lock/ratpm.lock".to_string());
    assert_eq!(manager.lock_path(), "/var/lock/ratpm.lock");
    let (state, action) = manager.step(LockState::Locking, LockEvent::Locked);
    assert_eq!(state, LockState::Stamping);
    let own = match action {
        LockAction::WritePid(text) => text,
        _ => panic!("expected the identifier to write"),
    };
    let pid: i32 = own.parse().unwrap();
    assert!(pid > 0);
    assert!(FileLockManager::is_process_alive(pid));
    // this process is there: the acquisition waits for it
    let (state, _) = manager.step(LockState::Reading { elapsed_ms: 5 }, holder(&own));
    assert_eq!(state, LockState::Sleeping);
    // the first process is there, whether or not it may be signalled
    assert!(FileLockManager::is_process_alive(1));
    // no process has the largest identifier there is
    assert!(!FileLockManager::is_process_alive(i32::MAX));
    let (state, action) = manager.step(LockState::Reading { elapsed_ms: 5 }, holder("2147483647"));
    assert_eq!(state, LockState::Removing);
    assert!(matches!(action, LockAction::RemoveStale));
}
