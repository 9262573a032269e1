use ratpm::engine::errors::RatpmError;

#[test]
fn test_error_exit_codes() {
    assert_eq!(RatpmError::PermissionDenied.exit_code(), 13);
    assert_eq!(RatpmError::LockHeld("123".to_string()).exit_code(), 14);
    assert_eq!(RatpmError::PackageNotFound("vim".to_string()).exit_code(), 1);
    assert_eq!(RatpmError::DependencyConflict("conflict".to_string()).exit_code(), 2);
    assert_eq!(RatpmError::TransactionCheckFailed("check".to_string()).exit_code(), 3);
    assert_eq!(RatpmError::TransactionFailed("failed".to_string()).exit_code(), 4);
    assert_eq!(RatpmError::NetworkError("network".to_string()).exit_code(), 5);
    assert_eq!(RatpmError::RepoUnavailable("repo".to_string()).exit_code(), 6);
    assert_eq!(RatpmError::ConfigError("config".to_string()).exit_code(), 8);
    assert_eq!(RatpmError::RpmDbError("db".to_string()).exit_code(), 9);
}

#[test]
fn test_error_messages() {
    let err = RatpmError::PermissionDenied;
    assert_eq!(err.to_string(), "Permission denied: operation requires root privileges");

    let err = RatpmError::PackageNotFound("neovim".to_string());
    assert_eq!(err.to_string(), "Package 'neovim' not found");

    let err = RatpmError::LockHeld("1234".to_string());
    assert_eq!(err.to_string(), "Package manager lock is held by another process (PID: 1234)");
}

#[test]
fn test_error_types() {
    let err = RatpmError::PackageAlreadyInstalled("vim".to_string());
    assert!(matches!(err, RatpmError::PackageAlreadyInstalled(_)));

    let err = RatpmError::PackageNotInstalled("vim".to_string());
    assert!(matches!(err, RatpmError::PackageNotInstalled(_)));
}

#[test]
fn test_insufficient_disk_space_error() {
    let err = RatpmError::InsufficientDiskSpace {
        need: 1_000_000_000,
        available: 500_000_000,
    };
    assert_eq!(err.exit_code(), 7);
    assert!(err.to_string().contains("Disk space insufficient"));
}

#[test]
fn test_scriptlet_failed_error() {
    let err = RatpmError::ScriptletFailed {
        package: "vim".to_string(),
        details: "post install failed".to_string(),
    };
    assert_eq!(err.exit_code(), 10);
    assert!(err.to_string().contains("Scriptlet execution failed"));
    assert!(err.to_string().contains("vim"));
}

#[test]
fn test_every_error_message() {
    let s = |t: &str| t.to_string();
    assert_eq!(RatpmError::LockTimeout.to_string(), "Lock acquisition timed out");
    assert_eq!(RatpmError::RepoUnavailable(s("updates")).to_string(), "Repository 'updates' is unavailable");
    assert_eq!(
        RatpmError::RepoGpgFailed(s("updates")).to_string(),
        "Repository 'updates' failed GPG verification"
    );
    assert_eq!(RatpmError::DependencyConflict(s("a needs b")).to_string(), "Dependency conflict: a needs b");
    assert_eq!(
        RatpmError::PackageAlreadyInstalled(s("vim")).to_string(),
        "Package 'vim' is already installed"
    );
    assert_eq!(RatpmError::PackageNotInstalled(s("vim")).to_string(), "Package 'vim' is not installed");
    assert_eq!(RatpmError::TransactionCheckFailed(s("x")).to_string(), "Transaction check failed: x");
    assert_eq!(RatpmError::TransactionFailed(s("x")).to_string(), "Transaction execution failed: x");
    assert_eq!(RatpmError::NetworkError(s("x")).to_string(), "Network error: x");
    assert_eq!(RatpmError::ConfigError(s("x")).to_string(), "Configuration error: x");
    assert_eq!(RatpmError::RpmDbError(s("x")).to_string(), "RPM database error: x");
    assert_eq!(RatpmError::BackendError(s("x")).to_string(), "Backend error: x");
    assert_eq!(RatpmError::IoError(s("disk on fire")).to_string(), "I/O error: disk on fire");
    assert_eq!(RatpmError::InvalidPackageSpec(s("x")).to_string(), "Invalid package specification: x");
    assert_eq!(
        RatpmError::InsufficientDiskSpace { need: 1_000_000_000, available: 0 }.to_string(),
        "Disk space insufficient: need 1000000000 bytes, have 0 bytes"
    );
    assert_eq!(
        RatpmError::InsufficientDiskSpace { need: u64::MAX, available: 907 }.to_string(),
        "Disk space insufficient: need 18446744073709551615 bytes, have 907 bytes"
    );
    assert_eq!(
        RatpmError::ScriptletFailed { package: s("vim"), details: s("post install failed") }.to_string(),
        "Scriptlet execution failed for package 'vim': post install failed"
    );
}

#[test]
fn test_every_exit_code() {
    let s = |t: &str| t.to_string();
    assert_eq!(RatpmError::LockTimeout.exit_code(), 14);
    assert_eq!(RatpmError::RepoGpgFailed(s("r")).exit_code(), 6);
    assert_eq!(RatpmError::PackageAlreadyInstalled(s("p")).exit_code(), 1);
    assert_eq!(RatpmError::PackageNotInstalled(s("p")).exit_code(), 1);
    assert_eq!(RatpmError::BackendError(s("m")).exit_code(), 1);
    assert_eq!(RatpmError::IoError(s("m")).exit_code(), 1);
    assert_eq!(RatpmError::InvalidPackageSpec(s("m")).exit_code(), 1);
}
