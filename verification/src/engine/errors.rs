//! The closed set of failures and the exit code each one maps to.

use vstd::prelude::*;
use vstd::string::StringExecFns;
use crate::text::{decimal, push_decimal};

verus! {

/// Everything that can go wrong while planning or applying a change.
#[derive(Debug)]
pub enum RatpmError {
    PermissionDenied,
    LockHeld(String),
    LockTimeout,
    RepoUnavailable(String),
    RepoGpgFailed(String),
    DependencyConflict(String),
    PackageNotFound(String),
    PackageAlreadyInstalled(String),
    PackageNotInstalled(String),
    TransactionCheckFailed(String),
    TransactionFailed(String),
    NetworkError(String),
    ConfigError(String),
    RpmDbError(String),
    BackendError(String),
    IoError(String),
    InvalidPackageSpec(String),
    InsufficientDiskSpace { need: u64, available: u64 },
    ScriptletFailed { package: String, details: String },
}

/// The mathematical content of a [`RatpmError`].
pub enum ErrorView {
    PermissionDenied,
    LockHeld(Seq<char>),
    LockTimeout,
    RepoUnavailable(Seq<char>),
    RepoGpgFailed(Seq<char>),
    DependencyConflict(Seq<char>),
    PackageNotFound(Seq<char>),
    PackageAlreadyInstalled(Seq<char>),
    PackageNotInstalled(Seq<char>),
    TransactionCheckFailed(Seq<char>),
    TransactionFailed(Seq<char>),
    NetworkError(Seq<char>),
    ConfigError(Seq<char>),
    RpmDbError(Seq<char>),
    BackendError(Seq<char>),
    IoError(Seq<char>),
    InvalidPackageSpec(Seq<char>),
    InsufficientDiskSpace { need: u64, available: u64 },
    ScriptletFailed { package: Seq<char>, details: Seq<char> },
}

impl View for RatpmError {
    type V = ErrorView;

    open spec fn view(&self) -> ErrorView {
        match self {
            RatpmError::PermissionDenied => ErrorView::PermissionDenied,
            RatpmError::LockHeld(s) => ErrorView::LockHeld(s@),
            RatpmError::LockTimeout => ErrorView::LockTimeout,
            RatpmError::RepoUnavailable(s) => ErrorView::RepoUnavailable(s@),
            RatpmError::RepoGpgFailed(s) => ErrorView::RepoGpgFailed(s@),
            RatpmError::DependencyConflict(s) => ErrorView::DependencyConflict(s@),
            RatpmError::PackageNotFound(s) => ErrorView::PackageNotFound(s@),
            RatpmError::PackageAlreadyInstalled(s) => ErrorView::PackageAlreadyInstalled(s@),
            RatpmError::PackageNotInstalled(s) => ErrorView::PackageNotInstalled(s@),
            RatpmError::TransactionCheckFailed(s) => ErrorView::TransactionCheckFailed(s@),
            RatpmError::TransactionFailed(s) => ErrorView::TransactionFailed(s@),
            RatpmError::NetworkError(s) => ErrorView::NetworkError(s@),
            RatpmError::ConfigError(s) => ErrorView::ConfigError(s@),
            RatpmError::RpmDbError(s) => ErrorView::RpmDbError(s@),
            RatpmError::BackendError(s) => ErrorView::BackendError(s@),
            RatpmError::IoError(s) => ErrorView::IoError(s@),
            RatpmError::InvalidPackageSpec(s) => ErrorView::InvalidPackageSpec(s@),
            RatpmError::InsufficientDiskSpace { need, available } => {
                ErrorView::InsufficientDiskSpace { need: *need, available: *available }
            },
            RatpmError::ScriptletFailed { package, details } => {
                ErrorView::ScriptletFailed { package: package@, details: details@ }
            },
        }
    }
}

/// The process exit code that reports an error.
pub open spec fn exit_code_of(e: ErrorView) -> int {
    match e {
        ErrorView::PermissionDenied => 13,
        ErrorView::LockHeld(_) => 14,
        ErrorView::LockTimeout => 14,
        ErrorView::PackageNotFound(_) => 1,
        ErrorView::DependencyConflict(_) => 2,
        ErrorView::TransactionCheckFailed(_) => 3,
        ErrorView::TransactionFailed(_) => 4,
        ErrorView::NetworkError(_) => 5,
        ErrorView::RepoUnavailable(_) => 6,
        ErrorView::RepoGpgFailed(_) => 6,
        ErrorView::InsufficientDiskSpace { .. } => 7,
        ErrorView::ConfigError(_) => 8,
        ErrorView::RpmDbError(_) => 9,
        ErrorView::ScriptletFailed { .. } => 10,
        ErrorView::PackageAlreadyInstalled(_) => 1,
        ErrorView::PackageNotInstalled(_) => 1,
        ErrorView::BackendError(_) => 1,
        ErrorView::IoError(_) => 1,
        ErrorView::InvalidPackageSpec(_) => 1,
    }
}

/// The one-line message that reports an error to the user.
pub open spec fn message_of(e: ErrorView) -> Seq<char> {
    match e {
        ErrorView::PermissionDenied => "Permission denied: operation requires root privileges"@,
        ErrorView::LockHeld(pid) => {
            "Package manager lock is held by another process (PID: "@ + pid + ")"@
        },
        ErrorView::LockTimeout => "Lock acquisition timed out"@,
        ErrorView::RepoUnavailable(name) => "Repository '"@ + name + "' is unavailable"@,
        ErrorView::RepoGpgFailed(name) => "Repository '"@ + name + "' failed GPG verification"@,
        ErrorView::DependencyConflict(msg) => "Dependency conflict: "@ + msg,
        ErrorView::PackageNotFound(name) => "Package '"@ + name + "' not found"@,
        ErrorView::PackageAlreadyInstalled(name) => {
            "Package '"@ + name + "' is already installed"@
        },
        ErrorView::PackageNotInstalled(name) => "Package '"@ + name + "' is not installed"@,
        ErrorView::TransactionCheckFailed(msg) => "Transaction check failed: "@ + msg,
        ErrorView::TransactionFailed(msg) => "Transaction execution failed: "@ + msg,
        ErrorView::NetworkError(msg) => "Network error: "@ + msg,
        ErrorView::ConfigError(msg) => "Configuration error: "@ + msg,
        ErrorView::RpmDbError(msg) => "RPM database error: "@ + msg,
        ErrorView::BackendError(msg) => "Backend error: "@ + msg,
        ErrorView::IoError(cause) => "I/O error: "@ + cause,
        ErrorView::InvalidPackageSpec(msg) => "Invalid package specification: "@ + msg,
        ErrorView::InsufficientDiskSpace { need, available } => {
            "Disk space insufficient: need "@ + decimal(need as nat) + " bytes, have "@ + decimal(
                available as nat,
            ) + " bytes"@
        },
        ErrorView::ScriptletFailed { package, details } => {
            "Scriptlet execution failed for package '"@ + package + "': "@ + details
        },
    }
}

/// `head`, then `body`, then `tail`.
fn wrap(head: &str, body: &str, tail: &str) -> (r: String)
    ensures
        r@ == head@ + body@ + tail@,
{
    let mut r = String::from_str(head);
    r.append(body);
    r.append(tail);
    r
}

/// `head`, then `body`.
fn prefixed(head: &str, body: &str) -> (r: String)
    ensures
        r@ == head@ + body@,
{
    let mut r = String::from_str(head);
    r.append(body);
    r
}

impl RatpmError {
    /// The exit code of the process that ends on this error.
    pub fn exit_code(&self) -> (code: i32)
        ensures
            code == exit_code_of(self@),
    {
        match self {
            RatpmError::PermissionDenied => 13,
            RatpmError::LockHeld(_) | RatpmError::LockTimeout => 14,
            RatpmError::PackageNotFound(_) => 1,
            RatpmError::DependencyConflict(_) => 2,
            RatpmError::TransactionCheckFailed(_) => 3,
            RatpmError::TransactionFailed(_) => 4,
            RatpmError::NetworkError(_) => 5,
            RatpmError::RepoUnavailable(_) | RatpmError::RepoGpgFailed(_) => 6,
            RatpmError::InsufficientDiskSpace { .. } => 7,
            RatpmError::ConfigError(_) => 8,
            RatpmError::RpmDbError(_) => 9,
            RatpmError::ScriptletFailed { .. } => 10,
            _ => 1,
        }
    }

    /// The message shown to the user for this error.
    pub fn to_string(&self) -> (s: String)
        ensures
            s@ == message_of(self@),
    {
        match self {
            RatpmError::PermissionDenied => String::from_str(
                "Permission denied: operation requires root privileges",
            ),
            RatpmError::LockHeld(pid) => wrap(
                "Package manager lock is held by another process (PID: ",
                pid.as_str(),
                ")",
            ),
            RatpmError::LockTimeout => String::from_str("Lock acquisition timed out"),
            RatpmError::RepoUnavailable(name) => wrap(
                "Repository '",
                name.as_str(),
                "' is unavailable",
            ),
            RatpmError::RepoGpgFailed(name) => wrap(
                "Repository '",
                name.as_str(),
                "' failed GPG verification",
            ),
            RatpmError::DependencyConflict(msg) => prefixed("Dependency conflict: ", msg.as_str()),
            RatpmError::PackageNotFound(name) => wrap("Package '", name.as_str(), "' not found"),
            RatpmError::PackageAlreadyInstalled(name) => wrap(
                "Package '",
                name.as_str(),
                "' is already installed",
            ),
            RatpmError::PackageNotInstalled(name) => wrap(
                "Package '",
                name.as_str(),
                "' is not installed",
            ),
            RatpmError::TransactionCheckFailed(msg) => prefixed(
                "Transaction check failed: ",
                msg.as_str(),
            ),
            RatpmError::TransactionFailed(msg) => prefixed(
                "Transaction execution failed: ",
                msg.as_str(),
            ),
            RatpmError::NetworkError(msg) => prefixed("Network error: ", msg.as_str()),
            RatpmError::ConfigError(msg) => prefixed("Configuration error: ", msg.as_str()),
            RatpmError::RpmDbError(msg) => prefixed("RPM database error: ", msg.as_str()),
            RatpmError::BackendError(msg) => prefixed("Backend error: ", msg.as_str()),
            RatpmError::IoError(cause) => prefixed("I/O error: ", cause.as_str()),
            RatpmError::InvalidPackageSpec(msg) => prefixed(
                "Invalid package specification: ",
                msg.as_str(),
            ),
            RatpmError::InsufficientDiskSpace { need, available } => {
                let mut s = String::from_str("Disk space insufficient: need ");
                push_decimal(&mut s, *need);
                s.append(" bytes, have ");
                push_decimal(&mut s, *available);
                s.append(" bytes");
                s
            },
            RatpmError::ScriptletFailed { package, details } => {
                let mut s = String::from_str("Scriptlet execution failed for package '");
                s.append(package.as_str());
                s.append("': ");
                s.append(details.as_str());
                s
            },
        }
    }
}

} // verus!
