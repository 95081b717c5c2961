//! The kinds of failure that the library reports.
use vstd::prelude::*;

verus! {

/// Each fatal condition of install, uninstall, serve and the supervisor.
#[derive(Clone, Copy, Debug, PartialEq, Eq, Structural)]
pub enum ThunderError {
    NotInstalled,
    AlreadyInstalled,
    AlreadyRunning,
    NotRunning,
    TlsMisconfigured,
    PermissionDenied,
    PayloadCrashed,
    IoError,
    ParseError,
}

impl ThunderError {
    /// A one-line description for the operator.
    pub fn message(&self) -> (r: &'static str)
        ensures
            r@ == match *self {
                ThunderError::NotInstalled => "`/etc/.thunder` not found: thunder is not installed"@,
                ThunderError::AlreadyInstalled => "`/etc/.thunder` already exists: uninstall first"@,
                ThunderError::AlreadyRunning => "the thunder daemon is already running"@,
                ThunderError::NotRunning => "the thunder daemon is not running"@,
                ThunderError::TlsMisconfigured => "--tls-cert (-C) and --tls-key (-K) must be given together"@,
                ThunderError::PermissionDenied => "permission denied"@,
                ThunderError::PayloadCrashed => "the payload exited unexpectedly"@,
                ThunderError::IoError => "input/output error"@,
                ThunderError::ParseError => "malformed value in `/etc/.thunder`"@,
            },
    {
        match self {
            ThunderError::NotInstalled => "`/etc/.thunder` not found: thunder is not installed",
            ThunderError::AlreadyInstalled => "`/etc/.thunder` already exists: uninstall first",
            ThunderError::AlreadyRunning => "the thunder daemon is already running",
            ThunderError::NotRunning => "the thunder daemon is not running",
            ThunderError::TlsMisconfigured => "--tls-cert (-C) and --tls-key (-K) must be given together",
            ThunderError::PermissionDenied => "permission denied",
            ThunderError::PayloadCrashed => "the payload exited unexpectedly",
            ThunderError::IoError => "input/output error",
            ThunderError::ParseError => "malformed value in `/etc/.thunder`",
        }
    }
}

} // verus!
