//! Installer and supervisor for a download-manager service: the install
//! manifest and its file format, the supervisor's decisions, the checks on a
//! serve configuration, the front end's password check, and the steps of
//! install and uninstall.
use vstd::prelude::*;

pub mod auth;
pub mod error;
pub mod install;
pub mod manifest;
pub mod serve;
pub mod supervisor;
pub mod text;

verus! {

/// The verbs of the command line, one of which each invocation carries out.
pub enum Commands {
    Install(manifest::InstallConfig),
    Uninstall,
    Run(serve::ServeConfig),
    Start(serve::ServeConfig),
    Stop,
    Status,
    Log,
}

/// A command that carries itself out: install, uninstall, or serve.
pub trait Running {
    fn run(self) -> Result<(), error::ThunderError>;
}

} // verus!
