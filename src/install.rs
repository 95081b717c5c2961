//! The steps of install and uninstall, in order, for the caller to carry out.
use vstd::prelude::*;
use crate::manifest::{InstallConfig, ManifestView};

verus! {

/// A directory that install and uninstall act on.
#[derive(Clone, Copy, Debug, PartialEq, Eq, Structural)]
pub enum Dir {
    /// Where the payload is installed.
    PayloadRoot,
    Config,
    Download,
    MountBind,
}

/// One step of install.
#[derive(Clone, Copy, Debug, PartialEq, Eq, Structural)]
pub enum InstallStep {
    /// Create the directory, and its parents, with mode 0755.
    CreateDir(Dir),
    /// Unpack the archive into the payload root.
    Extract,
    /// Give the directory and all below it to the manifest's uid and gid.
    Chown(Dir),
    /// Bind-mount the download directory onto the mount-bind directory.
    BindMount,
    /// Register the service unit that runs `start` at boot; best effort.
    RegisterService,
}

/// One step of uninstall; a failed step is reported and the rest still run.
#[derive(Clone, Copy, Debug, PartialEq, Eq, Structural)]
pub enum UninstallStep {
    /// Unmount the mount-bind directory if it is mounted.
    Unmount,
    RemoveService,
    /// Remove the directory and all below it.
    RemoveDir(Dir),
    RemoveManifest,
}

/// The directory under which the payload is installed.
pub fn payload_root() -> (r: &'static str)
    ensures
        r@ == "/var/packages/thunder"@,
{
    "/var/packages/thunder"
}

/// The steps of install for `m`, in order.
pub open spec fn install_plan(m: ManifestView) -> Seq<InstallStep> {
    seq![
        InstallStep::CreateDir(Dir::PayloadRoot),
        InstallStep::CreateDir(Dir::Config),
        InstallStep::CreateDir(Dir::Download),
        InstallStep::CreateDir(Dir::MountBind),
    ] + (if m.package is Some {
        seq![InstallStep::Extract]
    } else {
        Seq::empty()
    }) + seq![
        InstallStep::Chown(Dir::PayloadRoot),
        InstallStep::Chown(Dir::Config),
        InstallStep::Chown(Dir::Download),
        InstallStep::BindMount,
        InstallStep::RegisterService,
    ]
}

/// The steps of uninstall, when a manifest was read or not: without one the
/// mount-bind directory is unknown, and nothing is unmounted.
pub open spec fn uninstall_plan(has_manifest: bool) -> Seq<UninstallStep> {
    (if has_manifest {
        seq![UninstallStep::Unmount]
    } else {
        Seq::empty()
    }) + seq![
        UninstallStep::RemoveService,
        UninstallStep::RemoveDir(Dir::PayloadRoot),
        UninstallStep::RemoveManifest,
    ]
}

impl InstallConfig {
    /// The steps that install this configuration.
    pub fn install_steps(&self) -> (r: Vec<InstallStep>)
        ensures
            r@ == install_plan(self@),
    {
        let mut v: Vec<InstallStep> = Vec::new();
        v.push(InstallStep::CreateDir(Dir::PayloadRoot));
        v.push(InstallStep::CreateDir(Dir::Config));
        v.push(InstallStep::CreateDir(Dir::Download));
        v.push(InstallStep::CreateDir(Dir::MountBind));
        if self.package.is_some() {
            v.push(InstallStep::Extract);
        }
        v.push(InstallStep::Chown(Dir::PayloadRoot));
        v.push(InstallStep::Chown(Dir::Config));
        v.push(InstallStep::Chown(Dir::Download));
        v.push(InstallStep::BindMount);
        v.push(InstallStep::RegisterService);
        assert(v@ =~= install_plan(self@));
        v
    }

    /// The path of `d` for this configuration.
    pub fn dir_path(&self, d: Dir) -> (r: &str)
        ensures
            d is Config ==> r@ == self.config_path@,
            d is Download ==> r@ == self.download_path@,
            d is MountBind ==> r@ == self.mount_bind_download_path@,
            d is PayloadRoot ==> r@ == "/var/packages/thunder"@,
    {
        match d {
            Dir::PayloadRoot => payload_root(),
            Dir::Config => self.config_path.as_str(),
            Dir::Download => self.download_path.as_str(),
            Dir::MountBind => self.mount_bind_download_path.as_str(),
        }
    }
}

/// The steps that uninstall, with or without a manifest.
pub fn uninstall_steps(manifest: &Option<InstallConfig>) -> (r: Vec<UninstallStep>)
    ensures
        r@ == uninstall_plan(manifest is Some),
{
    let mut v: Vec<UninstallStep> = Vec::new();
    if manifest.is_some() {
        v.push(UninstallStep::Unmount);
    }
    v.push(UninstallStep::RemoveService);
    v.push(UninstallStep::RemoveDir(Dir::PayloadRoot));
    v.push(UninstallStep::RemoveManifest);
    assert(v@ =~= uninstall_plan(manifest is Some));
    v
}

} // verus!
