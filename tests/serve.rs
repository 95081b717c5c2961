use thunder::error::ThunderError;
use thunder::install::{uninstall_steps, Dir, InstallStep, UninstallStep};
use thunder::manifest::{InstallConfig, ManifestStore};
use thunder::serve::{plan_serve, BindAddr, BindIp, ServeConfig};

fn serve(cert: Option<&str>, key: Option<&str>, port: u16) -> ServeConfig {
    ServeConfig {
        debug: false,
        auth_password: Some("secret".to_string()),
        bind: BindAddr { ip: BindIp::V4(0x7f000001), port },
        tls_cert: cert.map(|s| s.to_string()),
        tls_key: key.map(|s| s.to_string()),
    }
}

fn installed() -> ManifestStore {
    ManifestStore::new(Some("uid=1000\ngid=1000\nconfig_path=/etc/x\ndownload_path=/srv/x\nmount_bind_download_path=/mnt/x\n".to_string()))
}

#[test]
fn cert_without_key_is_misconfigured() {
    let c = serve(Some("/tmp/c.pem"), None, 15055);
    assert!(matches!(c.tls(), Err(ThunderError::TlsMisconfigured)));
    assert!(matches!(plan_serve(&c, &installed()), Err(ThunderError::TlsMisconfigured)));
    assert!(matches!(plan_serve(&c, &ManifestStore::new(None)), Err(ThunderError::TlsMisconfigured)));
    let msg = ThunderError::TlsMisconfigured.message();
    assert!(msg.contains("--tls-cert") && msg.contains("--tls-key"));
    assert_eq!(msg, "--tls-cert (-C) and --tls-key (-K) must be given together");
}

#[test]
fn key_without_cert_is_misconfigured() {
    let c = serve(None, Some("/tmp/k.pem"), 15055);
    assert!(matches!(c.tls(), Err(ThunderError::TlsMisconfigured)));
}

#[test]
fn both_tls_files_are_used() {
    let c = serve(Some("/c"), Some("/k"), 443);
    let plan = plan_serve(&c, &installed()).unwrap();
    let tls = plan.tls.unwrap();
    assert_eq!((tls.cert.as_str(), tls.key.as_str()), ("/c", "/k"));
    assert!(plan.drop_privileges);
    assert_eq!(plan.manifest.uid, 1000);
}

#[test]
fn serve_without_tls() {
    let c = serve(None, None, 15055);
    let plan = plan_serve(&c, &installed()).unwrap();
    assert!(plan.tls.is_none());
    assert!(!plan.drop_privileges);
    assert_eq!(plan.manifest.download_path, "/srv/x");
}

#[test]
fn serve_needs_a_manifest() {
    let c = serve(None, None, 15055);
    assert!(matches!(plan_serve(&c, &ManifestStore::new(None)), Err(ThunderError::NotInstalled)));
}

#[test]
fn default_bind_address() {
    let b = BindAddr::default_bind();
    assert_eq!(b, BindAddr { ip: BindIp::V4(0), port: 5055 });
    assert!(!b.is_privileged());
}

#[test]
fn install_steps_with_and_without_archive() {
    let mut c = InstallConfig::from_manifest_text("config_path=/etc/x\ndownload_path=/srv/x\nmount_bind_download_path=/mnt/x").unwrap();
    let without = c.install_steps();
    assert_eq!(without.len(), 9);
    assert!(!without.contains(&InstallStep::Extract));
    c.package = Some("/tmp/pkg.tar".to_string());
    let with = c.install_steps();
    assert_eq!(with[4], InstallStep::Extract);
    assert_eq!(with[8], InstallStep::BindMount);
    assert_eq!(c.dir_path(Dir::Download), "/srv/x");
    assert_eq!(c.dir_path(Dir::MountBind), "/mnt/x");
    assert_eq!(c.dir_path(Dir::Config), "/etc/x");
}

#[test]
fn uninstall_after_partial_install() {
    let store = ManifestStore::new(Some("uid=0\ngid=0\n".to_string()));
    let m = InstallConfig::read_from_file(&store).ok();
    assert!(m.is_some());
    let steps = uninstall_steps(&m);
    assert_eq!(steps[0], UninstallStep::Unmount);
    assert_eq!(steps[steps.len() - 1], UninstallStep::RemoveManifest);
    let steps = uninstall_steps(&None);
    assert_eq!(
        steps,
        vec![UninstallStep::RemoveService, UninstallStep::RemoveDir(Dir::PayloadRoot), UninstallStep::RemoveManifest]
    );
}
