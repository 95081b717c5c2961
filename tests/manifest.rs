use thunder::error::ThunderError;
use thunder::manifest::{InstallConfig, ManifestStore};

fn config(uid: u32, gid: u32, c: &str, d: &str, m: &str, package: Option<&str>) -> InstallConfig {
    InstallConfig {
        uid,
        gid,
        package: package.map(|p| p.to_string()),
        config_path: c.to_string(),
        download_path: d.to_string(),
        mount_bind_download_path: m.to_string(),
    }
}

fn same_persisted(a: &InstallConfig, b: &InstallConfig) -> bool {
    a.uid == b.uid
        && a.gid == b.gid
        && a.config_path == b.config_path
        && a.download_path == b.download_path
        && a.mount_bind_download_path == b.mount_bind_download_path
}

#[test]
fn fresh_install_writes_five_lines() {
    let c = config(1000, 1000, "/etc/x", "/srv/x", "/mnt/x", Some("/tmp/pkg.tar"));
    let mut store = ManifestStore::new(None);
    assert!(c.write_to_file(&mut store).is_ok());
    let text = store.contents.clone().unwrap();
    assert_eq!(
        text,
        "uid=1000\ngid=1000\nconfig_path=/etc/x\ndownload_path=/srv/x\nmount_bind_download_path=/mnt/x\n"
    );
    assert_eq!(text.lines().count(), 5);
}

#[test]
fn write_then_read_round_trip() {
    let c = config(4294967295, 0, "/etc/a b", "/srv/=x", "/mnt/y", Some("/tmp/p.tar"));
    let mut store = ManifestStore::new(None);
    assert_eq!(c.write_to_file(&mut store), Ok(()));
    let back = InstallConfig::read_from_file(&store).unwrap();
    assert!(same_persisted(&c, &back));
    assert!(back.package.is_none());
}

#[test]
fn remove_twice_succeeds() {
    let c = config(1, 2, "/a", "/b", "/c", None);
    let mut store = ManifestStore::new(None);
    assert!(c.write_to_file(&mut store).is_ok());
    assert_eq!(InstallConfig::empty().remove_file(&mut store), Ok(()));
    assert_eq!(InstallConfig::empty().remove_file(&mut store), Ok(()));
    assert!(store.contents.is_none());
    assert!(!store.is_installed());
}

#[test]
fn second_write_is_refused() {
    let first = config(1, 1, "/a", "/b", "/c", None);
    let second = config(2, 3, "/d", "/e", "/f", None);
    let mut store = ManifestStore::new(None);
    assert_eq!(first.write_to_file(&mut store), Ok(()));
    assert_eq!(second.write_to_file(&mut store), Err(ThunderError::AlreadyInstalled));
    let back = InstallConfig::read_from_file(&store).unwrap();
    assert!(same_persisted(&first, &back));
}

#[test]
fn read_without_file_is_not_installed() {
    let store = ManifestStore::new(None);
    assert!(matches!(InstallConfig::read_from_file(&store), Err(ThunderError::NotInstalled)));
}

#[test]
fn partial_manifest_defaults_missing_keys() {
    let store = ManifestStore::new(Some("uid=0\ngid=0\n".to_string()));
    let c = InstallConfig::read_from_file(&store).unwrap();
    assert_eq!(c.uid, 0);
    assert_eq!(c.gid, 0);
    assert_eq!(c.config_path, "");
    assert_eq!(c.download_path, "");
    assert_eq!(c.mount_bind_download_path, "");
}

#[test]
fn blank_lines_unknown_keys_and_spaces() {
    let text = "\n  uid=7  \r\n\nfoo=bar\n\tgid=+8\nconfig_path=/x=y\nnoequals\ndownload_path=\nmount_bind_download_path= /m";
    let c = InstallConfig::from_manifest_text(text).unwrap();
    assert_eq!(c.uid, 7);
    assert_eq!(c.gid, 8);
    assert_eq!(c.config_path, "/x=y");
    assert_eq!(c.download_path, "");
    assert_eq!(c.mount_bind_download_path, " /m");
}

#[test]
fn later_line_overrides_earlier() {
    let c = InstallConfig::from_manifest_text("uid=1\nuid=2\n").unwrap();
    assert_eq!(c.uid, 2);
}

#[test]
fn bad_ids_are_parse_errors() {
    for text in ["uid=abc", "uid=", "uid", "gid=-1", "gid=+", "uid=4294967296", "uid=1 2", "gid=99999999999999999999"] {
        assert!(
            matches!(InstallConfig::from_manifest_text(text), Err(ThunderError::ParseError)),
            "{}",
            text
        );
    }
}

#[test]
fn largest_id_is_read() {
    let c = InstallConfig::from_manifest_text("gid=4294967295").unwrap();
    assert_eq!(c.gid, u32::MAX);
    let c = InstallConfig::from_manifest_text("uid=0004").unwrap();
    assert_eq!(c.uid, 4);
}

#[test]
fn empty_text_gives_defaults() {
    let c = InstallConfig::from_manifest_text("").unwrap();
    assert_eq!((c.uid, c.gid), (0, 0));
    assert_eq!(c.config_path, "");
}

#[test]
fn paths_keep_trailing_white_space() {
    let c = config(5, 6, "/ ", "/srv/x\t", "/mnt/x \r", None);
    let mut store = ManifestStore::new(None);
    assert_eq!(c.write_to_file(&mut store), Ok(()));
    let back = InstallConfig::read_from_file(&store).unwrap();
    assert_eq!(back.config_path, "/ ");
    assert_eq!(back.download_path, "/srv/x\t");
    assert_eq!(back.mount_bind_download_path, "/mnt/x \r");
}

#[test]
fn value_is_text_after_first_equals() {
    let c = InstallConfig::from_manifest_text("  config_path =/a=b  \n uid = 12 \n").unwrap();
    assert_eq!(c.config_path, "/a=b  ");
    assert_eq!(c.uid, 12);
}

#[test]
fn path_validity() {
    assert!(config(0, 0, "/etc/x", "/srv/x", "/mnt/x", None).has_valid_paths());
    assert!(!config(0, 0, "etc/x", "/srv/x", "/mnt/x", None).has_valid_paths());
    assert!(!config(0, 0, "/etc/x", "/srv/x", "/srv/x", None).has_valid_paths());
    assert!(!config(0, 0, "", "/srv/x", "/mnt/x", None).has_valid_paths());
}

#[test]
fn error_messages_are_single_lines() {
    for e in [
        ThunderError::NotInstalled,
        ThunderError::AlreadyInstalled,
        ThunderError::AlreadyRunning,
        ThunderError::NotRunning,
        ThunderError::TlsMisconfigured,
        ThunderError::PermissionDenied,
        ThunderError::PayloadCrashed,
        ThunderError::IoError,
        ThunderError::ParseError,
    ] {
        assert!(!e.message().is_empty());
        assert!(!e.message().contains('\n'));
    }
    assert!(ThunderError::NotInstalled.message().contains("/etc/.thunder"));
}
