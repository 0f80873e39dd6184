use vagga_core::run::{
    banner_text, check_command_workdir, clone_action, clone_plan, container_volumes, format_u64,
    format_u64_padded, is_writeable, resolv_conf_paths, transient_dir_name, transient_target,
    write_sentinel_plan, CloneAction, CloneOp, DirEntry, FileKind, WriteSentinel,
};
use vagga_core::clean::transient_pid;
use vagga_core::types::{Command, Container, Environ, Mount, WriteMode};

fn environ() -> Environ {
    Environ {
        project_root: "/work".to_string(),
        local_vagga: "/work/.vagga".to_string(),
        work_dir: "/work/sub".to_string(),
        vagga_exe: "/usr/bin/vagga".to_string(),
    }
}

fn container() -> Container {
    Container {
        name: "base".to_string(),
        container_root: Some("/work/.vagga/.roots/base".to_string()),
        tmpfs_volumes: vec![("/tmp".to_string(), "size=100m".to_string())],
        mutable_dirs: vec!["/var/cache".to_string()],
    }
}

#[test]
fn decimal_formatting() {
    assert_eq!(format_u64(0), "0");
    assert_eq!(format_u64(4242), "4242");
    assert_eq!(format_u64_padded(7, 4), "0007");
    assert_eq!(format_u64_padded(2024, 4), "2024");
    assert_eq!(format_u64_padded(12345, 4), "12345");
    assert_eq!(format_u64_padded(3, 2), "03");
}

#[test]
fn transient_name_format() {
    assert_eq!(transient_dir_name("build", 2024, 1, 1, 4242), "build.20240101.4242");
    assert_eq!(transient_dir_name("base", 999, 12, 31, 1), "base.09991231.1");
}

#[test]
fn transient_name_roundtrips_pid() {
    let name = transient_dir_name("build", 2024, 1, 1, 4242);
    assert_eq!(transient_pid(&name), Some(4242));
}

#[test]
fn transient_target_lies_under_transients() {
    let target = transient_target("/work/.vagga", "base");
    assert!(target.starts_with("/work/.vagga/.transients/base."));
    let own = nix::unistd::getpid().as_raw();
    assert!(target.ends_with(&format!(".{}", own)));
}

#[test]
fn write_mode_check() {
    assert!(!is_writeable(WriteMode::ReadOnly));
    assert!(is_writeable(WriteMode::TransientHardLinkCopy));
}

#[test]
fn sentinel_read_only_has_no_obligation() {
    let env = environ();
    let (mut sentinel, dir) = write_sentinel_plan(&env, &container(), WriteMode::ReadOnly);
    assert_eq!(dir, None);
    assert_eq!(sentinel.take_delete_dir(), None);
}

#[test]
fn sentinel_records_obligation_before_clone() {
    let env = environ();
    let (mut sentinel, dir) =
        write_sentinel_plan(&env, &container(), WriteMode::TransientHardLinkCopy);
    let dir = dir.expect("a transient copy needs a directory");
    // The clone has not even started, yet releasing the handle already
    // yields the directory: a clone that fails partway changes nothing
    // about the cleanup.
    assert_eq!(sentinel.take_delete_dir(), Some(dir.clone()));
    // The obligation is consumed exactly once.
    assert_eq!(sentinel.take_delete_dir(), None);
}

#[test]
fn sentinel_handles_explicit_recording() {
    let mut sentinel = WriteSentinel::new(&"/usr/bin/vagga".to_string());
    assert_eq!(sentinel.take_delete_dir(), None);
    sentinel.record_delete_dir("/work/.vagga/.transients/x.20240101.1".to_string());
    assert_eq!(
        sentinel.take_delete_dir(),
        Some("/work/.vagga/.transients/x.20240101.1".to_string())
    );
}

#[test]
fn clone_actions_by_kind() {
    assert_eq!(clone_action(&FileKind::Regular), CloneAction::HardLink);
    assert_eq!(clone_action(&FileKind::Symlink), CloneAction::HardLink);
    assert_eq!(clone_action(&FileKind::Directory), CloneAction::MakeDirAndRecurse);
    assert_eq!(clone_action(&FileKind::NamedPipe), CloneAction::Skip);
    assert_eq!(clone_action(&FileKind::BlockDevice), CloneAction::Skip);
    assert_eq!(clone_action(&FileKind::Unknown), CloneAction::Skip);
}

#[test]
fn clone_plan_keeps_files_links_dirs_drops_pipes() {
    let entries = vec![
        DirEntry { name: "data".to_string(), kind: FileKind::Regular, perm: 0o644 },
        DirEntry { name: "link".to_string(), kind: FileKind::Symlink, perm: 0o777 },
        DirEntry { name: "nested".to_string(), kind: FileKind::Directory, perm: 0o755 },
        DirEntry { name: "fifo".to_string(), kind: FileKind::NamedPipe, perm: 0o644 },
    ];
    let plan = clone_plan(&entries);
    assert_eq!(plan.len(), 3);
    match &plan[0] {
        CloneOp::Link(name) => assert_eq!(name, "data"),
        other => panic!("file should be hardlinked, got {:?}", other),
    }
    match &plan[1] {
        CloneOp::Link(name) => assert_eq!(name, "link"),
        other => panic!("symlink should be hardlinked, got {:?}", other),
    }
    match &plan[2] {
        CloneOp::MakeDir(name, perm) => {
            assert_eq!(name, "nested");
            assert_eq!(*perm, 0o755);
        }
        other => panic!("directory should be recreated, got {:?}", other),
    }
}

#[test]
fn volumes_in_declaration_order() {
    let env = environ();
    let mounts = container_volumes(&env, &container());
    assert_eq!(mounts.len(), 2);
    match &mounts[0] {
        Mount::Pseudo(fstype, target, options) => {
            assert_eq!(fstype, "tmpfs");
            assert_eq!(target, "/work/.vagga/.mnt/tmp");
            assert_eq!(options, "size=100m");
        }
        other => panic!("tmpfs volume should be a pseudo mount, got {:?}", other),
    }
    match &mounts[1] {
        Mount::Bind(source, target) => {
            assert_eq!(source, "/work/.vagga/.mnt/var/cache");
            assert_eq!(target, "/work/.vagga/.mnt/var/cache");
        }
        other => panic!("mutable dir should be a self-bind, got {:?}", other),
    }
}

#[test]
fn workdir_default_when_undeclared() {
    let env = environ();
    let cmd = Command { work_dir: None };
    assert_eq!(check_command_workdir(&env, &cmd), Ok("/work/sub".to_string()));
}

#[test]
fn workdir_relative_inside_root() {
    let env = environ();
    let cmd = Command { work_dir: Some("src/main".to_string()) };
    assert_eq!(check_command_workdir(&env, &cmd), Ok("/work/src/main".to_string()));
}

#[test]
fn workdir_escaping_is_rejected() {
    let env = environ();
    let cmd = Command { work_dir: Some("../outside".to_string()) };
    assert!(check_command_workdir(&env, &cmd).is_err());
    let cmd = Command { work_dir: Some("a/../../b".to_string()) };
    assert!(check_command_workdir(&env, &cmd).is_err());
    let cmd = Command { work_dir: Some("a/../b".to_string()) };
    assert!(check_command_workdir(&env, &cmd).is_ok());
}

#[test]
fn workdir_absolute_under_root() {
    let env = environ();
    let cmd = Command { work_dir: Some("/work/src".to_string()) };
    assert_eq!(check_command_workdir(&env, &cmd), Ok("/work/src".to_string()));
    let cmd = Command { work_dir: Some("/elsewhere".to_string()) };
    assert!(check_command_workdir(&env, &cmd).is_err());
}

#[test]
fn resolv_paths_differ_only_in_suffix() {
    let p = resolv_conf_paths("/work/.vagga/.roots/base", "/etc");
    assert_eq!(p.dir, "/work/.vagga/.roots/base/etc");
    assert_eq!(p.tmp, "/work/.vagga/.roots/base/etc/resolv.conf.tmp");
    assert_eq!(p.dst, "/work/.vagga/.roots/base/etc/resolv.conf");
    assert_ne!(p.tmp, p.dst);
}

#[test]
fn banner_gets_trailing_newline() {
    assert_eq!(banner_text(&None), None);
    assert_eq!(banner_text(&Some("hello".to_string())), Some("hello\n".to_string()));
    assert_eq!(banner_text(&Some("hello\n".to_string())), Some("hello\n".to_string()));
    assert_eq!(banner_text(&Some(String::new())), Some("\n".to_string()));
}
