use btrbak::error::{BackupError, ConfigError, IoFailure, IoKind};

#[test]
fn test_error_display() {
    let io_error = IoFailure { kind: IoKind::NotFound, message: "file not found".to_string() };
    let backup_error = BackupError::Io(io_error);
    assert!(backup_error.message().contains("IO error"));

    let btrfs_error = BackupError::Btrfs("test failure".to_string());
    assert!(btrfs_error.message().contains("Btrfs operation failed"));

    let mount_error = BackupError::Mount("mount failed".to_string());
    assert!(mount_error.message().contains("Mount error"));

    let bootloader_error = BackupError::Bootloader("bootloader failed".to_string());
    assert!(bootloader_error.message().contains("Bootloader error"));

    let hook_error = BackupError::Hook("hook failed".to_string());
    assert!(hook_error.message().contains("Hook execution error"));

    let lock_error = BackupError::Lock("lock failed".to_string());
    assert!(lock_error.message().contains("Lock error"));
}

#[test]
fn test_error_from_io() {
    let io_error = IoFailure { kind: IoKind::Other, message: "test".to_string() };
    let backup_error: BackupError = io_error.into();
    match backup_error {
        BackupError::Io(_) => (),
        _ => panic!("Expected Io error"),
    }
}

#[test]
fn test_hints_lock_already_running() {
    let err = BackupError::Lock("Another btrbak instance is already running".to_string());
    let hints = err.hints();
    assert!(!hints.is_empty());
    assert!(hints[0].contains("Wait"));
}

#[test]
fn test_hints_io_permission_denied() {
    let io_error = IoFailure { kind: IoKind::PermissionDenied, message: "denied".to_string() };
    let err = BackupError::Io(io_error);
    let hints = err.hints();
    assert!(!hints.is_empty());
    assert!(hints[0].contains("sudo"));
}

#[test]
fn test_hints_btrfs_send() {
    let err = BackupError::Btrfs("Failed to send subvolume".to_string());
    let hints = err.hints();
    assert!(hints.iter().any(|h| h.contains("free space")));
}

#[test]
fn test_hints_config() {
    let err = BackupError::Config("bad config".to_string());
    let hints = err.hints();
    assert!(!hints.is_empty());
    assert!(hints.iter().any(|h| h.contains("validate")));
}

#[test]
fn test_hints_btrfs_permission_denied() {
    let err = BackupError::Btrfs("Permission denied on /mnt".to_string());
    let hints = err.hints();
    assert!(hints.iter().any(|h| h.contains("sudo")));
}

#[test]
fn test_hints_btrfs_snapshot() {
    let err = BackupError::Btrfs("Failed to create snapshot".to_string());
    let hints = err.hints();
    assert!(hints.iter().any(|h| h.contains("subvolume is accessible")));
}

#[test]
fn test_hints_btrfs_not_subvolume() {
    let err = BackupError::Btrfs("Path is not a btrfs subvolume".to_string());
    let hints = err.hints();
    assert!(hints.iter().any(|h| h.contains("valid btrfs subvolume")));
}

#[test]
fn test_hints_btrfs_receive() {
    let err = BackupError::Btrfs("Failed to receive subvolume".to_string());
    let hints = err.hints();
    assert!(hints.iter().any(|h| h.contains("free space on the target")));
}

#[test]
fn test_hints_mount_luks() {
    let err = BackupError::Mount("Failed to open LUKS device".to_string());
    let hints = err.hints();
    assert!(hints.iter().any(|h| h.contains("cryptsetup isLuks")));
}

#[test]
fn test_hints_mount_not_luks() {
    let err = BackupError::Mount("Device is not a LUKS container".to_string());
    let hints = err.hints();
    assert!(hints.iter().any(|h| h.contains("encryption is configured")));
}

#[test]
fn test_hints_mount_failed() {
    let err = BackupError::Mount("Failed to mount /dev/sda1".to_string());
    let hints = err.hints();
    assert!(hints.iter().any(|h| h.contains("mounting manually")));
}

#[test]
fn test_hints_mount_unmount_failed() {
    let err = BackupError::Mount("Failed to unmount /mnt/backup".to_string());
    let hints = err.hints();
    assert!(hints.iter().any(|h| h.contains("lsof")));
}

#[test]
fn test_hints_mount_generic() {
    let err = BackupError::Mount("some unknown mount issue".to_string());
    let hints = err.hints();
    assert!(hints.iter().any(|h| h.contains("device exists")));
}

#[test]
fn test_hints_bootloader_systemd_boot() {
    let err = BackupError::Bootloader("systemd-boot configuration failed".to_string());
    let hints = err.hints();
    assert!(hints
        .iter()
        .any(|h| h.contains("systemd-boot is installed")));
}

#[test]
fn test_hints_bootloader_generic() {
    let err = BackupError::Bootloader("some bootloader error".to_string());
    let hints = err.hints();
    assert!(hints.iter().any(|h| h.contains("ESP path")));
}

#[test]
fn test_hints_hook_uuid() {
    let err = BackupError::Hook("Failed to get UUID for mount".to_string());
    let hints = err.hints();
    assert!(hints
        .iter()
        .any(|h| h.contains("target device is properly mounted")));
}

#[test]
fn test_hints_hook_kernel() {
    let err = BackupError::Hook("kernel and initramfs copy failed".to_string());
    let hints = err.hints();
    assert!(hints
        .iter()
        .any(|h| h.contains("kernel and initramfs paths")));
}

#[test]
fn test_hints_lock_generic() {
    let err = BackupError::Lock("failed to create lock".to_string());
    let hints = err.hints();
    assert!(hints.iter().any(|h| h.contains("/tmp is writable")));
}

#[test]
fn every_error_has_its_prefix() {
    let io = IoFailure { kind: IoKind::Other, message: "disk full".to_string() };
    assert_eq!(BackupError::Io(io).message(), "IO error: disk full");
    assert_eq!(
        BackupError::Config("no sources".to_string()).message(),
        "Configuration error: no sources"
    );
    assert_eq!(BackupError::Btrfs("x".to_string()).message(), "Btrfs operation failed: x");
    assert_eq!(BackupError::Mount("x".to_string()).message(), "Mount error: x");
    assert_eq!(BackupError::Bootloader("x".to_string()).message(), "Bootloader error: x");
    assert_eq!(BackupError::Hook("x".to_string()).message(), "Hook execution error: x");
    assert_eq!(BackupError::Lock("x".to_string()).message(), "Lock error: x");
}

#[test]
fn config_errors_convert() {
    let e: BackupError = ConfigError { message: "bad name".to_string() }.into();
    assert_eq!(e.message(), "Configuration error: bad name");
}

#[test]
fn hints_add_up() {
    let e = BackupError::Btrfs("Failed to send snapshot: Permission denied".to_string());
    assert_eq!(
        e.hints(),
        vec![
            "Try running with sudo or as root",
            "Check free space on the target: 'btrfs filesystem usage <path>'",
            "Ensure the parent snapshot still exists for incremental backup",
            "Ensure the source subvolume is accessible",
            "Check disk space: 'btrfs filesystem usage <path>'",
        ]
    );
}
