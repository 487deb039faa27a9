use btrbak::config::{BootEntryConfig, EncryptionConfig, TargetConfig, TargetLocation};
use btrbak::liveboot::{
    build_entry_content, build_entry_options, is_managed_option, resolve_root_device,
    LuksBootConfig,
};

#[test]
fn test_build_entry_options_filters_root_related_options() {
    let entry_config = BootEntryConfig {
        title: "Backup".to_string(),
        kernel: String::from("/boot/vmlinuz-linux"),
        initramfs: String::from("/boot/initramfs-linux.img"),
        microcode: None,
        options: vec![
            "quiet".to_string(),
            "root=UUID=old".to_string(),
            "rootflags=subvol=old".to_string(),
            "rd.luks.name=olduuid=oldmap".to_string(),
            "rd.luks.options=olduuid=oldopts".to_string(),
            "rw".to_string(),
            "loglevel=3".to_string(),
        ],
    };

    let options = build_entry_options(&entry_config, "UUID=new-uuid", "@", None);
    assert_eq!(
        options,
        vec![
            "quiet".to_string(),
            "loglevel=3".to_string(),
            "root=UUID=new-uuid".to_string(),
            "rw".to_string(),
            "rootflags=subvol=@/root_vol".to_string(),
        ]
    );
}

#[test]
fn test_build_entry_options_adds_luks_root_options() {
    let entry_config = BootEntryConfig {
        title: "Backup".to_string(),
        kernel: String::from("/boot/vmlinuz-linux"),
        initramfs: String::from("/boot/initramfs-linux.img"),
        microcode: None,
        options: vec!["quiet".to_string()],
    };
    let luks = LuksBootConfig {
        luks_uuid: "64dd0231-0074-42b9-bd1e-914201277068".to_string(),
        mapping_name: "nest".to_string(),
    };

    let options = build_entry_options(&entry_config, "LABEL=nest", "@", Some(&luks));
    assert_eq!(
        options,
        vec![
            "quiet".to_string(),
            "rd.luks.name=64dd0231-0074-42b9-bd1e-914201277068=nest".to_string(),
            "rd.luks.options=64dd0231-0074-42b9-bd1e-914201277068=keyfile-timeout=3s,timeout=0,discard,password-echo=masked,tries=0".to_string(),
            "rootflags=x-systemd.device-timeout=0".to_string(),
            "root=LABEL=nest".to_string(),
            "rw".to_string(),
            "rootflags=subvol=@/root_vol".to_string(),
        ]
    );
}

#[test]
fn test_build_entry_content_puts_microcode_before_initramfs() {
    let entry_config = BootEntryConfig {
        title: "Backup".to_string(),
        kernel: String::from("/boot/vmlinuz-linux"),
        initramfs: String::from("/boot/initramfs-linux.img"),
        microcode: Some(String::from("/boot/amd-ucode.img")),
        options: vec![],
    };
    let options = vec!["quiet".to_string(), "rw".to_string()];

    let content = build_entry_content(&entry_config, &options);
    let micro_idx = content.find("initrd  /amd-ucode.img").unwrap();
    let initramfs_idx = content.find("initrd  /initramfs-linux.img").unwrap();

    assert!(micro_idx < initramfs_idx);
    assert!(content.contains("linux   /vmlinuz-linux"));
    assert!(content.contains("options quiet rw"));
}

#[test]
fn test_resolve_root_device_prefers_stable_target_identifier_when_unencrypted() {
    let target = TargetConfig {
        location: TargetLocation::Device("LABEL=nest".to_string()),
        enable_live_boot: true,
        snapshot_subvolume: None,
        live_boot_subvolume: None,
        encryption: None,
    };

    let root = resolve_root_device(&target, "btrfs-uuid");
    assert_eq!(root, "LABEL=nest");
}

#[test]
fn test_resolve_root_device_uses_btrfs_uuid_when_encrypted() {
    let target = TargetConfig {
        location: TargetLocation::Device("LABEL=nest".to_string()),
        enable_live_boot: true,
        snapshot_subvolume: None,
        live_boot_subvolume: None,
        encryption: Some(EncryptionConfig {
            keyfile: None,
            passphrase_env: Some("BTRBAK_TEST".to_string()),
            mapping_name: "nest".to_string(),
        }),
    };

    let root = resolve_root_device(&target, "btrfs-uuid");
    assert_eq!(root, "UUID=btrfs-uuid");
}

#[test]
fn managed_options() {
    for o in ["rw", "root=UUID=x", "rootflags=subvol=@", "rd.luks.name=a=b", "rd.luks.uuid=a"] {
        assert!(is_managed_option(o), "{}", o);
    }
    for o in ["ro", "quiet", "rwx", "noroot=x", "rd.luks", "rd.lvm=0", "rootfstype=btrfs", ""] {
        assert!(!is_managed_option(o), "{}", o);
    }
}

#[test]
fn entry_content_is_exact() {
    let entry = BootEntryConfig {
        title: "Rescue".to_string(),
        kernel: "/boot/vmlinuz-lts".to_string(),
        initramfs: "/boot/initramfs-lts.img".to_string(),
        microcode: None,
        options: vec![],
    };
    let options = vec!["root=LABEL=x".to_string(), "rw".to_string()];
    assert_eq!(
        build_entry_content(&entry, &options),
        "title   Rescue\nlinux   /vmlinuz-lts\ninitrd  /initramfs-lts.img\noptions root=LABEL=x rw\n"
    );
}

#[test]
fn root_device_of_a_mounted_target_is_its_uuid() {
    let target = TargetConfig {
        location: TargetLocation::MountedPath("/mnt".to_string()),
        enable_live_boot: true,
        snapshot_subvolume: None,
        live_boot_subvolume: None,
        encryption: None,
    };
    assert_eq!(resolve_root_device(&target, "1234"), "UUID=1234");
}
