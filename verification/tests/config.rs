use btrbak::config::{
    default_bootloader, default_esp_path, default_initramfs, default_kernel,
    default_luks_mapping_name, default_snapshot_dir, default_snapshot_name, default_title,
    default_true, BootEntryConfig, BootloaderType, Config, EncryptionConfig, HookConfig,
    LiveBootConfig, SourceConfig, TargetConfig, TargetLocation,
};
use btrbak::error::BackupError;
use btrbak::journal::{Output, Reply, Request, Session, Stop};
use toml::{Table, Value};

fn text(table: &Table, key: &str) -> Option<String> {
    table.get(key).and_then(Value::as_str).map(str::to_string)
}

fn flag(table: &Table, key: &str, default: bool) -> bool {
    table.get(key).and_then(Value::as_bool).unwrap_or(default)
}

fn sub<'a>(table: &'a Table, key: &str) -> Option<&'a Table> {
    table.get(key).and_then(Value::as_table)
}

fn source(t: &Table) -> Option<SourceConfig> {
    Some(SourceConfig {
        path: text(t, "path")?,
        snapshot_dir: text(t, "snapshot_dir").unwrap_or_else(default_snapshot_dir),
        use_snapper: flag(t, "use_snapper", false),
        snapshot_name: text(t, "snapshot_name").unwrap_or_else(default_snapshot_name),
        snapper_config: text(t, "snapper_config"),
    })
}

fn target(t: &Table) -> Option<TargetConfig> {
    Some(TargetConfig {
        location: TargetLocation::parse(&text(t, "location")?),
        enable_live_boot: flag(t, "enable_live_boot", false),
        snapshot_subvolume: text(t, "snapshot_subvolume"),
        live_boot_subvolume: text(t, "live_boot_subvolume"),
        encryption: sub(t, "encryption").map(|e| EncryptionConfig {
            keyfile: text(e, "keyfile"),
            passphrase_env: text(e, "passphrase_env"),
            mapping_name: text(e, "mapping_name").unwrap_or_else(default_luks_mapping_name),
        }),
    })
}

fn boot_entry(t: &Table) -> BootEntryConfig {
    let options = t.get("options").and_then(Value::as_array).cloned().unwrap_or_default();
    BootEntryConfig {
        title: text(t, "title").unwrap_or_else(default_title),
        kernel: text(t, "kernel").unwrap_or_else(default_kernel),
        initramfs: text(t, "initramfs").unwrap_or_else(default_initramfs),
        microcode: text(t, "microcode"),
        options: options.iter().filter_map(|o| o.as_str().map(str::to_string)).collect(),
    }
}

/// A configuration from its text, with the defaults of the library.
fn read(content: &str) -> Result<Config, String> {
    let table: Table = content.parse().map_err(|e: toml::de::Error| e.to_string())?;
    configuration(&table).ok_or_else(|| "a field is missing".to_string())
}

fn configuration(t: &Table) -> Option<Config> {
    let listed = t.get("sources").or_else(|| t.get("source"))?.as_array()?;
    let sources: Option<Vec<SourceConfig>> =
        listed.iter().map(|s| s.as_table().and_then(source)).collect();
    let live_boot = match sub(t, "live_boot") {
        None => None,
        Some(l) => Some(LiveBootConfig {
            esp_location: TargetLocation::parse(&text(l, "esp_location")?),
            esp_path: text(l, "esp_path").unwrap_or_else(default_esp_path),
            bootloader: default_bootloader(),
            boot_entry: sub(l, "boot_entry").map(boot_entry).unwrap_or_default(),
        }),
    };
    let hooks = match sub(t, "hooks") {
        None => HookConfig::default(),
        Some(h) => HookConfig {
            copy_kernel: flag(h, "copy_kernel", default_true()),
            regenerate_fstab: flag(h, "regenerate_fstab", default_true()),
            remove_snapper_config: flag(h, "remove_snapper_config", default_true()),
        },
    };
    Some(Config {
        name: text(t, "name")?,
        sources: sources?,
        target: target(sub(t, "target")?)?,
        live_boot,
        hooks,
    })
}

/// Validates a configuration on a system where every path exists, and where programs succeed.
fn validate(config: &Config) -> Result<(), BackupError> {
    let mut replies: Vec<Reply> = vec![];
    loop {
        let reply = {
            let mut s = Session::new(&replies);
            match config.validate(&mut s) {
                Ok(()) => return Ok(()),
                Err(Stop::Failed(e)) => return Err(e),
                Err(Stop::Pending) => match s.pending().unwrap() {
                    Request::Say { .. } => Reply::Done,
                    Request::Run(_) => {
                        Reply::Ran(Output { success: true, stdout: vec![], stderr: vec![] })
                    }
                    Request::Exists(_) | Request::IsFile(_) => Reply::Flag(true),
                    other => panic!("unexpected request {:?}", other),
                },
            }
        };
        replies.push(reply);
    }
}

#[test]
fn test_config_defaults() {
    let config = Config {
        name: "test".to_string(),
        sources: vec![SourceConfig {
            path: String::from("/test"),
            snapshot_dir: String::from(".snapshots"),
            use_snapper: false,
            snapshot_name: "btrbak".to_string(),
            snapper_config: None,
        }],
        target: TargetConfig {
            location: TargetLocation::MountedPath(String::from("/mnt")),
            enable_live_boot: false,
            snapshot_subvolume: None,
            live_boot_subvolume: None,
            encryption: None,
        },
        live_boot: None,
        hooks: HookConfig::default(),
    };

    assert_eq!(config.sources[0].snapshot_dir, String::from(".snapshots"));
    assert_eq!(config.sources[0].snapshot_name, "btrbak");
    assert!(!config.sources[0].use_snapper);
}

#[test]
fn test_config_deserialize() {
    let toml_content = r#"
        name = "test"

        [[sources]]
        path = "/home"
        use_snapper = false
        snapshot_name = "test_snapshot"

        [target]
        location = "/mnt/backup"
        enable_live_boot = false
    "#;

    let config = read(toml_content);
    assert!(config.is_ok());
    let config = config.unwrap();
    assert_eq!(config.sources.len(), 1);
    assert_eq!(config.sources[0].path, String::from("/home"));
    assert_eq!(config.sources[0].snapshot_name, "test_snapshot");
    assert!(!config.sources[0].use_snapper);
    match config.target.location {
        TargetLocation::MountedPath(ref p) => assert_eq!(p, &String::from("/mnt/backup")),
        TargetLocation::Device(_) => panic!("Expected MountedPath"),
    }
}

#[test]
fn test_encryption_config_deserialize() {
    let toml_content = r#"
        name = "test"

        [[sources]]
        path = "/home"

        [target]
        location = "/dev/sda1"
        enable_live_boot = false

        [target.encryption]
        keyfile = "/path/to/keyfile"
        passphrase_env = "BACKUP_PASSPHRASE"
        mapping_name = "custom_mapping"
    "#;

    let config = read(toml_content);
    assert!(config.is_ok());
    let config = config.unwrap();
    let encryption = config.target.encryption.unwrap();
    assert_eq!(encryption.keyfile, Some(String::from("/path/to/keyfile")));
    assert_eq!(
        encryption.passphrase_env,
        Some("BACKUP_PASSPHRASE".to_string())
    );
    assert_eq!(encryption.mapping_name, "custom_mapping");
}

#[test]
fn test_target_location_dev_path() {
    let toml_content = r#"
        name = "test"
        [[sources]]
        path = "/"
        [target]
        location = "/dev/sda1"
    "#;
    let config = read(toml_content).unwrap();
    assert!(matches!(config.target.location, TargetLocation::Device(_)));
}

#[test]
fn test_target_location_uuid() {
    let toml_content = r#"
        name = "test"
        [[sources]]
        path = "/"
        [target]
        location = "UUID=abcd-1234"
    "#;
    let config = read(toml_content).unwrap();
    assert!(matches!(config.target.location, TargetLocation::Device(_)));
}

#[test]
fn test_target_location_label() {
    let toml_content = r#"
        name = "test"
        [[sources]]
        path = "/"
        [target]
        location = "LABEL=backup"
    "#;
    let config = read(toml_content).unwrap();
    assert!(matches!(config.target.location, TargetLocation::Device(_)));
}

#[test]
fn test_target_location_partuuid() {
    let toml_content = r#"
        name = "test"
        [[sources]]
        path = "/"
        [target]
        location = "PARTUUID=abcd-1234"
    "#;
    let config = read(toml_content).unwrap();
    assert!(matches!(config.target.location, TargetLocation::Device(_)));
}

#[test]
fn test_target_location_mounted_path() {
    let toml_content = r#"
        name = "test"
        [[sources]]
        path = "/"
        [target]
        location = "/mnt/backup"
    "#;
    let config = read(toml_content).unwrap();
    match &config.target.location {
        TargetLocation::MountedPath(p) => assert_eq!(p, &String::from("/mnt/backup")),
        _ => panic!("Expected MountedPath"),
    }
}

#[test]
fn test_target_location_relative_path() {
    let toml_content = r#"
        name = "test"
        [[sources]]
        path = "/"
        [target]
        location = "backup/dir"
    "#;
    let config = read(toml_content).unwrap();
    match &config.target.location {
        TargetLocation::MountedPath(p) => assert_eq!(p, &String::from("backup/dir")),
        _ => panic!("Expected MountedPath"),
    }
}

#[test]
fn test_config_multiple_sources() {
    let toml_content = r#"
        name = "multi"
        [[sources]]
        path = "/"
        [[sources]]
        path = "/home"
        [[sources]]
        path = "/var/log"
        [target]
        location = "/mnt/backup"
    "#;
    let config = read(toml_content).unwrap();
    assert_eq!(config.sources.len(), 3);
    assert_eq!(config.sources[0].path, String::from("/"));
    assert_eq!(config.sources[1].path, String::from("/home"));
    assert_eq!(config.sources[2].path, String::from("/var/log"));
}

#[test]
fn test_config_source_alias() {
    let toml_content = r#"
        name = "alias"
        [[source]]
        path = "/home"
        [target]
        location = "/mnt/backup"
    "#;
    let config = read(toml_content).unwrap();
    assert_eq!(config.sources.len(), 1);
    assert_eq!(config.sources[0].path, String::from("/home"));
}

#[test]
fn test_config_live_boot_full() {
    let toml_content = r#"
        name = "liveboot"
        [[sources]]
        path = "/"
        [target]
        location = "/dev/sda1"
        enable_live_boot = true
        [live_boot]
        esp_location = "/dev/sda2"
        esp_path = "/efi"
        bootloader = "SystemdBoot"
        [live_boot.boot_entry]
        title = "My Backup"
        kernel = "/boot/vmlinuz-linux"
        initramfs = "/boot/initramfs-linux.img"
        options = ["root=UUID=xxxx", "rw"]
    "#;
    let config = read(toml_content).unwrap();
    let lb = config.live_boot.unwrap();
    assert!(matches!(lb.esp_location, TargetLocation::Device(_)));
    assert_eq!(lb.esp_path, String::from("/efi"));
    assert_eq!(lb.boot_entry.title, "My Backup");
    assert_eq!(lb.boot_entry.options.len(), 2);
}

#[test]
fn test_config_live_boot_defaults() {
    let toml_content = r#"
        name = "liveboot"
        [[sources]]
        path = "/"
        [target]
        location = "/dev/sda1"
        [live_boot]
        esp_location = "/efi"
    "#;
    let config = read(toml_content).unwrap();
    let lb = config.live_boot.unwrap();
    match lb.esp_location {
        TargetLocation::MountedPath(path) => assert_eq!(path, String::from("/efi")),
        TargetLocation::Device(_) => panic!("Expected mounted path for esp_location"),
    }
    assert_eq!(lb.esp_path, String::from("/efi"));
    assert_eq!(lb.boot_entry.title, "Backup Environment");
    assert_eq!(lb.boot_entry.kernel, String::from("/boot/vmlinuz-linux"));
    assert_eq!(
        lb.boot_entry.initramfs,
        String::from("/boot/initramfs-linux.img")
    );
    assert!(lb.boot_entry.options.is_empty());
}

#[test]
fn test_config_boot_entry_options() {
    let toml_content = r#"
        name = "test"
        [[sources]]
        path = "/"
        [target]
        location = "/dev/sda1"
        [live_boot]
        esp_location = "/efi"
        [live_boot.boot_entry]
        options = ["root=UUID=abcd", "rw", "quiet"]
    "#;
    let config = read(toml_content).unwrap();
    let opts = &config.live_boot.unwrap().boot_entry.options;
    assert_eq!(opts.len(), 3);
    assert_eq!(opts[0], "root=UUID=abcd");
    assert_eq!(opts[2], "quiet");
}

#[test]
fn test_live_boot_esp_path_helpers() {
    let live_boot = LiveBootConfig {
        esp_location: TargetLocation::Device("/dev/sda1".to_string()),
        esp_path: String::from("/boot/efi"),
        bootloader: BootloaderType::SystemdBoot,
        boot_entry: BootEntryConfig::default(),
    };

    assert_eq!(live_boot.esp_path_relative(), String::from("boot/efi"));
    assert_eq!(live_boot.esp_mount_point(), "/boot/efi");
    live_boot.validate_esp_path().unwrap();
}

#[test]
fn test_live_boot_esp_path_rejects_parent_dir() {
    let live_boot = LiveBootConfig {
        esp_location: TargetLocation::Device("/dev/sda1".to_string()),
        esp_path: String::from("/boot/../efi"),
        bootloader: BootloaderType::SystemdBoot,
        boot_entry: BootEntryConfig::default(),
    };

    assert!(live_boot.validate_esp_path().is_err());
}

#[test]
fn test_hook_config_defaults() {
    // When [hooks] section is present but empty, serde field defaults apply
    let toml_content = r#"
        name = "test"
        [[sources]]
        path = "/"
        [target]
        location = "/mnt"
        [hooks]
    "#;
    let config = read(toml_content).unwrap();
    assert!(config.hooks.copy_kernel);
    assert!(config.hooks.regenerate_fstab);
    assert!(config.hooks.remove_snapper_config);
}

#[test]
fn test_hook_config_override() {
    let toml_content = r#"
        name = "test"
        [[sources]]
        path = "/"
        [target]
        location = "/mnt"
        [hooks]
        copy_kernel = false
    "#;
    let config = read(toml_content).unwrap();
    assert!(!config.hooks.copy_kernel);
    assert!(config.hooks.regenerate_fstab);
    assert!(config.hooks.remove_snapper_config);
}

#[test]
fn test_encryption_default_mapping_name() {
    let toml_content = r#"
        name = "test"
        [[sources]]
        path = "/"
        [target]
        location = "/dev/sda1"
        [target.encryption]
        keyfile = "/tmp/key"
    "#;
    let config = read(toml_content).unwrap();
    let enc = config.target.encryption.unwrap();
    assert_eq!(enc.mapping_name, "backup_target");
}

#[test]
fn test_encryption_no_keyfile_no_env() {
    let toml_content = r#"
        name = "test"
        [[sources]]
        path = "/"
        [target]
        location = "/dev/sda1"
        [target.encryption]
        mapping_name = "custom"
    "#;
    let config = read(toml_content).unwrap();
    let enc = config.target.encryption.unwrap();
    assert!(enc.keyfile.is_none());
    assert!(enc.passphrase_env.is_none());
    assert_eq!(enc.mapping_name, "custom");
}

#[test]
fn test_source_config_default_snapshot_dir() {
    let toml_content = r#"
        name = "test"
        [[sources]]
        path = "/home"
        [target]
        location = "/mnt"
    "#;
    let config = read(toml_content).unwrap();
    assert_eq!(config.sources[0].snapshot_dir, String::from(".snapshots"));
}

#[test]
fn test_source_config_default_snapshot_name() {
    let toml_content = r#"
        name = "test"
        [[sources]]
        path = "/home"
        [target]
        location = "/mnt"
    "#;
    let config = read(toml_content).unwrap();
    assert_eq!(config.sources[0].snapshot_name, "btrbak");
}

#[test]
fn test_validate_empty_name() {
    let config = Config {
        name: "  ".to_string(),
        sources: vec![SourceConfig {
            path: String::from("/test"),
            snapshot_dir: default_snapshot_dir(),
            use_snapper: false,
            snapshot_name: default_snapshot_name(),
            snapper_config: None,
        }],
        target: TargetConfig {
            location: TargetLocation::MountedPath(String::from("/mnt")),
            enable_live_boot: false,
            snapshot_subvolume: None,
            live_boot_subvolume: None,
            encryption: None,
        },
        live_boot: None,
        hooks: HookConfig::default(),
    };
    let result = validate(&config);
    assert!(result.is_err());
    assert!(result.unwrap_err().message().contains("non-empty"));
}

#[test]
fn test_validate_empty_sources() {
    let config = Config {
        name: "test".to_string(),
        sources: vec![],
        target: TargetConfig {
            location: TargetLocation::MountedPath(String::from("/mnt")),
            enable_live_boot: false,
            snapshot_subvolume: None,
            live_boot_subvolume: None,
            encryption: None,
        },
        live_boot: None,
        hooks: HookConfig::default(),
    };
    let result = validate(&config);
    assert!(result.is_err());
    assert!(
        result
            .unwrap_err().message()
            .contains("No source configurations")
    );
}
