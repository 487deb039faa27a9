//! The procedures on a machine that is simulated in memory.

use btrbak::backup::{
    backup_single_source, compute_backup_steps, find_snapshots_dir, mount_esp, mount_target,
    prepare_live_environment, print_summary, run_backup, send_snapshot, ConfigLock,
    LiveEnvironmentUpdater, SourceOutcome,
};
use btrbak::btrfs;
use btrbak::cli::{Cli, Commands};
use btrbak::config::{
    BootEntryConfig, BootloaderType, Config, EncryptionConfig, HookConfig, LiveBootConfig,
    SourceConfig, TargetConfig, TargetLocation,
};
use btrbak::device::{
    close_luks_device, close_luks_device_with_mode, is_luks_device, is_luks_device_with_mode,
    open_luks_device, open_luks_device_with_mode, resolve_block_device, DeviceAccessMode,
    MountGuard,
};
use btrbak::error::{BackupError, IoFailure, IoKind};
use btrbak::hooks::{
    copy_kernel_to_esp, find_root_vol_path, fstab, generate_basic_fstab, get_device_uuid,
    regenerate_fstab, remove_snapper_config, run_hooks,
};
use btrbak::journal::{Command, Output, Reply, Request, Sending, Session, Stop, Tone, TransferStats};
use btrbak::liveboot::{
    find_btrfs_device, find_luks_uuid, prepare_live_boot, resolve_luks_boot_config,
};
use btrbak::snapshot::SourceSnapshot;
use btrbak::spelling::{name_to_text, path_to_bytes};
use std::collections::{BTreeMap, BTreeSet};

#[derive(Clone, Debug, PartialEq)]
enum Node {
    Dir,
    File(String),
    Subvolume { id: u64, read_only: bool, stamp: i128, received: Option<u64> },
}

type Tree = BTreeMap<String, Node>;
type Override = Box<dyn Fn(&Command) -> Option<Output>>;
type Fault = Box<dyn Fn(&Request) -> Option<IoFailure>>;

/// File systems, devices and programs, as far as the procedures ask for them.
struct Machine {
    nodes: Tree,
    ids: u64,
    clock: i128,
    temps: u64,
    /// What is on each device that is not mounted.
    devices: BTreeMap<String, Tree>,
    mounts: BTreeMap<String, String>,
    /// Encrypted devices with the key that opens them.
    luks: BTreeMap<String, String>,
    mapped: BTreeMap<String, String>,
    /// Devices by UUID or label.
    tags: BTreeMap<String, String>,
    variables: BTreeMap<String, String>,
    open_locks: BTreeSet<String>,
    held_locks: BTreeSet<String>,
    /// The snapshots of snapper: number and description.
    snapper: Vec<(u64, String)>,
    snapper_dir: String,
    overrides: Vec<Override>,
    faults: Vec<Fault>,
    said: Vec<(Tone, String)>,
    requests: Vec<String>,
    commands: Vec<String>,
}

fn output(success: bool, stdout: &str, stderr: &str) -> Output {
    Output {
        success,
        stdout: stdout.as_bytes().to_vec(),
        stderr: stderr.as_bytes().to_vec(),
    }
}

fn fault(kind: IoKind, message: &str) -> IoFailure {
    IoFailure { kind, message: message.to_string() }
}

fn missing() -> IoFailure {
    fault(IoKind::NotFound, "No such file or directory (os error 2)")
}

fn directory_of(path: &str) -> String {
    match path.rsplit_once('/') {
        Some(("", _)) | None => "/".to_string(),
        Some((d, _)) => d.to_string(),
    }
}

fn base_name(path: &str) -> &str {
    path.rsplit('/').next().unwrap()
}

fn under(path: &str, dir: &str) -> bool {
    dir == "/" || path.starts_with(&format!("{}/", dir))
}

impl Machine {
    fn new() -> Machine {
        let mut nodes = Tree::new();
        for d in ["/", "/tmp", "/mnt", "/dev", "/dev/mapper", "/td", "/recv"] {
            nodes.insert(d.to_string(), Node::Dir);
        }
        Machine {
            nodes,
            ids: 256,
            clock: 1_000,
            temps: 0,
            devices: BTreeMap::new(),
            mounts: BTreeMap::new(),
            luks: BTreeMap::new(),
            mapped: BTreeMap::new(),
            tags: BTreeMap::new(),
            variables: BTreeMap::new(),
            open_locks: BTreeSet::new(),
            held_locks: BTreeSet::new(),
            snapper: vec![],
            snapper_dir: String::new(),
            overrides: vec![],
            faults: vec![],
            said: vec![],
            requests: vec![],
            commands: vec![],
        }
    }

    /// Runs a procedure to its end, one request at a time.
    fn run<T>(&mut self, f: impl Fn(&mut Session) -> Result<T, Stop>) -> Result<T, BackupError> {
        let mut replies: Vec<Reply> = vec![];
        let mut asked: Vec<String> = vec![];
        loop {
            let reply = {
                let mut s = Session::new(&replies);
                let result = f(&mut s);
                let now: Vec<String> = s.asked().iter().map(|r| format!("{:?}", r)).collect();
                assert_eq!(now, asked, "a procedure asks the same again");
                match result {
                    Ok(t) => {
                        assert!(s.pending().is_none());
                        return Ok(t);
                    }
                    Err(Stop::Failed(e)) => return Err(e),
                    Err(Stop::Pending) => {
                        let request = s.pending().unwrap();
                        asked.push(format!("{:?}", request));
                        self.requests.push(format!("{:?}", request));
                        self.answer(request)
                    }
                }
            };
            replies.push(reply);
        }
    }

    fn answer(&mut self, request: &Request) -> Reply {
        for f in &self.faults {
            if let Some(e) = f(request) {
                return Reply::Failed(e);
            }
        }
        match request {
            Request::Say { tone, text } => {
                self.said.push((*tone, text.clone()));
                Reply::Done
            }
            Request::Run(c) => Reply::Ran(self.program(c)),
            Request::Exists(p) => Reply::Flag(self.nodes.contains_key(p)),
            Request::IsFile(p) => Reply::Flag(matches!(self.nodes.get(p), Some(Node::File(_)))),
            Request::ModifiedAt(p) => Reply::Stamp(match self.nodes.get(p) {
                Some(Node::Subvolume { stamp, .. }) => Some(*stamp),
                _ => None,
            }),
            Request::ReadDir(p) => {
                if !self.nodes.contains_key(p) {
                    return Reply::Failed(missing());
                }
                let paths = self.children(p);
                let names = paths.iter().map(|p| path_to_bytes(base_name(p))).collect();
                Reply::Entries { names, failure: None }
            }
            Request::CreateDirAll(p) => {
                self.mkdirs(p);
                Reply::Done
            }
            Request::Rename { from, to } => done(self.rename(from, to)),
            Request::Copy { from, to } => match self.nodes.get(from).cloned() {
                Some(Node::File(text)) => done(self.write(to, &text)),
                _ => Reply::Failed(missing()),
            },
            Request::WriteFile { path, text } => done(self.write(path, text)),
            Request::RemoveFile(p) => match self.nodes.get(p) {
                Some(Node::File(_)) => {
                    self.nodes.remove(p);
                    Reply::Done
                }
                _ => Reply::Failed(missing()),
            },
            Request::RemoveDir(p) => {
                if !self.nodes.contains_key(p) {
                    Reply::Failed(missing())
                } else if self.children(p).is_empty() {
                    self.nodes.remove(p);
                    Reply::Done
                } else {
                    Reply::Failed(fault(IoKind::Other, "Directory not empty (os error 39)"))
                }
            }
            Request::EnvVar(n) => match self.variables.get(n) {
                Some(v) => Reply::Text(v.clone()),
                None => Reply::Failed(fault(IoKind::Other, "environment variable not found")),
            },
            Request::TempRoot => Reply::Text("/tmp".to_string()),
            Request::MakeTempDir => {
                self.temps += 1;
                let p = format!("/tmp/.tmp{}", self.temps);
                self.mkdirs(&p);
                Reply::Text(p)
            }
            Request::RemoveTempDir(p) => {
                assert!(!self.mounts.contains_key(p), "a mounted directory is not removed");
                self.remove_tree(p);
                Reply::Done
            }
            Request::OpenLock(p) => match self.write(p, "") {
                Ok(()) => {
                    self.open_locks.insert(p.clone());
                    Reply::Done
                }
                Err(e) => Reply::Failed(e),
            },
            Request::TryLock(p) => {
                assert!(self.open_locks.contains(p));
                if self.held_locks.insert(p.clone()) {
                    Reply::Done
                } else {
                    Reply::Failed(fault(IoKind::Other, "Resource temporarily unavailable"))
                }
            }
            Request::Unlock(p) => {
                self.open_locks.remove(p);
                self.held_locks.remove(p);
                Reply::Done
            }
            Request::StartClock => Reply::Done,
            Request::ReadClock => Reply::Elapsed { secs: 3, short: "3.2".to_string() },
            Request::Transfer { source, parent, dest } => {
                Reply::Sent(self.transfer(source, parent.as_deref(), dest))
            }
        }
    }

    fn program(&mut self, c: &Command) -> Output {
        self.commands.push(format!("{} {}", c.program, c.args.join(" ")));
        for f in &self.overrides {
            if let Some(o) = f(c) {
                return o;
            }
        }
        let args: Vec<&str> = c.args.iter().map(String::as_str).collect();
        let result = match (c.program.as_str(), args.as_slice()) {
            ("btrfs", ["subvolume", "show", p]) => match self.nodes.get(*p) {
                Some(Node::Subvolume { id, .. }) => {
                    Ok(format!("{}\n\tName: \t\t\tx\n\tSubvolume ID: \t\t{}\n", base_name(p), id))
                }
                _ => Err(format!("ERROR: Not a Btrfs subvolume: {}", p)),
            },
            ("btrfs", ["subvolume", "create", p]) => self.create(p),
            ("btrfs", ["subvolume", "delete", p]) => self.delete(p),
            ("btrfs", ["subvolume", "snapshot", "-r", s, d]) => self.snapshot(s, d, true),
            ("btrfs", ["subvolume", "snapshot", s, d]) => self.snapshot(s, d, false),
            ("btrfs", ["filesystem", "show", p]) if self.nodes.contains_key(*p) => Ok(String::new()),
            ("findfs", [tag]) => match self.tags.get(*tag) {
                Some(d) => Ok(format!("{}\n", d)),
                None => Err(format!("findfs: unable to resolve '{}'", tag)),
            },
            ("findmnt", ["--mountpoint", p, rest @ ..]) => match self.mounts.get(*p) {
                Some(d) if rest.contains(&"UUID") => Ok(format!("uuid-of-{}\n", base_name(d))),
                Some(d) => Ok(format!("{} {} btrfs rw\n", p, d)),
                None => Err(String::new()),
            },
            ("mount", [d, p]) => self.mount(d, p),
            ("umount", [p]) => self.umount(p),
            ("cryptsetup", ["isLuks", d]) if self.luks.contains_key(*d) => Ok(String::new()),
            ("cryptsetup", ["luksUUID", d]) if self.luks.contains_key(*d) => {
                Ok(format!("luks-uuid-of-{}\n", base_name(d)))
            }
            ("cryptsetup", ["open", "--key-file", k, d, m]) => {
                let key = if *k == "-" { c.input.clone().unwrap_or_default() } else { k.to_string() };
                if self.luks.get(*d) == Some(&key) {
                    self.mapped.insert(m.to_string(), d.to_string());
                    self.nodes.insert(format!("/dev/mapper/{}", m), Node::File(String::new()));
                    Ok(String::new())
                } else {
                    Err("No key available with this passphrase.".to_string())
                }
            }
            ("cryptsetup", ["close", m]) => {
                if self.mapped.remove(*m).is_some() {
                    self.nodes.remove(&format!("/dev/mapper/{}", m));
                    Ok(String::new())
                } else {
                    Err(format!("Device {} is not active.", m))
                }
            }
            ("snapper", ["-c", _, "create", "-t", "single", "-d", description, ..]) => {
                let n = self.snapper.iter().map(|(n, _)| *n).max().unwrap_or(0) + 1;
                self.snapper.push((n, description.to_string()));
                let at = format!("{}/{}/snapshot", self.snapper_dir, n);
                let source = directory_of(&self.snapper_dir);
                self.mkdirs(&directory_of(&at));
                self.snapshot(&source, &at, true).map(|_| format!("{}\n", n))
            }
            ("snapper", ["-c", _, "list", ..]) => {
                let mut text = "number description type\n".to_string();
                for (n, d) in &self.snapper {
                    text.push_str(&format!("{} {} single\n", n, d));
                }
                Ok(text)
            }
            ("snapper", ["-c", _, "delete", n]) => {
                let n: u64 = n.parse().unwrap();
                self.snapper.retain(|(m, _)| *m != n);
                Ok(String::new())
            }
            ("bootctl", ["--esp-path", p, "install"]) => {
                self.mkdirs(&format!("{}/loader", p));
                Ok(String::new())
            }
            _ => Err(format!("{} failed", c.program)),
        };
        match result {
            Ok(text) => output(true, &text, ""),
            Err(text) => output(false, "", &format!("{}\n", text)),
        }
    }

    fn children(&self, dir: &str) -> Vec<String> {
        self.nodes.keys().filter(|p| *p != "/" && directory_of(p) == dir).cloned().collect()
    }

    fn has(&self, path: &str) -> bool {
        self.nodes.contains_key(path)
    }

    fn mkdirs(&mut self, path: &str) {
        if path != "/" && !self.has(path) {
            self.mkdirs(&directory_of(path));
            self.nodes.insert(path.to_string(), Node::Dir);
        }
    }

    fn remove_tree(&mut self, path: &str) {
        self.nodes.retain(|p, _| p != path && !under(p, path));
    }

    fn read(&self, path: &str) -> Option<&str> {
        match self.nodes.get(path) {
            Some(Node::File(t)) => Some(t),
            _ => None,
        }
    }

    fn write(&mut self, path: &str, text: &str) -> Result<(), IoFailure> {
        let dir = directory_of(path);
        if !self.has(&dir) {
            return Err(missing());
        }
        let mut at = dir;
        loop {
            match self.nodes.get(&at) {
                Some(Node::Subvolume { read_only: true, .. }) => {
                    return Err(fault(IoKind::Other, "Read-only file system (os error 30)"));
                }
                Some(Node::Subvolume { .. }) => break,
                _ => {
                    if at == "/" {
                        break;
                    }
                    at = directory_of(&at);
                }
            }
        }
        self.nodes.insert(path.to_string(), Node::File(text.to_string()));
        Ok(())
    }

    fn subvolume(&mut self, read_only: bool, received: Option<u64>) -> Node {
        self.ids += 1;
        self.clock += 10;
        Node::Subvolume { id: self.ids, read_only, stamp: self.clock, received }
    }

    fn id(&self, path: &str) -> Option<u64> {
        match self.nodes.get(path) {
            Some(Node::Subvolume { id, .. }) => Some(*id),
            _ => None,
        }
    }

    fn create(&mut self, path: &str) -> Result<String, String> {
        if self.has(path) || !self.has(&directory_of(path)) {
            return Err(format!("ERROR: cannot create subvolume {}", path));
        }
        let node = self.subvolume(false, None);
        self.nodes.insert(path.to_string(), node);
        Ok(String::new())
    }

    fn delete(&mut self, path: &str) -> Result<String, String> {
        let nested = self
            .nodes
            .iter()
            .any(|(p, n)| under(p, path) && matches!(n, Node::Subvolume { .. }));
        if self.id(path).is_none() || nested {
            return Err(format!("ERROR: Could not destroy subvolume {}", path));
        }
        self.remove_tree(path);
        Ok(String::new())
    }

    /// Copies what is below a subvolume; subvolumes in it turn into empty directories.
    fn copy_below(&mut self, source: &str, dest: &str) {
        let mut inner: Vec<String> = vec![];
        let mut copies: Vec<(String, Node)> = vec![];
        for (p, n) in &self.nodes {
            if under(p, source) && !inner.iter().any(|i| under(p, i)) {
                let to = format!("{}{}", dest, &p[source.len()..]);
                match n {
                    Node::Subvolume { .. } => {
                        inner.push(p.clone());
                        copies.push((to, Node::Dir));
                    }
                    other => copies.push((to, other.clone())),
                }
            }
        }
        self.nodes.extend(copies);
    }

    fn snapshot(&mut self, source: &str, dest: &str, read_only: bool) -> Result<String, String> {
        if self.id(source).is_none() || self.has(dest) || !self.has(&directory_of(dest)) {
            return Err(format!("ERROR: cannot snapshot '{}'", source));
        }
        self.copy_below(source, dest);
        let node = self.subvolume(read_only, None);
        self.nodes.insert(dest.to_string(), node);
        Ok(String::new())
    }

    fn rename(&mut self, from: &str, to: &str) -> Result<(), IoFailure> {
        if !self.has(from) || !self.has(&directory_of(to)) {
            return Err(missing());
        }
        if self.has(to) {
            return Err(fault(IoKind::Other, "Directory not empty (os error 39)"));
        }
        let moved: Vec<String> =
            self.nodes.keys().filter(|p| *p == from || under(p, from)).cloned().collect();
        for p in moved {
            let n = self.nodes.remove(&p).unwrap();
            self.nodes.insert(format!("{}{}", to, &p[from.len()..]), n);
        }
        Ok(())
    }

    fn mount(&mut self, device: &str, point: &str) -> Result<String, String> {
        let real = match device.strip_prefix("/dev/mapper/") {
            Some(m) => self.mapped.get(m).cloned(),
            None => Some(device.to_string()),
        };
        let tree = real.and_then(|d| self.devices.get(&d).cloned());
        match tree {
            Some(tree) if self.has(point) => {
                for (p, n) in tree {
                    self.nodes.insert(format!("{}{}", point, p), n);
                }
                self.mounts.insert(point.to_string(), device.to_string());
                Ok(String::new())
            }
            _ => Err(format!("mount: {}: can't find {}", point, device)),
        }
    }

    fn umount(&mut self, point: &str) -> Result<String, String> {
        let device = match self.mounts.remove(point) {
            Some(d) => d,
            None => return Err(format!("umount: {}: not mounted", point)),
        };
        let real = match device.strip_prefix("/dev/mapper/") {
            Some(m) => self.mapped[m].clone(),
            None => device,
        };
        let mut tree = Tree::new();
        for (p, n) in &self.nodes {
            if under(p, point) {
                tree.insert(p[point.len()..].to_string(), n.clone());
            }
        }
        self.devices.insert(real, tree);
        self.nodes.retain(|p, _| !under(p, point));
        Ok(String::new())
    }

    fn transfer(&mut self, source: &str, parent: Option<&str>, dest: &str) -> Sending {
        let to = format!("{}/{}", dest, base_name(source));
        let sent = matches!(self.nodes.get(source), Some(Node::Subvolume { read_only: true, .. }));
        let known = match parent.map(|p| self.id(p)) {
            None => true,
            Some(None) => false,
            Some(Some(wanted)) => self
                .nodes
                .values()
                .any(|n| matches!(n, Node::Subvolume { received: Some(r), .. } if *r == wanted)),
        };
        let accepted = sent && known && self.has(dest) && !self.has(&to);
        let mut bytes: u64 = 0;
        if accepted {
            let id = self.id(source);
            self.copy_below(source, &to);
            let node = self.subvolume(true, id);
            self.nodes.insert(to, node);
            bytes = 100;
        }
        Sending::Ended {
            stats: TransferStats { bytes, bytes_per_sec: bytes / 2 },
            send: output(sent, "", if sent { "" } else { "ERROR: cannot send\n" }),
            receive: output(accepted, "", if accepted { "" } else { "ERROR: cannot receive\n" }),
        }
    }

    fn inject(&mut self, f: impl Fn(&Command) -> Option<Output> + 'static) {
        self.overrides.push(Box::new(f));
    }

    fn is_subvolume(&mut self, path: &str) -> bool {
        self.run(|s| btrfs::is_subvolume(s, path)).unwrap()
    }

    fn create_subvolume(&mut self, path: &str) {
        self.run(|s| btrfs::create_subvolume(s, path)).unwrap();
    }

    fn create_snapshot(&mut self, source: &str, dest: &str) {
        self.run(|s| btrfs::create_snapshot(s, source, dest)).unwrap();
    }

    fn warned(&self, part: &str) -> bool {
        self.said.iter().any(|(t, m)| *t == Tone::Warning && m.contains(part))
    }

    /// Nothing is mounted, unlocked or locked, and no temporary directory is left.
    fn is_clean(&self) -> bool {
        self.mounts.keys().all(|p| !p.starts_with("/tmp/"))
            && self.mapped.is_empty()
            && self.held_locks.is_empty()
            && !self.nodes.keys().any(|p| p.starts_with("/tmp/.tmp"))
    }
}

fn done(r: Result<(), IoFailure>) -> Reply {
    match r {
        Ok(()) => Reply::Done,
        Err(e) => Reply::Failed(e),
    }
}

fn message<T>(r: Result<T, BackupError>) -> String {
    match r {
        Ok(_) => panic!("expected an error"),
        Err(e) => e.message(),
    }
}

fn make_source_config(path: &str, snapshot_dir: &str) -> SourceConfig {
    SourceConfig {
        path: path.to_string(),
        snapshot_dir: snapshot_dir.to_string(),
        use_snapper: false,
        snapshot_name: "btrbak".to_string(),
        snapper_config: None,
    }
}

fn make_target_config(path: &str) -> TargetConfig {
    TargetConfig {
        location: TargetLocation::MountedPath(path.to_string()),
        enable_live_boot: false,
        snapshot_subvolume: None,
        live_boot_subvolume: None,
        encryption: None,
    }
}

fn make_config(num_sources: usize, enable_live_boot: bool) -> Config {
    let sources = (0..num_sources)
        .map(|i| make_source_config(&format!("/src{}", i), ".snapshots"))
        .collect();
    let mut target = make_target_config("/mnt");
    target.enable_live_boot = enable_live_boot;
    Config {
        name: "test".to_string(),
        sources,
        target,
        live_boot: None,
        hooks: HookConfig::default(),
    }
}

fn live_boot_at(esp: &str) -> LiveBootConfig {
    LiveBootConfig {
        esp_location: TargetLocation::MountedPath(esp.to_string()),
        esp_path: "/efi".to_string(),
        bootloader: BootloaderType::SystemdBoot,
        boot_entry: BootEntryConfig::default(),
    }
}

#[test]
fn test_btrfs_create_subvolume_and_is_subvolume() {
    let mut m = Machine::new();
    m.create_subvolume("/td/sv");
    assert!(m.is_subvolume("/td/sv"));
    m.mkdirs("/td/plain");
    assert!(!m.is_subvolume("/td/plain"));
}

#[test]
fn test_btrfs_create_subvolume_already_exists() {
    let mut m = Machine::new();
    m.create_subvolume("/td/sv");
    let err = m.run(|s| btrfs::create_subvolume(s, "/td/sv"));
    assert!(err.is_err());
    assert!(matches!(err.unwrap_err(), BackupError::Btrfs(_)));
}

#[test]
fn test_btrfs_delete_subvolume() {
    let mut m = Machine::new();
    m.create_subvolume("/td/sv");
    assert!(m.has("/td/sv"));
    m.run(|s| btrfs::delete_subvolume(s, "/td/sv")).unwrap();
    assert!(!m.has("/td/sv"));
}

#[test]
fn test_btrfs_delete_subvolume_nonexistent() {
    let mut m = Machine::new();
    let err = m.run(|s| btrfs::delete_subvolume(s, "/td/does_not_exist"));
    assert!(err.is_err());
}

#[test]
fn test_btrfs_rename_subvolume() {
    let mut m = Machine::new();
    m.create_subvolume("/td/old_sv");
    m.run(|s| btrfs::rename_subvolume(s, "/td/old_sv", "/td/new_sv")).unwrap();
    assert!(!m.has("/td/old_sv"));
    assert!(m.is_subvolume("/td/new_sv"));
}

#[test]
fn test_btrfs_get_subvolume_id() {
    let mut m = Machine::new();
    m.create_subvolume("/td/sv");
    let id = m.run(|s| btrfs::get_subvolume_id(s, "/td/sv")).unwrap();
    assert!(id > 0);
    assert_eq!(Some(id), m.id("/td/sv"));
}

#[test]
fn test_btrfs_get_subvolume_id_not_subvolume() {
    let mut m = Machine::new();
    m.mkdirs("/td/plain");
    let err = m.run(|s| btrfs::get_subvolume_id(s, "/td/plain"));
    assert!(err.is_err());
}

#[test]
fn test_btrfs_is_btrfs_filesystem() {
    let mut m = Machine::new();
    assert!(m.run(|s| btrfs::is_btrfs_filesystem(s, "/td")).unwrap());
    assert!(!m.run(|s| btrfs::is_btrfs_filesystem(s, "/nowhere")).unwrap());
}

#[test]
fn test_btrfs_create_snapshot_readonly() {
    let mut m = Machine::new();
    m.create_subvolume("/td/src");
    m.write("/td/src/hello.txt", "world").unwrap();
    m.create_snapshot("/td/src", "/td/snap_ro");
    assert!(m.is_subvolume("/td/snap_ro"));
    assert_eq!(m.read("/td/snap_ro/hello.txt").unwrap(), "world");
    assert!(m.write("/td/snap_ro/new.txt", "fail").is_err());
}

#[test]
fn test_btrfs_create_snapshot_rw() {
    let mut m = Machine::new();
    m.create_subvolume("/td/src");
    m.write("/td/src/hello.txt", "world").unwrap();
    m.run(|s| btrfs::create_snapshot_rw(s, "/td/src", "/td/snap_rw")).unwrap();
    assert!(m.is_subvolume("/td/snap_rw"));
    assert_eq!(m.read("/td/snap_rw/hello.txt").unwrap(), "world");
    m.write("/td/snap_rw/new.txt", "ok").unwrap();
    assert_eq!(m.read("/td/snap_rw/new.txt").unwrap(), "ok");
}

#[test]
fn test_btrfs_find_latest_snapshot_empty() {
    let mut m = Machine::new();
    m.mkdirs("/td/snapshots");
    let result = m.run(|s| btrfs::find_latest_snapshot(s, "/td/snapshots")).unwrap();
    assert!(result.is_none());
}

#[test]
fn test_btrfs_find_latest_snapshot_single() {
    let mut m = Machine::new();
    m.mkdirs("/td/snapshots");
    m.create_subvolume("/td/src");
    m.create_snapshot("/td/src", "/td/snapshots/snap1");
    let result = m.run(|s| btrfs::find_latest_snapshot(s, "/td/snapshots")).unwrap();
    assert_eq!(result.unwrap(), "/td/snapshots/snap1");
}

#[test]
fn test_btrfs_find_latest_snapshot_multiple() {
    let mut m = Machine::new();
    m.mkdirs("/td/snapshots");
    m.create_subvolume("/td/src");
    m.create_snapshot("/td/src", "/td/snapshots/snap1");
    m.create_snapshot("/td/src", "/td/snapshots/snap2");
    let result = m.run(|s| btrfs::find_latest_snapshot(s, "/td/snapshots")).unwrap();
    assert_eq!(result.unwrap(), "/td/snapshots/snap2");
}

#[test]
fn test_btrfs_find_latest_snapshot_nonexistent_dir() {
    let mut m = Machine::new();
    let result = m.run(|s| btrfs::find_latest_snapshot(s, "/td/no_such_dir")).unwrap();
    assert!(result.is_none());
}

#[test]
fn latest_snapshot_goes_by_time_not_by_name() {
    let mut m = Machine::new();
    m.mkdirs("/td/snapshots/plain");
    m.create_subvolume("/td/src");
    m.create_snapshot("/td/src", "/td/snapshots/z_first");
    m.create_snapshot("/td/src", "/td/snapshots/b_last");
    m.write("/td/snapshots/a_file", "").unwrap();
    let result = m.run(|s| btrfs::find_latest_snapshot(s, "/td/snapshots")).unwrap();
    assert_eq!(result.unwrap(), "/td/snapshots/b_last");
}

#[test]
fn snapshots_are_found_whose_names_are_no_text() {
    let mut m = Machine::new();
    m.create_subvolume("/td/sv");
    let odd = format!("/td/snapshots/{}", name_to_text(&b"s\xff \xc3\xa9".to_vec()));
    m.mkdirs("/td/snapshots");
    m.create_snapshot("/td/sv", "/td/snapshots/a");
    m.create_snapshot("/td/sv", &odd);
    m.said.clear();
    let found = m.run(|s| btrfs::find_latest_snapshot(s, "/td/snapshots")).unwrap().unwrap();
    assert_eq!(found, odd);
    assert_eq!(path_to_bytes(&found), b"/td/snapshots/s\xff \xc3\xa9");
    let shown = "$ btrfs subvolume show '/td/snapshots/s\u{fffd} \u{e9}'".to_string();
    assert!(m.said.contains(&(Tone::Detail, shown)));
}

#[test]
fn test_btrfs_send_and_receive_piped() {
    let mut m = Machine::new();
    m.create_subvolume("/td/src");
    m.write("/td/src/data.txt", "payload").unwrap();
    m.create_snapshot("/td/src", "/td/snap");
    m.mkdirs("/recv/dest");
    let stats =
        m.run(|s| btrfs::send_and_receive_piped(s, "/td/snap", None, "/recv/dest")).unwrap();
    assert!(stats.bytes > 0);
    assert!(m.is_subvolume("/recv/dest/snap"));
    assert_eq!(m.read("/recv/dest/snap/data.txt").unwrap(), "payload");
}

#[test]
fn test_btrfs_send_and_receive_incremental() {
    let mut m = Machine::new();
    m.create_subvolume("/td/src");
    m.write("/td/src/file1.txt", "first").unwrap();
    m.create_snapshot("/td/src", "/td/snap1");
    m.mkdirs("/recv/dest");
    m.run(|s| btrfs::send_and_receive_piped(s, "/td/snap1", None, "/recv/dest")).unwrap();
    m.write("/td/src/file2.txt", "second").unwrap();
    m.create_snapshot("/td/src", "/td/snap2");
    let stats = m
        .run(|s| btrfs::send_and_receive_piped(s, "/td/snap2", Some("/td/snap1"), "/recv/dest"))
        .unwrap();
    assert!(stats.bytes > 0);
    assert!(m.is_subvolume("/recv/dest/snap2"));
    assert_eq!(m.read("/recv/dest/snap2/file1.txt").unwrap(), "first");
    assert_eq!(m.read("/recv/dest/snap2/file2.txt").unwrap(), "second");
}

#[test]
fn failed_transfers_are_told_apart() {
    let mut m = Machine::new();
    m.create_subvolume("/td/writable");
    m.create_snapshot("/td/writable", "/td/snap");
    m.mkdirs("/recv/dest");
    let sent = m.run(|s| btrfs::send_and_receive_piped(s, "/td/writable", None, "/recv/dest"));
    assert_eq!(
        message(sent),
        "Btrfs operation failed: Failed to send subvolume /td/writable: ERROR: cannot send\n"
    );
    let received = m.run(|s| btrfs::send_and_receive_piped(s, "/td/snap", None, "/recv/none"));
    assert_eq!(
        message(received),
        "Btrfs operation failed: Failed to receive subvolume to /recv/none: ERROR: cannot receive\n"
    );
    assert!(m.said.contains(&(
        Tone::CmdStart,
        "btrfs send /td/snap | btrfs receive /recv/none".to_string()
    )));
    m.faults.push(Box::new(|r| match r {
        Request::Transfer { .. } => Some(fault(IoKind::NotFound, "no btrfs")),
        _ => None,
    }));
    let broken = m.run(|s| btrfs::send_and_receive_piped(s, "/td/snap", None, "/recv/dest"));
    assert_eq!(message(broken), "IO error: no btrfs");
}

#[test]
fn test_btrfs_send_and_replace_safely_new() {
    let mut m = Machine::new();
    m.create_subvolume("/td/src");
    m.write("/td/src/f.txt", "content").unwrap();
    m.create_snapshot("/td/src", "/td/snap");
    m.mkdirs("/recv/dest");
    let stats = m
        .run(|s| {
            btrfs::send_and_replace_safely(s, "/td/snap", None, "/recv/dest", "old", Some("target"))
        })
        .unwrap();
    assert!(stats.bytes > 0);
    assert!(m.is_subvolume("/recv/dest/target"));
    assert_eq!(m.read("/recv/dest/target/f.txt").unwrap(), "content");
}

#[test]
fn test_btrfs_send_and_replace_safely_existing() {
    let mut m = Machine::new();
    m.create_subvolume("/td/src");
    m.write("/td/src/v1.txt", "v1").unwrap();
    m.create_snapshot("/td/src", "/td/snap1");
    m.mkdirs("/recv/dest");
    m.run(|s| {
        btrfs::send_and_replace_safely(s, "/td/snap1", None, "/recv/dest", "old", Some("target"))
    })
    .unwrap();
    m.write("/td/src/v2.txt", "v2").unwrap();
    m.create_snapshot("/td/src", "/td/snap2");
    m.run(|s| {
        btrfs::send_and_replace_safely(
            s,
            "/td/snap2",
            Some("/td/snap1"),
            "/recv/dest",
            "old",
            Some("target"),
        )
    })
    .unwrap();
    assert!(m.is_subvolume("/recv/dest/target"));
    assert_eq!(m.read("/recv/dest/target/v2.txt").unwrap(), "v2");
    assert!(!m.has("/recv/dest/target.old"));
}

#[test]
fn send_and_replace_restores_what_it_moved() {
    let mut m = Machine::new();
    m.create_subvolume("/td/src");
    m.create_snapshot("/td/src", "/td/snap");
    m.mkdirs("/recv/dest");
    m.create_subvolume("/recv/dest/target");
    m.create_subvolume("/recv/dest/snap");
    let target = m.id("/recv/dest/target");
    let other = m.id("/recv/dest/snap");
    m.faults.push(Box::new(|r| match r {
        Request::Transfer { .. } => Some(fault(IoKind::Other, "pipe broke")),
        _ => None,
    }));
    let before = m.nodes.clone();
    let result = m.run(|s| {
        btrfs::send_and_replace_safely(s, "/td/snap", None, "/recv/dest", "old", Some("target"))
    });
    assert_eq!(message(result), "IO error: pipe broke");
    assert_eq!(m.nodes, before);
    assert_eq!(m.id("/recv/dest/target"), target);
    assert_eq!(m.id("/recv/dest/snap"), other);
}

#[test]
fn send_and_replace_puts_a_conflict_back() {
    let mut m = Machine::new();
    m.create_subvolume("/td/src");
    m.create_snapshot("/td/src", "/td/snap");
    m.mkdirs("/recv/dest");
    m.create_subvolume("/recv/dest/snap");
    let other = m.id("/recv/dest/snap");
    m.run(|s| {
        btrfs::send_and_replace_safely(s, "/td/snap", None, "/recv/dest", "old", Some("target"))
    })
    .unwrap();
    assert!(m.is_subvolume("/recv/dest/target"));
    assert_eq!(m.id("/recv/dest/snap"), other);
    assert!(!m.has("/recv/dest/snap.conflict"));
}

#[test]
fn test_btrfs_snapshot_and_replace_safely() {
    let mut m = Machine::new();
    m.create_subvolume("/td/src");
    m.write("/td/src/data.txt", "hello").unwrap();
    m.create_snapshot("/td/src", "/td/snap");
    m.run(|s| btrfs::snapshot_and_replace_safely(s, "/td/target", "/td/snap", "old")).unwrap();
    assert!(m.is_subvolume("/td/target"));
    assert_eq!(m.read("/td/target/data.txt").unwrap(), "hello");
    m.write("/td/src/data2.txt", "world").unwrap();
    m.create_snapshot("/td/src", "/td/snap2");
    m.run(|s| btrfs::snapshot_and_replace_safely(s, "/td/target", "/td/snap2", "old")).unwrap();
    assert!(m.is_subvolume("/td/target"));
    assert_eq!(m.read("/td/target/data2.txt").unwrap(), "world");
    assert!(!m.has("/td/target.old"));
}

#[test]
fn snapshot_and_replace_restores_the_old_subvolume() {
    let mut m = Machine::new();
    m.create_subvolume("/td/src");
    m.create_subvolume("/td/target");
    m.write("/td/target/keep.txt", "keep").unwrap();
    m.faults.push(Box::new(|r| match r {
        Request::Rename { from, .. } if from.ends_with(".new") => {
            Some(fault(IoKind::Other, "stuck"))
        }
        _ => None,
    }));
    let before = m.nodes.clone();
    let result = m.run(|s| btrfs::snapshot_and_replace_safely(s, "/td/target", "/td/src", "old"));
    assert_eq!(message(result), "IO error: stuck");
    assert_eq!(m.nodes, before);
}

#[test]
fn replacing_needs_a_name_and_a_parent() {
    let mut m = Machine::new();
    let root = m.run(|s| btrfs::snapshot_and_replace_safely(s, "/", "/td/src", "old"));
    assert_eq!(message(root), "Btrfs operation failed: Target path has no parent directory");
    let dots = m.run(|s| btrfs::move_and_replace_safely(s, "/td/..", "/td/src", "old"));
    assert_eq!(message(dots), "Btrfs operation failed: Target path has no file name");
}

#[test]
fn test_btrfs_move_and_replace_safely() {
    let mut m = Machine::new();
    m.create_subvolume("/td/src");
    m.write("/td/src/orig.txt", "orig").unwrap();
    m.create_subvolume("/td/target");
    m.write("/td/target/old.txt", "old").unwrap();
    m.create_subvolume("/td/new_sv");
    m.write("/td/new_sv/new.txt", "new").unwrap();
    m.run(|s| btrfs::move_and_replace_safely(s, "/td/target", "/td/new_sv", "old")).unwrap();
    assert!(!m.has("/td/new_sv"));
    assert!(m.is_subvolume("/td/target"));
    assert_eq!(m.read("/td/target/new.txt").unwrap(), "new");
    assert!(!m.has("/td/target.old"));
}

#[test]
fn test_btrfs_move_and_replace_safely_no_target() {
    let mut m = Machine::new();
    m.create_subvolume("/td/new_sv");
    m.write("/td/new_sv/file.txt", "data").unwrap();
    m.run(|s| btrfs::move_and_replace_safely(s, "/td/target", "/td/new_sv", "old")).unwrap();
    assert!(!m.has("/td/new_sv"));
    assert!(m.is_subvolume("/td/target"));
    assert_eq!(m.read("/td/target/file.txt").unwrap(), "data");
}

#[test]
fn test_device_access_mode_from_flag_always_privileged() {
    assert_eq!(
        DeviceAccessMode::from_privileged_flag(false),
        DeviceAccessMode::Privileged
    );
    assert_eq!(
        DeviceAccessMode::from_privileged_flag(true),
        DeviceAccessMode::Privileged
    );
}

#[test]
fn test_mount_guard_for_mounted_path() {
    let mut m = Machine::new();
    let guard = MountGuard::for_mounted_path("/tmp");
    assert_eq!(guard.mount_point(), "/tmp");
    m.run(|s| guard.release(s)).unwrap();
    assert!(m.requests.is_empty());
}

#[test]
fn test_mount_guard_mount_point_accessor() {
    let guard = MountGuard::for_mounted_path("/some/path");
    assert_eq!(guard.mount_point(), "/some/path");
}

#[test]
fn test_resolve_block_device_injected_findfs_failure() {
    let mut m = Machine::new();
    m.inject(|c| {
        if c.program == "findfs" {
            return Some(output(false, "", "injected findfs failure\n"));
        }
        None
    });
    let result = m.run(|s| resolve_block_device(s, "UUID=deadbeef"));
    assert!(message(result).contains("Failed to resolve device identifier"));
}

#[test]
fn test_resolve_block_device_injected_findfs_invalid_output() {
    let mut m = Machine::new();
    m.inject(|c| {
        if c.program == "findfs" && c.args == vec!["UUID=deadbeef".to_string()] {
            return Some(output(true, "/tmp/not-a-device\n", ""));
        }
        None
    });
    let result = m.run(|s| resolve_block_device(s, "UUID=deadbeef"));
    assert!(message(result)
        .contains("Resolved device identifier UUID=deadbeef to invalid block device path"));
}

#[test]
fn devices_are_resolved_by_tag_only() {
    let mut m = Machine::new();
    m.tags.insert("LABEL=nest".to_string(), "/dev/loop7".to_string());
    assert_eq!(m.run(|s| resolve_block_device(s, "LABEL=nest")).unwrap(), "/dev/loop7");
    assert_eq!(m.run(|s| resolve_block_device(s, "/dev/sda1")).unwrap(), "/dev/sda1");
    assert_eq!(m.commands, vec!["findfs LABEL=nest"]);
}

fn with_luks() -> (Machine, EncryptionConfig) {
    let mut m = Machine::new();
    m.luks.insert("/dev/loop0".to_string(), "/etc/key".to_string());
    let mut tree = Tree::new();
    tree.insert("/hello.txt".to_string(), Node::File("hello".to_string()));
    m.devices.insert("/dev/loop0".to_string(), tree);
    let encryption = EncryptionConfig {
        keyfile: Some("/etc/key".to_string()),
        passphrase_env: None,
        mapping_name: "btrbak_test".to_string(),
    };
    (m, encryption)
}

#[test]
fn test_root_is_luks_device_positive() {
    let (mut m, _) = with_luks();
    assert!(m.run(|s| is_luks_device(s, "/dev/loop0")).unwrap());
    assert!(m
        .run(|s| is_luks_device_with_mode(s, "/dev/loop0", DeviceAccessMode::Privileged))
        .unwrap());
}

#[test]
fn test_root_is_luks_device_negative() {
    let (mut m, _) = with_luks();
    assert!(!m.run(|s| is_luks_device(s, "/dev/null")).unwrap());
}

#[test]
fn test_root_open_close_luks_keyfile() {
    let (mut m, enc) = with_luks();
    let mapped = m
        .run(|s| {
            open_luks_device(
                s,
                "/dev/loop0",
                &enc.mapping_name,
                enc.keyfile.as_deref(),
                enc.passphrase_env.as_deref(),
            )
        })
        .unwrap();
    assert!(mapped.starts_with("/dev/mapper/"));
    assert!(m.has(&mapped));

    m.run(|s| close_luks_device(s, &enc.mapping_name)).unwrap();
    assert!(!m.has(&mapped));

    let again = m
        .run(|s| {
            open_luks_device_with_mode(
                s,
                "/dev/loop0",
                &enc.mapping_name,
                enc.keyfile.as_deref(),
                enc.passphrase_env.as_deref(),
                DeviceAccessMode::Privileged,
            )
        })
        .unwrap();
    assert!(m.has(&again));
    m.run(|s| close_luks_device_with_mode(s, &enc.mapping_name, DeviceAccessMode::Privileged))
        .unwrap();
}

#[test]
fn test_root_open_luks_passphrase_env() {
    let (mut m, _) = with_luks();
    m.luks.insert("/dev/loop0".to_string(), "open sesame".to_string());
    m.variables.insert("BTRBAK_PASS".to_string(), "open sesame".to_string());
    let mapped = m
        .run(|s| open_luks_device(s, "/dev/loop0", "nest", None, Some("BTRBAK_PASS")))
        .unwrap();
    assert!(mapped.starts_with("/dev/mapper/"));
    assert!(!m.said.iter().any(|(_, t)| t.contains("sesame")));
    m.run(|s| close_luks_device(s, "nest")).unwrap();
    let unset = m.run(|s| open_luks_device(s, "/dev/loop0", "nest", None, Some("NOT_SET")));
    assert_eq!(
        message(unset),
        "Mount error: Failed to get passphrase from environment variable NOT_SET: environment variable not found"
    );
}

#[test]
fn test_root_open_luks_no_credentials() {
    let (mut m, enc) = with_luks();
    let result = m.run(|s| open_luks_device(s, "/dev/loop0", &enc.mapping_name, None, None));
    assert!(result.is_err());
}

#[test]
fn test_root_open_luks_wrong_keyfile() {
    let (mut m, enc) = with_luks();
    let result = m
        .run(|s| open_luks_device(s, "/dev/loop0", &enc.mapping_name, Some("/dev/null"), None));
    assert!(result.is_err());
}

#[test]
fn a_device_is_locked_once() {
    let (mut m, enc) = with_luks();
    let keyfile = enc.keyfile.as_deref();
    let mapped =
        m.run(|s| open_luks_device(s, "/dev/loop0", "nest", keyfile, None)).unwrap();
    assert_eq!(mapped, "/dev/mapper/nest");
    m.run(|s| close_luks_device(s, "nest")).unwrap();
    assert!(!m.has(&mapped));
    let again = m.run(|s| close_luks_device(s, "nest"));
    assert!(message(again).starts_with("Mount error: Failed to close LUKS mapping nest: "));
}

#[test]
fn test_root_close_luks_not_open() {
    let (mut m, _) = with_luks();
    let result = m.run(|s| close_luks_device(s, "btrbak_test_nonexistent_mapping"));
    assert!(result.is_err());
}

#[test]
fn test_root_mount_guard_encrypted_lifecycle() {
    let (mut m, enc) = with_luks();
    let guard = m.run(|s| MountGuard::new_encrypted(s, "/dev/loop0", &enc)).unwrap();
    let mp = guard.mount_point().to_string();
    assert!(m.has(&mp));
    assert_eq!(m.read(&format!("{}/hello.txt", mp)), Some("hello"));

    m.run(|s| guard.release(s)).unwrap();
    assert!(!m.has(&mp));
    assert!(m.run(|s| close_luks_device(s, &enc.mapping_name)).is_err());
    assert!(m.is_clean());
}

#[test]
fn test_root_mount_guard_encrypted_lifecycle_with_mode() {
    let (mut m, enc) = with_luks();
    let guard = m
        .run(|s| {
            MountGuard::new_encrypted_with_mode(
                s,
                "/dev/loop0",
                &enc,
                DeviceAccessMode::Privileged,
            )
        })
        .unwrap();
    let mp = guard.mount_point().to_string();
    assert!(m.has(&mp));

    m.run(|s| guard.release(s)).unwrap();
    assert!(!m.has(&mp));
    assert!(m.run(|s| close_luks_device(s, &enc.mapping_name)).is_err());
}

#[test]
fn test_root_mount_guard_encrypted_not_luks() {
    let (mut m, enc) = with_luks();
    let result = m.run(|s| MountGuard::new_encrypted(s, "/dev/null", &enc));
    assert!(result.is_err());
}

#[test]
fn an_unlocked_device_that_cannot_be_mounted_is_locked_again() {
    let (mut m, enc) = with_luks();
    m.devices.clear();
    let result = m.run(|s| MountGuard::new_encrypted(s, "/dev/loop0", &enc));
    assert!(message(result).contains("Mount error"));
    assert!(m.is_clean());
}

#[test]
fn test_compute_steps_no_live_boot() {
    let config = make_config(2, false);
    assert_eq!(compute_backup_steps(&config), 4);
}

#[test]
fn test_compute_steps_with_live_boot() {
    let config = make_config(3, true);
    assert_eq!(compute_backup_steps(&config), 6);
}

#[test]
fn test_compute_steps_single_source() {
    let config = make_config(1, false);
    assert_eq!(compute_backup_steps(&config), 3);
}

#[test]
fn test_config_lock_acquire_release() {
    let mut m = Machine::new();
    let lock = m.run(|s| ConfigLock::acquire(s, "test_lock_acquire_release"));
    assert!(lock.is_ok());
    let lock = lock.unwrap();
    assert_eq!(lock.path, "/tmp/btrbak_locks/test_lock_acquire_release.lock");
    m.run(|s| s.perform(Request::Unlock(lock.path.clone()))).unwrap();
    let lock2 = m.run(|s| ConfigLock::acquire(s, "test_lock_acquire_release"));
    assert!(lock2.is_ok());
}

#[test]
fn test_config_lock_error_message() {
    let err = BackupError::Lock(
        "Another btrbak instance is already running with config name 'test'".to_string(),
    );
    let msg = err.message();
    assert!(msg.contains("already running"));
}

#[test]
fn a_second_lock_is_refused() {
    let mut m = Machine::new();
    m.run(|s| ConfigLock::acquire(s, "test")).unwrap();
    let second = m.run(|s| ConfigLock::acquire(s, "test"));
    assert_eq!(
        message(second),
        "Lock error: Another btrbak instance is already running with config name 'test'"
    );
    assert!(m.run(|s| ConfigLock::acquire(s, "other")).is_ok());
}

#[test]
fn a_lock_that_was_given_back_is_granted_again() {
    let mut m = Machine::new();
    let lock = m.run(|s| ConfigLock::acquire(s, "test")).unwrap();
    assert!(m.run(|s| ConfigLock::acquire(s, "test")).is_err());
    assert_eq!(
        m.run(|s| ConfigLock::acquire(s, "other")).unwrap().path,
        "/tmp/btrbak_locks/other.lock"
    );
    m.run(|s| s.perform(Request::Unlock(lock.path.clone()))).unwrap();
    assert_eq!(m.run(|s| ConfigLock::acquire(s, "test")).unwrap().path, lock.path);
}

#[test]
fn lock_files_that_cannot_be_made() {
    let mut m = Machine::new();
    m.faults.push(Box::new(|r| match r {
        Request::OpenLock(_) => Some(fault(IoKind::PermissionDenied, "Permission denied")),
        _ => None,
    }));
    let opened = m.run(|s| ConfigLock::acquire(s, "test"));
    assert_eq!(message(opened), "Lock error: Failed to create lock file: Permission denied");
    m.faults.push(Box::new(|r| match r {
        Request::CreateDirAll(_) => Some(fault(IoKind::Other, "No space left")),
        _ => None,
    }));
    m.faults.swap(0, 1);
    let made = m.run(|s| ConfigLock::acquire(s, "test"));
    assert_eq!(message(made), "Lock error: Failed to create lock parent directory: No space left");
}

#[test]
fn test_parse_snapper_snapshot_ids_filters_expected_single_only() {
    let output = r#"
# | number | description | type
41 btrbak_test single
42 btrbak_test pre
43 other single
abc btrbak_test single
44 btrbak_test single
"#;

    let ids = SourceSnapshot::parse_btrbak_snapper_snapshot_ids(output, "btrbak_test");
    assert_eq!(ids, vec![41, 44]);
}

#[test]
fn test_parse_snapper_snapshot_ids_ignores_malformed_lines() {
    let output = r#"
99
100 only-two-columns
   # comment
"#;
    let ids = SourceSnapshot::parse_btrbak_snapper_snapshot_ids(output, "btrbak_test");
    assert!(ids.is_empty());
}

#[test]
fn every_line_of_the_snapper_list_counts_on_its_own() {
    let parse = |text: &str| SourceSnapshot::parse_btrbak_snapper_snapshot_ids(text, "btrbak_x");
    let pieces = [
        "",
        "7 btrbak_x single",
        "7 btrbak_x single\r",
        "7 btrbak_x single\n",
        "# 7 btrbak_x single\r",
        "8 btrbak_x pre\n9 btrbak_x single\n\nzz btrbak_x single",
        "\r",
        "3 btrbak_x single\r\n2 btrbak_y single\r\n1 btrbak_x single",
    ];
    for a in pieces {
        for b in pieces {
            let mut both = parse(a);
            both.extend(parse(b));
            assert_eq!(parse(&format!("{}\n{}", a, b)), both);
        }
    }
    assert_eq!(parse("7 btrbak_x single\r\n9 btrbak_x single"), vec![7, 9]);
}

fn snapper_source() -> SourceConfig {
    SourceConfig {
        path: "/snapper-source".to_string(),
        snapshot_dir: ".snapshots".to_string(),
        use_snapper: true,
        snapshot_name: "btrbak".to_string(),
        snapper_config: Some("root".to_string()),
    }
}

fn when_snapper(word: &'static str, reply: fn() -> Output) -> Machine {
    let mut m = Machine::new();
    m.inject(move |c| {
        if c.program == "snapper" && c.args.iter().any(|a| a == word) {
            return Some(reply());
        }
        None
    });
    m
}

#[test]
fn test_create_snapper_snapshot_injected_command_failure() {
    let source = snapper_source();
    let workflow = SourceSnapshot::new(&source, "test");
    let mut m =
        when_snapper("create", || output(false, "", "injected snapper create failure\n"));
    let result = m.run(|s| workflow.create_snapper_snapshot(s));
    assert!(message(result).contains("Failed to create snapper snapshot"));
}

#[test]
fn test_create_snapper_snapshot_injected_invalid_id_output() {
    let source = snapper_source();
    let workflow = SourceSnapshot::new(&source, "test");
    let mut m = when_snapper("create", || output(true, "not-a-number\n", ""));
    let result = m.run(|s| workflow.create_snapper_snapshot(s));
    let text = message(result);
    assert!(text.contains("Failed to parse snapshot ID"));
    assert!(text.ends_with("'not-a-number\n': invalid digit found in string"));
}

#[test]
fn test_list_snapper_snapshot_ids_injected_command_failure() {
    let source = snapper_source();
    let workflow = SourceSnapshot::new(&source, "test");
    let mut m = when_snapper("list", || output(false, "", "injected snapper list failure\n"));
    let result = m.run(|s| workflow.list_btrbak_snapper_snapshot_ids(s));
    assert!(message(result).contains("Failed to list snapper snapshots"));
}

#[test]
fn test_cleanup_old_snapper_snapshots_list_failure_is_non_fatal() {
    let source = snapper_source();
    let workflow = SourceSnapshot::new(&source, "test");
    let mut m = when_snapper("list", || output(false, "", "injected snapper list failure\n"));
    let result = m.run(|s| workflow.cleanup_old_snapper_snapshots(s));
    assert!(result.is_ok());
}

#[test]
fn snapper_needs_its_configuration() {
    let mut source = snapper_source();
    source.snapper_config = None;
    let workflow = SourceSnapshot::new(&source, "test");
    let mut m = Machine::new();
    let wanted = "Configuration error: snapper_config must be set when use_snapper is true for source: /snapper-source";
    assert_eq!(message(m.run(|s| workflow.create_snapper_snapshot(s))), wanted);
    assert_eq!(message(m.run(|s| workflow.cleanup_old_snapper_snapshots(s))), wanted);
    assert!(m.requests.is_empty());
}

#[test]
fn snapper_snapshots_are_listed_newest_first() {
    let source = snapper_source();
    let workflow = SourceSnapshot::new(&source, "test");
    let mut m = Machine::new();
    for (n, d) in [(3, "btrbak_test"), (12, "btrbak_test"), (5, "other"), (7, "btrbak_test")] {
        m.snapper.push((n, d.to_string()));
    }
    assert_eq!(m.run(|s| workflow.list_btrbak_snapper_snapshot_ids(s)).unwrap(), vec![12, 7, 3]);
    m.run(|s| workflow.cleanup_old_snapper_snapshots(s)).unwrap();
    assert_eq!(m.snapper, vec![(12, "btrbak_test".to_string()), (5, "other".to_string())]);
}

#[test]
fn snapper_backups_become_incremental() {
    let mut m = Machine::new();
    m.create_subvolume("/snapper-source");
    m.write("/snapper-source/a.txt", "a").unwrap();
    m.snapper_dir = "/snapper-source/.snapshots".to_string();
    let source = snapper_source();
    let target = make_target_config("/recv");
    m.run(|s| backup_single_source(s, &source, &target, "/recv", "test")).unwrap();
    assert!(m.said.contains(&(Tone::Substep, "Sending snapshot to target (full)".to_string())));
    m.write("/snapper-source/b.txt", "b").unwrap();
    m.run(|s| backup_single_source(s, &source, &target, "/recv", "test")).unwrap();
    assert!(m
        .said
        .contains(&(Tone::Substep, "Sending snapshot to target (incremental)".to_string())));
    assert_eq!(m.read("/recv/snapper-source_vol/b.txt"), Some("b"));
    assert_eq!(m.snapper, vec![(2, "btrbak_test".to_string())]);
}

#[test]
fn test_mount_target_mounted_path_exists() {
    let mut m = Machine::new();
    let mut config = make_config(1, false);
    config.target.location = TargetLocation::MountedPath("/td".to_string());
    let guard = m.run(|s| mount_target(s, &config)).unwrap();
    assert_eq!(guard.mount_point(), "/td");
}

#[test]
fn test_mount_target_mounted_path_missing() {
    let mut m = Machine::new();
    let mut config = make_config(1, false);
    config.target.location = TargetLocation::MountedPath("/td/does-not-exist".to_string());
    let result = m.run(|s| mount_target(s, &config));
    let text = message(result);
    assert!(text.contains("does not exist"));
    assert_eq!(text, "Mount error: Target mounted path does not exist: \"/td/does-not-exist\"");
}

#[test]
fn test_mount_esp_mounted_path_exists() {
    let mut m = Machine::new();
    let guard = m.run(|s| mount_esp(s, &live_boot_at("/td"))).unwrap();
    assert_eq!(guard.mount_point(), "/td");
}

#[test]
fn test_mount_esp_mounted_path_missing() {
    let mut m = Machine::new();
    let result = m.run(|s| mount_esp(s, &live_boot_at("/td/esp-missing")));
    assert!(message(result).contains("does not exist"));
}

#[test]
fn test_backup_create_manual_snapshot_first() {
    let mut m = Machine::new();
    m.create_subvolume("/td/src");
    m.write("/td/src/a.txt", "aaa").unwrap();
    m.mkdirs("/td/snaps");
    let source = make_source_config("/td/src", "snaps");
    let (snap_path, parent) = m
        .run(|s| {
            SourceSnapshot::create_manual_local_snapshot(s, &source, "/td/src", "/td/snaps", "test")
        })
        .unwrap();
    assert!(m.is_subvolume(&snap_path));
    assert!(parent.is_none());
    assert_eq!(m.read(&format!("{}/a.txt", snap_path)).unwrap(), "aaa");
}

#[test]
fn test_backup_create_manual_snapshot_incremental() {
    let mut m = Machine::new();
    m.create_subvolume("/td/src");
    m.write("/td/src/a.txt", "v1").unwrap();
    m.mkdirs("/td/snaps");
    let source = make_source_config("/td/src", "snaps");
    let (snap1, _) = m
        .run(|s| {
            SourceSnapshot::create_manual_local_snapshot(s, &source, "/td/src", "/td/snaps", "test")
        })
        .unwrap();
    assert!(m.is_subvolume(&snap1));
    m.write("/td/src/a.txt", "v2").unwrap();
    let (snap2, parent) = m
        .run(|s| {
            SourceSnapshot::create_manual_local_snapshot(s, &source, "/td/src", "/td/snaps", "test")
        })
        .unwrap();
    assert!(m.is_subvolume(&snap2));
    assert!(parent.is_some());
    assert!(m.is_subvolume(parent.as_ref().unwrap()));
}

#[test]
fn test_backup_create_manual_snapshot_cleans_old_prev() {
    let mut m = Machine::new();
    m.create_subvolume("/td/src");
    m.mkdirs("/td/snaps");
    let source = make_source_config("/td/src", "snaps");
    let mut take = |m: &mut Machine| {
        m.run(|s| {
            SourceSnapshot::create_manual_local_snapshot(s, &source, "/td/src", "/td/snaps", "test")
        })
        .unwrap()
    };
    let (_s1, _) = take(&mut m);
    let (_s2, prev2) = take(&mut m);
    let prev2_path = prev2.unwrap();
    let prev2_id = m.run(|s| btrfs::get_subvolume_id(s, &prev2_path)).unwrap();
    let (_s3, prev3) = take(&mut m);
    let prev3_path = prev3.as_ref().unwrap();
    assert!(m.is_subvolume(prev3_path));
    let prev3_id = m.run(|s| btrfs::get_subvolume_id(s, prev3_path)).unwrap();
    assert_ne!(prev2_id, prev3_id, "old _prev should have been replaced");
    let mut subvol_count = 0;
    for p in m.children("/td/snaps") {
        if m.is_subvolume(&p) {
            subvol_count += 1;
        }
    }
    assert_eq!(subvol_count, 2);
}

#[test]
fn test_backup_create_local_snapshot() {
    let mut m = Machine::new();
    m.create_subvolume("/td/src");
    m.write("/td/src/x.txt", "xx").unwrap();
    let source = make_source_config("/td/src", ".snapshots");
    let (snap_path, parent) =
        m.run(|s| SourceSnapshot::new(&source, "test").create_local_snapshot(s)).unwrap();
    assert!(m.is_subvolume(&snap_path));
    assert!(parent.is_none());
    assert!(m.has("/td/src/.snapshots"));
}

#[test]
fn test_backup_create_local_snapshot_not_subvolume() {
    let mut m = Machine::new();
    m.mkdirs("/td/plain");
    let source = make_source_config("/td/plain", ".snapshots");
    let err = m.run(|s| SourceSnapshot::new(&source, "test").create_local_snapshot(s));
    assert!(err.is_err());
}

#[test]
fn test_backup_cleanup_old_snapshot_manual() {
    let mut m = Machine::new();
    m.create_subvolume("/td/src");
    m.mkdirs("/td/src/.snapshots");
    let source = make_source_config("/td/src", ".snapshots");
    let prev = "/td/src/.snapshots/btrbak_test_prev";
    m.create_subvolume(prev);
    m.run(|s| {
        SourceSnapshot::new(&source, "test").cleanup_old_snapshot(s, Some(prev.to_string()))
    })
    .unwrap();
    assert!(!m.has(prev));
}

#[test]
fn test_backup_cleanup_old_snapshot_none() {
    let mut m = Machine::new();
    m.create_subvolume("/td/src");
    let source = make_source_config("/td/src", ".snapshots");
    m.requests.clear();
    m.run(|s| SourceSnapshot::new(&source, "test").cleanup_old_snapshot(s, None)).unwrap();
    assert!(m.requests.is_empty());
}

#[test]
fn test_backup_cleanup_old_snapshot_non_subvolume_parent_is_noop() {
    let mut m = Machine::new();
    m.create_subvolume("/td/src");
    let source = make_source_config("/td/src", ".snapshots");
    let plain_parent = "/td/src/.snapshots/btrbak_test_prev";
    m.mkdirs(plain_parent);
    m.write("/td/src/.snapshots/btrbak_test_prev/keep.txt", "keep").unwrap();
    m.run(|s| {
        SourceSnapshot::new(&source, "test")
            .cleanup_old_snapshot(s, Some(plain_parent.to_string()))
    })
    .unwrap();
    assert!(m.has(plain_parent));
    assert_eq!(m.read("/td/src/.snapshots/btrbak_test_prev/keep.txt").unwrap(), "keep");
}

fn sent_snapshot(enable_live_boot: bool) -> (Machine, TransferStats) {
    let mut m = Machine::new();
    m.create_subvolume("/td/src");
    m.write("/td/src/f.txt", "content").unwrap();
    m.mkdirs("/td/src/.snapshots");
    let snap = "/td/src/.snapshots/btrbak_test";
    m.create_snapshot("/td/src", snap);
    m.mkdirs("/recv/target");
    let source = make_source_config("/td/src", ".snapshots");
    let mut target_config = make_target_config("/recv/target");
    target_config.enable_live_boot = enable_live_boot;
    let stats = m
        .run(|s| send_snapshot(s, &source, &target_config, snap, None, "/recv/target"))
        .unwrap();
    (m, stats)
}

#[test]
fn test_backup_send_snapshot() {
    let (mut m, stats) = sent_snapshot(false);
    assert!(stats.bytes > 0);
    let vol_name = btrfs::get_subvolume_name_with_suffix("/td/src");
    assert!(m.is_subvolume(&format!("/recv/target/{}", vol_name)));
}

#[test]
fn test_backup_send_snapshot_live_boot_layout() {
    let (mut m, stats) = sent_snapshot(true);
    assert!(stats.bytes > 0);
    let vol_name = btrfs::get_subvolume_name_with_suffix("/td/src");
    assert!(m.is_subvolume(&format!("/recv/target/@snapshots/{}", vol_name)));
    assert!(!m.has(&format!("/recv/target/{}", vol_name)));
}

#[test]
fn snapshots_go_where_the_target_says() {
    let mut target = make_target_config("/recv");
    assert_eq!(find_snapshots_dir(&target, "/recv"), "/recv");
    target.enable_live_boot = true;
    assert_eq!(find_snapshots_dir(&target, "/recv"), "/recv/@snapshots");
    target.snapshot_subvolume = Some("@vault".to_string());
    assert_eq!(find_snapshots_dir(&target, "/recv"), "/recv/@vault");
    target.enable_live_boot = false;
    assert_eq!(find_snapshots_dir(&target, "/recv"), "/recv/@vault");
}

fn integration(name: &str) -> (Machine, Config) {
    let mut m = Machine::new();
    m.create_subvolume("/td/src");
    m.mkdirs("/recv/target");
    let config = Config {
        name: name.to_string(),
        sources: vec![make_source_config("/td/src", ".snapshots")],
        target: make_target_config("/recv/target"),
        live_boot: None,
        hooks: HookConfig::default(),
    };
    (m, config)
}

#[test]
fn test_integration_backup_dry_run_has_no_side_effects() {
    let (mut m, config) = integration("it_dry_run");
    m.write("/td/src/seed.txt", "seed").unwrap();
    m.run(|s| run_backup(s, &config, true)).unwrap();
    assert!(!m.has("/td/src/.snapshots"));
    assert!(m.children("/recv/target").is_empty());
}

#[test]
fn test_integration_backup_full_to_mounted_target() {
    let (mut m, config) = integration("it_full_backup");
    m.write("/td/src/file.txt", "hello").unwrap();
    m.run(|s| run_backup(s, &config, false)).unwrap();
    let target_vol =
        format!("/recv/target/{}", btrfs::get_subvolume_name_with_suffix("/td/src"));
    assert!(m.is_subvolume(&target_vol));
    assert_eq!(m.read(&format!("{}/file.txt", target_vol)).unwrap(), "hello");
    assert!(m.is_clean());
}

#[test]
fn test_integration_backup_incremental_to_mounted_target() {
    let (mut m, config) = integration("it_incremental_backup");
    m.write("/td/src/v1.txt", "v1").unwrap();
    m.run(|s| run_backup(s, &config, false)).unwrap();
    m.write("/td/src/v2.txt", "v2").unwrap();
    m.run(|s| run_backup(s, &config, false)).unwrap();
    let target_vol =
        format!("/recv/target/{}", btrfs::get_subvolume_name_with_suffix("/td/src"));
    assert!(m.is_subvolume(&target_vol));
    assert_eq!(m.read(&format!("{}/v2.txt", target_vol)).unwrap(), "v2");
    assert!(m
        .said
        .contains(&(Tone::Substep, "Sending snapshot to target (incremental)".to_string())));
    assert!(!m.has("/td/src/.snapshots/btrbak_it_incremental_backup_prev"));
    assert!(m.is_subvolume("/td/src/.snapshots/btrbak_it_incremental_backup"));
}

#[test]
fn a_dry_run_and_a_validation_change_nothing() {
    let (mut m, config) = integration("dry");
    m.mkdirs("/tmp/btrbak_locks");
    m.nodes.insert("/tmp/btrbak_locks/dry.lock".to_string(), Node::File(String::new()));
    let before = m.nodes.clone();
    m.run(|s| run_backup(s, &config, true)).unwrap();
    assert_eq!(m.nodes, before);
    m.run(|s| config.validate(s)).unwrap();
    assert_eq!(m.nodes, before);
    assert!(m.is_clean());
    assert!(m
        .said
        .contains(&(Tone::Info, "Target: MountedPath(\"/recv/target\")".to_string())));
}

#[test]
fn a_run_without_its_lock_changes_nothing() {
    let (mut m, config) = integration("busy");
    m.write("/td/src/file.txt", "hello").unwrap();
    m.run(|s| ConfigLock::acquire(s, "busy")).unwrap();
    let before = m.nodes.clone();
    let result = m.run(|s| run_backup(s, &config, false));
    assert_eq!(
        message(result),
        "Lock error: Another btrbak instance is already running with config name 'busy'"
    );
    assert_eq!(m.nodes, before);
}

#[test]
fn every_source_has_its_turn() {
    let (mut m, mut config) = integration("three");
    m.create_subvolume("/td/home");
    m.create_subvolume("/td/var");
    config.sources.push(make_source_config("/td/home", ".snapshots"));
    config.sources.push(make_source_config("/td/var", ".snapshots"));
    m.faults.push(Box::new(|r| match r {
        Request::Transfer { source, .. } if source.starts_with("/td/home") => {
            Some(fault(IoKind::Other, "pipe broke"))
        }
        _ => None,
    }));
    let result = m.run(|s| run_backup(s, &config, false));
    assert_eq!(
        message(result),
        "Btrfs operation failed: Backup completed with errors: /td/home: IO error: pipe broke"
    );
    assert!(m.is_subvolume("/recv/target/td_src_vol"));
    assert!(!m.has("/recv/target/td_home_vol"));
    assert!(m.is_subvolume("/recv/target/td_var_vol"));
    assert!(m.warned("Backup completed with errors (2 succeeded, 1 failed)"));
    assert!(m.said.contains(&(Tone::Step, "[5/5] Summary".to_string())));
    assert!(m.said.contains(&(Tone::Error, "/td/home: failed".to_string())));
    assert!(m.is_clean());
}

#[test]
fn the_summary_adds_up() {
    let mut m = Machine::new();
    let outcomes = vec![
        SourceOutcome {
            path: "/a".to_string(),
            result: Ok(TransferStats { bytes: 1024, bytes_per_sec: 512 }),
        },
        SourceOutcome {
            path: "/b".to_string(),
            result: Ok(TransferStats { bytes: 512, bytes_per_sec: 2048 }),
        },
    ];
    m.run(|s| print_summary(s, &outcomes)).unwrap();
    assert_eq!(
        m.said,
        vec![
            (Tone::Success, "/a: 1.0 KiB (512 B/s)".to_string()),
            (Tone::Success, "/b: 512 B (2.0 KiB/s)".to_string()),
            (Tone::Info, "Total: 1.5 KiB transferred in 3.2s".to_string()),
            (Tone::Success, "Backup completed successfully (2 sources)".to_string()),
        ]
    );
}

#[test]
fn an_encrypted_target_is_given_back() {
    let (mut m, enc) = with_luks();
    m.create_subvolume("/td/src");
    m.write("/td/src/f.txt", "f").unwrap();
    m.nodes.insert("/etc/key".to_string(), Node::File(String::new()));
    m.tags.insert("UUID=1234".to_string(), "/dev/loop0".to_string());
    let mut config = integration("enc").1;
    config.target.location = TargetLocation::Device("UUID=1234".to_string());
    config.target.encryption = Some(enc);
    m.run(|s| run_backup(s, &config, false)).unwrap();
    assert!(m.is_clean());
    assert_eq!(
        m.devices["/dev/loop0"].get("/td_src_vol/f.txt"),
        Some(&Node::File("f".to_string()))
    );
    m.faults.push(Box::new(|r| match r {
        Request::Transfer { .. } => Some(fault(IoKind::Other, "pipe broke")),
        _ => None,
    }));
    assert!(m.run(|s| run_backup(s, &config, false)).is_err());
    assert!(m.is_clean());
    assert!(m.devices["/dev/loop0"].contains_key("/td_src_vol/f.txt"));
}

fn encrypted_target() -> TargetConfig {
    TargetConfig {
        location: TargetLocation::Device("UUID=deadbeef".to_string()),
        enable_live_boot: true,
        snapshot_subvolume: None,
        live_boot_subvolume: None,
        encryption: Some(EncryptionConfig {
            keyfile: None,
            passphrase_env: Some("BTRBAK_TEST".to_string()),
            mapping_name: "nest".to_string(),
        }),
    }
}

fn mounted_target(path: &str) -> TargetConfig {
    let mut target = make_target_config(path);
    target.enable_live_boot = true;
    target
}

#[test]
fn test_resolve_luks_boot_config_injected_success() {
    let target = encrypted_target();
    let mut m = Machine::new();
    m.inject(|c| {
        if c.program == "findfs" && c.args == vec!["UUID=deadbeef".to_string()] {
            return Some(output(true, "/dev/loop0\n", ""));
        }
        if c.program == "cryptsetup"
            && c.args == vec!["luksUUID".to_string(), "/dev/loop0".to_string()]
        {
            return Some(output(true, "luks-uuid\n", ""));
        }
        None
    });
    let luks = m.run(|s| resolve_luks_boot_config(s, &target)).unwrap().unwrap();
    assert_eq!(luks.luks_uuid, "luks-uuid");
    assert_eq!(luks.mapping_name, "nest");
}

#[test]
fn test_resolve_luks_boot_config_injected_findfs_failure() {
    let target = encrypted_target();
    let mut m = Machine::new();
    m.inject(|c| {
        if c.program == "findfs" {
            return Some(output(false, "", "findfs failure\n"));
        }
        None
    });
    let result = m.run(|s| resolve_luks_boot_config(s, &target));
    assert!(message(result).contains("Failed to resolve target device identifier"));
}

#[test]
fn unencrypted_targets_have_no_luks_options() {
    let mut m = Machine::new();
    let target = mounted_target("/mnt");
    assert!(m.run(|s| resolve_luks_boot_config(s, &target)).unwrap().is_none());
    assert!(m.requests.is_empty());
    m.luks.insert("/dev/loop0".to_string(), "key".to_string());
    assert_eq!(m.run(|s| find_luks_uuid(s, "/dev/loop0")).unwrap(), "luks-uuid-of-loop0");
    assert!(m.run(|s| find_luks_uuid(s, "/dev/null")).is_err());
}

#[test]
fn test_prepare_live_boot_creates_subvolumes_without_esp() {
    let mut m = Machine::new();
    let config = live_boot_at("/td/esp-unused");
    let target = mounted_target("/td");
    m.run(|s| {
        prepare_live_boot(s, "/td", &config, &target, "/td/esp-missing", "@", "@snapshots")
    })
    .unwrap();
    assert!(m.is_subvolume("/td/@"));
    assert!(m.is_subvolume("/td/@snapshots"));
}

#[test]
fn test_prepare_live_boot_is_idempotent_when_subvolumes_exist() {
    let mut m = Machine::new();
    m.create_subvolume("/td/@");
    m.create_subvolume("/td/@snapshots");
    let root_id_before = m.run(|s| btrfs::get_subvolume_id(s, "/td/@")).unwrap();
    let snaps_id_before = m.run(|s| btrfs::get_subvolume_id(s, "/td/@snapshots")).unwrap();
    let config = live_boot_at("/td/esp-unused");
    let target = mounted_target("/td");
    m.run(|s| {
        prepare_live_boot(s, "/td", &config, &target, "/td/esp-missing", "@", "@snapshots")
    })
    .unwrap();
    let root_id_after = m.run(|s| btrfs::get_subvolume_id(s, "/td/@")).unwrap();
    let snaps_id_after = m.run(|s| btrfs::get_subvolume_id(s, "/td/@snapshots")).unwrap();
    assert_eq!(root_id_before, root_id_after);
    assert_eq!(snaps_id_before, snaps_id_after);
}

#[test]
fn test_find_btrfs_device_injected_findmnt_failure() {
    let mut m = Machine::new();
    m.inject(|c| {
        if c.program == "findmnt" {
            return Some(output(false, "", "injected findmnt failure\n"));
        }
        None
    });
    let result = m.run(|s| find_btrfs_device(s, "/td"));
    assert!(message(result).contains("Failed to find UUID"));
}

#[test]
fn test_find_btrfs_device_injected_empty_uuid() {
    let mut m = Machine::new();
    m.inject(|c| {
        if c.program == "findmnt" {
            return Some(output(true, "\n", ""));
        }
        None
    });
    let result = m.run(|s| find_btrfs_device(s, "/td"));
    assert!(message(result).contains("Empty UUID"));
}

#[test]
fn output_that_is_no_text() {
    let mut m = Machine::new();
    m.inject(|c| match c.program.as_str() {
        "findmnt" if c.args.iter().any(|a| a == "UUID") => {
            Some(Output { success: true, stdout: vec![b'x', 0xff], stderr: vec![] })
        }
        "mount" => Some(Output { success: false, stdout: vec![], stderr: vec![b'n', b'o', 0xff] }),
        _ => None,
    });
    let strict = m.run(|s| get_device_uuid(s, "/td"));
    assert!(message(strict).ends_with("invalid utf-8 sequence of 1 bytes from index 1"));
    assert_eq!(m.run(|s| find_btrfs_device(s, "/td")).unwrap(), "x\u{fffd}");
    let mounted = m.run(|s| MountGuard::new(s, "/dev/sdb1"));
    assert!(message(mounted).ends_with("no\u{fffd}"));
}

#[test]
fn test_prepare_live_boot_injected_bootctl_failure() {
    let mut m = Machine::new();
    m.mkdirs("/td/@");
    m.mkdirs("/td/@snapshots");
    m.mkdirs("/td/esp");
    let config = live_boot_at("/td/esp");
    m.inject(|c| {
        if c.program == "bootctl" {
            return Some(output(false, "", "injected bootctl failure\n"));
        }
        None
    });
    let target = mounted_target("/td");
    let result = m
        .run(|s| prepare_live_boot(s, "/td", &config, &target, "/td/esp", "@", "@snapshots"));
    assert!(message(result).contains("Failed to install systemd-boot"));
}

#[test]
fn preparing_again_changes_nothing() {
    let mut m = Machine::new();
    m.create_subvolume("/td/src");
    m.mkdirs("/recv/esp");
    m.mounts.insert("/recv".to_string(), "/dev/sdc1".to_string());
    let mut config = integration("live").1;
    config.target = mounted_target("/recv");
    config.live_boot = Some(live_boot_at("/recv/esp"));
    m.run(|s| prepare_live_environment(s, &config)).unwrap();
    assert!(m.is_subvolume("/recv/@"));
    assert!(m.is_subvolume("/recv/@snapshots"));
    assert_eq!(
        m.read("/recv/esp/loader/entries/Backup_Environment.conf").unwrap(),
        "title   Backup Environment\nlinux   /vmlinuz-linux\ninitrd  /initramfs-linux.img\n\
         options root=UUID=uuid-of-sdc1 rw rootflags=subvol=@/root_vol\n"
    );
    let before = m.nodes.clone();
    m.run(|s| prepare_live_environment(s, &config)).unwrap();
    assert_eq!(m.nodes, before);
    config.target.enable_live_boot = false;
    let off = m.run(|s| prepare_live_environment(s, &config));
    assert_eq!(message(off), "Configuration error: Live boot not enabled in configuration");
}

#[test]
fn test_remove_snapper_config_removes_files() {
    let mut m = Machine::new();
    m.mkdirs("/td/etc/snapper/configs");
    m.write("/td/etc/snapper/configs/root", "SNAPPER_CONFIG").unwrap();
    m.write("/td/etc/snapper/configs/home", "SNAPPER_CONFIG").unwrap();
    m.run(|s| remove_snapper_config(s, "/td")).unwrap();
    assert!(!m.has("/td/etc/snapper/configs/root"));
    assert!(!m.has("/td/etc/snapper/configs/home"));
}

#[test]
fn test_remove_snapper_config_removes_services() {
    let mut m = Machine::new();
    let service = "/td/etc/systemd/system/multi-user.target.wants/snapper-cleanup.service";
    let timer = "/td/etc/systemd/system/timers.target.wants/snapper-cleanup.timer";
    m.mkdirs("/td/etc/systemd/system/multi-user.target.wants");
    m.write(service, "").unwrap();
    m.mkdirs("/td/etc/systemd/system/timers.target.wants");
    m.write(timer, "").unwrap();
    m.run(|s| remove_snapper_config(s, "/td")).unwrap();
    assert!(!m.has(service));
    assert!(!m.has(timer));
}

#[test]
fn test_remove_snapper_config_no_dir() {
    let mut m = Machine::new();
    let result = m.run(|s| remove_snapper_config(s, "/td"));
    assert!(result.is_ok());
}

#[test]
fn snapper_files_are_removed_whose_names_are_no_text() {
    let mut m = Machine::new();
    m.mkdirs("/td/etc/snapper/configs");
    let odd = format!("/td/etc/snapper/configs/{}", name_to_text(&vec![0x80, b'x']));
    m.write(&odd, "SNAPPER_CONFIG").unwrap();
    m.run(|s| remove_snapper_config(s, "/td")).unwrap();
    assert!(!m.has(&odd));
    assert!(!m.has("/td/etc/snapper/configs"));
}

#[test]
fn removing_snapper_twice_is_no_different() {
    let mut m = Machine::new();
    m.mkdirs("/td/etc/snapper/configs/kept");
    m.write("/td/etc/snapper/configs/root", "SNAPPER_CONFIG").unwrap();
    m.write("/td/etc/snapper/configs/kept/file", "kept").unwrap();
    m.mkdirs("/td/etc/systemd/system/timers.target.wants");
    m.write("/td/etc/systemd/system/timers.target.wants/snapper-cleanup.timer", "").unwrap();
    m.write("/td/etc/systemd/system/timers.target.wants/other.timer", "").unwrap();
    m.run(|s| remove_snapper_config(s, "/td")).unwrap();
    assert!(!m.has("/td/etc/snapper/configs/root"));
    assert!(!m.has("/td/etc/systemd/system/timers.target.wants/snapper-cleanup.timer"));
    assert_eq!(m.read("/td/etc/snapper/configs/kept/file").unwrap(), "kept");
    assert!(m.has("/td/etc/systemd/system/timers.target.wants/other.timer"));
    let once = m.nodes.clone();
    m.run(|s| remove_snapper_config(s, "/td")).unwrap();
    assert_eq!(m.nodes, once);
}

fn config_with_sources(paths: &[&str]) -> Config {
    Config {
        name: "test".to_string(),
        sources: paths.iter().map(|p| make_source_config(p, ".snapshots")).collect(),
        target: make_target_config("/mnt"),
        live_boot: None,
        hooks: HookConfig::default(),
    }
}

#[test]
fn test_find_root_vol_path_with_root_source() {
    let config = config_with_sources(&["/home", "/"]);
    let result = find_root_vol_path("/mnt/@", &config);
    assert_eq!(result, "/mnt/@/root_vol");
}

#[test]
fn test_find_root_vol_path_fallback() {
    let config = config_with_sources(&["/home"]);
    let result = find_root_vol_path("/mnt/@", &config);
    assert_eq!(result, "/mnt/@/root_vol");
}

fn boot_entry() -> BootEntryConfig {
    BootEntryConfig {
        title: "Test".to_string(),
        kernel: "/boot/vmlinuz-linux".to_string(),
        initramfs: "/boot/initramfs-linux.img".to_string(),
        microcode: None,
        options: vec![],
    }
}

#[test]
fn test_copy_kernel_to_esp_copies_files() {
    let mut m = Machine::new();
    m.mkdirs("/td/esp");
    m.mkdirs("/td/root_vol/boot");
    m.write("/td/root_vol/boot/vmlinuz-linux", "KERNEL_DATA").unwrap();
    m.write("/td/root_vol/boot/initramfs-linux.img", "INITRAMFS_DATA").unwrap();
    m.run(|s| copy_kernel_to_esp(s, "/td/root_vol", "/td/esp", &boot_entry())).unwrap();
    assert_eq!(m.read("/td/esp/vmlinuz-linux").unwrap(), "KERNEL_DATA");
    assert_eq!(m.read("/td/esp/initramfs-linux.img").unwrap(), "INITRAMFS_DATA");
}

#[test]
fn test_copy_kernel_to_esp_missing_kernel() {
    let mut m = Machine::new();
    m.mkdirs("/td/root_vol");
    m.mkdirs("/td/esp");
    let result = m.run(|s| copy_kernel_to_esp(s, "/td/root_vol", "/td/esp", &boot_entry()));
    assert!(result.is_ok());
    assert!(!m.has("/td/esp/vmlinuz-linux"));
    assert!(m.warned("Kernel not found at: /td/root_vol/boot/vmlinuz-linux"));
    assert!(m.warned("Initramfs not found at: /td/root_vol/boot/initramfs-linux.img"));
}

#[test]
fn fallback_and_microcode_are_copied_too() {
    let mut m = Machine::new();
    m.mkdirs("/td/esp");
    m.mkdirs("/td/root_vol/boot");
    m.write("/td/root_vol/boot/initramfs-linux-fallback.img", "FALLBACK").unwrap();
    m.write("/td/root_vol/boot/amd-ucode.img", "UCODE").unwrap();
    let mut entry = boot_entry();
    entry.microcode = Some("/boot/amd-ucode.img".to_string());
    m.run(|s| copy_kernel_to_esp(s, "/td/root_vol", "/td/esp", &entry)).unwrap();
    assert_eq!(m.read("/td/esp/initramfs-linux-fallback.img"), Some("FALLBACK"));
    assert_eq!(m.read("/td/esp/amd-ucode.img"), Some("UCODE"));
}

fn generated_fstab(paths: &[&str]) -> String {
    let mut m = Machine::new();
    for d in ["/td/root_vol", "/td/target", "/td/esp"] {
        m.mkdirs(d);
    }
    let mut config = config_with_sources(paths);
    config.target.enable_live_boot = true;
    m.run(|s| generate_basic_fstab(s, "/td/root_vol", "/td/target", "/td/esp", &config)).unwrap()
}

#[test]
fn test_generate_fstab_structure() {
    let fstab = generated_fstab(&["/", "/home"]);
    assert!(fstab.contains("# /etc/fstab"));
    assert!(fstab.contains("subvol=@/root_vol"));
    assert!(fstab.contains("subvol=@/home_vol"));
    assert!(fstab.contains("tmpfs  /tmp"));
}

#[test]
fn test_generate_fstab_single_source() {
    let fstab = generated_fstab(&["/"]);
    assert!(fstab.contains("subvol=@/root_vol"));
    assert!(fstab.contains("  /  btrfs"));
}

#[test]
fn fstab_is_exact() {
    let mut config = config_with_sources(&["/", "/var/log"]);
    config.target.live_boot_subvolume = Some("@live".to_string());
    config.live_boot = Some(live_boot_at("/esp"));
    let text = fstab(&config, "ROOT", Some("ESP"));
    let entries: Vec<&str> =
        text.lines().filter(|l| !l.is_empty() && !l.starts_with('#')).collect();
    assert_eq!(
        entries,
        vec![
            "UUID=ROOT  /  btrfs  rw,relatime,ssd,compress-force=zstd,space_cache=v2,subvol=@live/root_vol  0 0",
            "UUID=ROOT  /var/log  btrfs  rw,relatime,ssd,compress-force=zstd,space_cache=v2,subvol=@live/var_log_vol  0 0",
            "UUID=ESP  /efi  vfat  rw,relatime,fmask=0133,dmask=0022,codepage=437,iocharset=iso8859-1,shortname=mixed,utf8,errors=remount-ro  0 2",
            "tmpfs  /tmp  tmpfs  nodev,nosuid  0 0",
        ]
    );
    assert!(!fstab(&config, "ROOT", None).contains("vfat"));
}

#[test]
fn the_old_fstab_is_kept() {
    let mut m = Machine::new();
    m.mkdirs("/td/root_vol/etc");
    m.write("/td/root_vol/etc/fstab", "old").unwrap();
    let config = config_with_sources(&["/"]);
    m.run(|s| regenerate_fstab(s, "/td/root_vol", "/td", "/td/esp", &config)).unwrap();
    assert_eq!(m.read("/td/root_vol/etc/fstab.backup"), Some("old"));
    assert!(m.read("/td/root_vol/etc/fstab").unwrap().contains("subvol=@/root_vol"));
    assert!(m.said.contains(&(Tone::Detail, "Generated 2 fstab entries".to_string())));
}

#[test]
fn hooks_that_are_off_ask_for_nothing() {
    let mut m = Machine::new();
    let config = config_with_sources(&["/"]);
    let off =
        HookConfig { copy_kernel: false, regenerate_fstab: false, remove_snapper_config: false };
    m.run(|s| run_hooks(s, "/td/@", "/td", "/td/esp", &off, &boot_entry(), &config)).unwrap();
    assert!(m.requests.is_empty());
}

fn live_machine() -> (Machine, Config) {
    let mut m = Machine::new();
    m.create("/sys").unwrap();
    m.mkdirs("/sys/boot");
    m.mkdirs("/sys/etc/snapper/configs");
    m.write("/sys/boot/vmlinuz-linux", "K").unwrap();
    m.write("/sys/boot/initramfs-linux.img", "I").unwrap();
    m.write("/sys/etc/snapper/configs/root", "S").unwrap();
    m.mkdirs("/recv/esp");
    m.mounts.insert("/recv".to_string(), "/dev/sdc1".to_string());
    let mut config = config_with_sources(&["/sys"]);
    config.target = mounted_target("/recv");
    config.live_boot = Some(live_boot_at("/recv/esp"));
    (m, config)
}

#[test]
fn the_live_environment_follows_the_backup() {
    let (mut m, config) = live_machine();
    m.create_subvolume("/recv/@");
    m.create_subvolume("/recv/@/root_vol");
    m.mkdirs("/recv/@/root_vol/etc");
    m.run(|s| run_backup(s, &config, false)).unwrap();
    assert!(m.is_subvolume("/recv/@snapshots/sys_vol"));
    assert!(m.is_subvolume("/recv/@/sys_vol"));
    assert_eq!(m.read("/recv/@/sys_vol/boot/vmlinuz-linux"), Some("K"));
    assert!(m.read("/recv/@/root_vol/etc/fstab").unwrap().contains("UUID=uuid-of-sdc1  /sys"));
    assert!(m.said.contains(&(Tone::Step, "[4/4] Summary".to_string())));
    assert!(m.said.contains(&(Tone::Success, "Live boot environment updated".to_string())));
    m.write("/sys/new.txt", "N").unwrap();
    m.run(|s| run_backup(s, &config, false)).unwrap();
    assert_eq!(m.read("/recv/@/sys_vol/new.txt"), Some("N"));
    assert!(!m.has("/recv/@/sys_vol.old"));
    assert!(!m.has("/recv/@/sys_vol.new"));
}

#[test]
fn the_live_environment_waits_for_a_backup_without_errors() {
    let (mut m, config) = live_machine();
    m.create_subvolume("/recv/@");
    m.faults.push(Box::new(|r| match r {
        Request::Transfer { .. } => Some(fault(IoKind::Other, "pipe broke")),
        _ => None,
    }));
    assert!(m.run(|s| run_backup(s, &config, false)).is_err());
    assert!(m.children("/recv/@").is_empty());
    assert!(m.said.contains(&(Tone::Step, "[3/4] Summary".to_string())));
}

#[test]
fn a_failed_live_update_fails_the_backup() {
    let (mut m, config) = live_machine();
    let result = m.run(|s| run_backup(s, &config, false));
    let text = message(result);
    assert!(text.starts_with(
        "Btrfs operation failed: Backup completed with errors: live_boot: Btrfs operation failed: "
    ));
    assert!(m.is_subvolume("/recv/@snapshots/sys_vol"));
    assert!(m.is_clean());
}

#[test]
fn sources_without_a_snapshot_are_skipped_in_the_live_environment() {
    let (mut m, config) = live_machine();
    m.mkdirs("/recv/@/root_vol/etc");
    m.run(|s| LiveEnvironmentUpdater::new(&config, "/recv").update(s)).unwrap();
    assert!(m.warned("Snapshot subvolume not found at /recv/@snapshots/sys_vol"));
}

#[test]
fn commands_are_carried_out() {
    let (mut m, config) = integration("cli");
    let cli = Cli {
        verbose: false,
        quiet: false,
        command: Commands::Validate { config: "btrbak.toml".to_string() },
    };
    assert_eq!(cli.command.config_path(), "btrbak.toml");
    m.run(|s| cli.command.execute(s, &config)).unwrap();
    assert!(m.said.contains(&(Tone::Success, "Configuration is valid".to_string())));
    let backup = Commands::Backup { config: "x.toml".to_string(), dry_run: false };
    assert_eq!(backup.config_path(), "x.toml");
    m.run(|s| backup.execute(s, &config)).unwrap();
    assert!(m.is_subvolume("/recv/target/td_src_vol"));
    let prepare = Commands::PrepareLive { config: "x.toml".to_string() };
    assert!(m.run(|s| prepare.execute(s, &config)).is_err());
}

#[test]
fn configurations_that_cannot_be_used() {
    let (mut m, good) = integration("bad");
    m.mkdirs("/td/plain");
    let fails = |m: &mut Machine, c: &Config| message(m.run(|s| c.validate(s)));
    let with = |f: &dyn Fn(&mut Config)| {
        let mut c = integration("bad").1;
        f(&mut c);
        c
    };
    assert!(m.run(|s| good.validate(s)).is_ok());
    let c = with(&|c| c.sources[0].path = "/td/none".to_string());
    assert_eq!(
        fails(&mut m, &c),
        "Configuration error: Source path does not exist: \"/td/none\""
    );
    let c = with(&|c| c.sources[0].path = "/td/plain".to_string());
    assert_eq!(
        fails(&mut m, &c),
        "Configuration error: Source path is not a btrfs subvolume: \"/td/plain\""
    );
    let c = with(&|c| c.sources[0].use_snapper = true);
    assert_eq!(
        fails(&mut m, &c),
        "Configuration error: snapper_config must be set when use_snapper is true for source: \"/td/src\""
    );
    let c = with(&|c| c.target.location = TargetLocation::MountedPath("/no\"where".to_string()));
    assert_eq!(
        fails(&mut m, &c),
        "Configuration error: Target mounted path does not exist: \"/no\\\"where\""
    );
    let c = with(&|c| c.target.enable_live_boot = true);
    assert_eq!(
        fails(&mut m, &c),
        "Configuration error: Live boot enabled but live_boot configuration missing"
    );
    let c = with(&|c| c.live_boot = Some(live_boot_at("/no/esp")));
    assert_eq!(
        fails(&mut m, &c),
        "Configuration error: ESP mounted path does not exist: \"/no/esp\""
    );
    let c = with(&|c| {
        c.target.encryption = Some(EncryptionConfig {
            keyfile: None,
            passphrase_env: None,
            mapping_name: "x".to_string(),
        })
    });
    assert_eq!(
        fails(&mut m, &c),
        "Configuration error: Encryption configured but neither keyfile nor passphrase_env provided"
    );
    m.inject(|c| {
        if c.args.iter().any(|a| a == "filesystem") {
            return Some(output(false, "", ""));
        }
        None
    });
    assert_eq!(
        fails(&mut m, &good),
        "Configuration error: Target mounted path is not a btrfs filesystem: \"/recv/target\""
    );
    m.faults.push(Box::new(|r| match r {
        Request::Run(_) => Some(fault(IoKind::NotFound, "no btrfs")),
        _ => None,
    }));
    assert_eq!(
        fails(&mut m, &good),
        "Configuration error: Failed to check btrfs subvolume status: IO error: no btrfs. Ensure btrfs tools are installed."
    );
}

#[test]
fn a_session_stops_where_its_replies_end() {
    let none: Vec<Reply> = vec![];
    let mut s = Session::new(&none);
    assert!(matches!(btrfs::is_subvolume(&mut s, "/x"), Err(Stop::Pending)));
    assert!(matches!(s.pending(), Some(Request::Say { tone: Tone::Detail, .. })));
    assert!(s.asked().is_empty());
    let said = vec![Reply::Done];
    let mut s = Session::new(&said);
    assert!(matches!(btrfs::is_subvolume(&mut s, "/x"), Err(Stop::Pending)));
    match s.pending() {
        Some(Request::Run(c)) => assert_eq!(c.args, vec!["subvolume", "show", "/x"]),
        other => panic!("unexpected request {:?}", other),
    }
    let both = vec![Reply::Done, Reply::Ran(output(true, "", ""))];
    let mut s = Session::new(&both);
    assert!(matches!(btrfs::is_subvolume(&mut s, "/x"), Ok(true)));
    let wrong = vec![Reply::Done, Reply::Flag(true)];
    let mut s = Session::new(&wrong);
    match btrfs::is_subvolume(&mut s, "/x") {
        Err(Stop::Failed(e)) => assert_eq!(e.message(), "IO error: unexpected reply"),
        _ => panic!("expected an error"),
    }
}
