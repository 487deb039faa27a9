//! The errors of the library, their messages and the hints that go with them.

use crate::text::{cat2, contains, has};
use vstd::prelude::*;
use vstd::std_specs::convert::FromSpecImpl;

verus! {

/// The kinds of input/output failure that are told apart.
#[derive(Clone, Copy, PartialEq, Eq, Structural, Debug)]
pub enum IoKind {
    PermissionDenied,
    NotFound,
    AlreadyExists,
    Other,
}

/// A failed input/output operation.
#[derive(Debug)]
pub struct IoFailure {
    pub kind: IoKind,
    pub message: String,
}

/// What an [`IoFailure`] holds.
pub struct IoFault {
    pub kind: IoKind,
    pub message: Seq<char>,
}

impl DeepView for IoFailure {
    type V = IoFault;

    open spec fn deep_view(&self) -> IoFault {
        IoFault { kind: self.kind, message: self.message@ }
    }
}

impl IoFailure {
    /// A second value with the same kind and message.
    pub fn duplicate(&self) -> (r: IoFailure)
        ensures
            r.deep_view() == self.deep_view(),
    {
        IoFailure { kind: self.kind, message: self.message.clone() }
    }
}

/// A configuration that cannot be used.
#[derive(Debug)]
pub struct ConfigError {
    pub message: String,
}

/// What went wrong.
#[derive(Debug)]
pub enum BackupError {
    Config(String),
    Io(IoFailure),
    Btrfs(String),
    Mount(String),
    Bootloader(String),
    Hook(String),
    Lock(String),
}

/// What a [`BackupError`] holds.
pub enum Fault {
    Config(Seq<char>),
    Io(IoFault),
    Btrfs(Seq<char>),
    Mount(Seq<char>),
    Bootloader(Seq<char>),
    Hook(Seq<char>),
    Lock(Seq<char>),
}

impl DeepView for BackupError {
    type V = Fault;

    open spec fn deep_view(&self) -> Fault {
        match self {
            BackupError::Config(m) => Fault::Config(m@),
            BackupError::Io(e) => Fault::Io(e.deep_view()),
            BackupError::Btrfs(m) => Fault::Btrfs(m@),
            BackupError::Mount(m) => Fault::Mount(m@),
            BackupError::Bootloader(m) => Fault::Bootloader(m@),
            BackupError::Hook(m) => Fault::Hook(m@),
            BackupError::Lock(m) => Fault::Lock(m@),
        }
    }
}

impl From<IoFailure> for BackupError {
    fn from(e: IoFailure) -> (r: Self) {
        BackupError::Io(e)
    }
}

impl FromSpecImpl<IoFailure> for BackupError {
    open spec fn obeys_from_spec() -> bool {
        true
    }

    open spec fn from_spec(e: IoFailure) -> Self {
        BackupError::Io(e)
    }
}

impl From<ConfigError> for BackupError {
    fn from(e: ConfigError) -> (r: Self) {
        BackupError::Config(e.message)
    }
}

impl FromSpecImpl<ConfigError> for BackupError {
    open spec fn obeys_from_spec() -> bool {
        true
    }

    open spec fn from_spec(e: ConfigError) -> Self {
        BackupError::Config(e.message)
    }
}

/// The message shown for a fault.
pub open spec fn fault_text(f: Fault) -> Seq<char> {
    match f {
        Fault::Config(m) => "Configuration error: "@ + m,
        Fault::Io(e) => "IO error: "@ + e.message,
        Fault::Btrfs(m) => "Btrfs operation failed: "@ + m,
        Fault::Mount(m) => "Mount error: "@ + m,
        Fault::Bootloader(m) => "Bootloader error: "@ + m,
        Fault::Hook(m) => "Hook execution error: "@ + m,
        Fault::Lock(m) => "Lock error: "@ + m,
    }
}

/// `hints` where `found` holds, nothing otherwise.
pub open spec fn hints_if(found: bool, hints: Seq<Seq<char>>) -> Seq<Seq<char>> {
    if found {
        hints
    } else {
        Seq::empty()
    }
}

/// `hints`, or `fallback` where there are none.
pub open spec fn hints_or(hints: Seq<Seq<char>>, fallback: Seq<Seq<char>>) -> Seq<Seq<char>> {
    if hints.len() == 0 {
        fallback
    } else {
        hints
    }
}

/// The hints for a failed Btrfs operation.
pub open spec fn btrfs_hints(msg: Seq<char>) -> Seq<Seq<char>> {
    hints_or(
        hints_if(has(msg, "Permission denied"@), seq!["Try running with sudo or as root"@])
            + hints_if(
            has(msg, "send"@) || has(msg, "Send"@),
            seq![
                "Check free space on the target: 'btrfs filesystem usage <path>'"@,
                "Ensure the parent snapshot still exists for incremental backup"@,
            ],
        ) + hints_if(
            has(msg, "snapshot"@) || has(msg, "Snapshot"@),
            seq![
                "Ensure the source subvolume is accessible"@,
                "Check disk space: 'btrfs filesystem usage <path>'"@,
            ],
        ) + hints_if(
            has(msg, "not a btrfs subvolume"@) || has(msg, "not a subvolume"@),
            seq!["Verify the path points to a valid btrfs subvolume"@],
        ) + hints_if(
            has(msg, "receive"@) || has(msg, "Receive"@),
            seq![
                "Check free space on the target device"@,
                "Ensure the target directory exists and is on a btrfs filesystem"@,
            ],
        ),
        seq!["Check that btrfs-progs is installed"@, "Try running with sudo or as root"@],
    )
}

/// The hints for a failed mount or unmount, or an encrypted device that cannot be used.
pub open spec fn mount_hints(msg: Seq<char>) -> Seq<Seq<char>> {
    hints_or(
        hints_if(
            has(msg, "LUKS"@) || has(msg, "luks"@),
            seq![
                "Verify the device is a valid LUKS container: 'cryptsetup isLuks <device>'"@,
                "Check that the keyfile exists and is readable"@,
            ],
        ) + hints_if(
            has(msg, "not a LUKS"@),
            seq!["Ensure encryption is configured for the correct device"@],
        ) + hints_if(
            has(msg, "Failed to mount"@),
            seq![
                "Check that the filesystem on the device is valid"@,
                "Try mounting manually to diagnose: 'mount <device> <path>'"@,
            ],
        ) + hints_if(
            has(msg, "Failed to unmount"@),
            seq!["Check for open files on the mount point: 'lsof <path>'"@],
        ),
        seq!["Check that the device exists and is accessible"@],
    )
}

/// The hints for a failed input/output operation.
pub open spec fn io_hints(kind: IoKind) -> Seq<Seq<char>> {
    match kind {
        IoKind::PermissionDenied => seq!["Try running with sudo or as root"@],
        IoKind::NotFound => seq!["Check that the file or directory path is correct"@],
        IoKind::AlreadyExists => seq!["A file or directory already exists at the target path"@],
        IoKind::Other => Seq::empty(),
    }
}

/// The hints for a failed bootloader setup.
pub open spec fn bootloader_hints(msg: Seq<char>) -> Seq<Seq<char>> {
    hints_or(
        hints_if(
            has(msg, "systemd-boot"@) || has(msg, "bootctl"@),
            seq![
                "Ensure systemd-boot is installed: 'pacman -S systemd'"@,
                "Check that the ESP is mounted and writable"@,
            ],
        ),
        seq!["Check that the ESP path is correct and accessible"@],
    )
}

/// The hints for a failed hook.
pub open spec fn hook_hints(msg: Seq<char>) -> Seq<Seq<char>> {
    hints_or(
        hints_if(has(msg, "UUID"@), seq!["Ensure the target device is properly mounted"@])
            + hints_if(
            has(msg, "kernel"@) || has(msg, "initramfs"@),
            seq!["Check that the kernel and initramfs paths in boot_entry config are correct"@],
        ),
        seq!["Check the hook configuration in your config file"@],
    )
}

/// The hints for a lock that cannot be had.
pub open spec fn lock_hints(msg: Seq<char>) -> Seq<Seq<char>> {
    if has(msg, "already running"@) {
        seq![
            "Wait for the other btrbak instance to finish"@,
            "Remove stale lock files in /tmp/btrbak_locks/ if no other instance is running"@,
        ]
    } else {
        seq!["Check that /tmp is writable"@]
    }
}

/// The hints that go with a fault.
pub open spec fn hints_for(f: Fault) -> Seq<Seq<char>> {
    match f {
        Fault::Lock(m) => lock_hints(m),
        Fault::Btrfs(m) => btrfs_hints(m),
        Fault::Mount(m) => mount_hints(m),
        Fault::Io(e) => io_hints(e.kind),
        Fault::Config(_) => seq![
            "Check your configuration file for syntax errors"@,
            "Run 'btrbak validate -c <config>' to check the configuration"@,
        ],
        Fault::Bootloader(m) => bootloader_hints(m),
        Fault::Hook(m) => hook_hints(m),
    }
}

/// Adds `more` to `list` where `found` holds.
fn extend_if(list: Vec<&'static str>, found: bool, more: Vec<&'static str>) -> (r: Vec<
    &'static str,
>)
    ensures
        r.deep_view() == list.deep_view() + hints_if(found, more.deep_view()),
{
    let mut out = list;
    if found {
        let ghost start = out.deep_view();
        let mut i: usize = 0;
        while i < more.len()
            invariant
                i <= more@.len(),
                out.deep_view() =~= start + more.deep_view().take(i as int),
            decreases more@.len() - i,
        {
            let ghost before = out.deep_view();
            out.push(more[i]);
            assert(out.deep_view() =~= before.push(more@[i as int]@));
            i += 1;
        }
        assert(more.deep_view().take(i as int) =~= more.deep_view());
    } else {
        assert(out.deep_view() =~= out.deep_view() + Seq::<Seq<char>>::empty());
    }
    out
}

/// `list`, or `fallback` where `list` is empty.
fn or_else(list: Vec<&'static str>, fallback: Vec<&'static str>) -> (r: Vec<&'static str>)
    ensures
        r.deep_view() == hints_or(list.deep_view(), fallback.deep_view()),
{
    if list.len() == 0 {
        fallback
    } else {
        list
    }
}

/// A list of one hint.
fn one(a: &'static str) -> (r: Vec<&'static str>)
    ensures
        r.deep_view() == seq![a@],
{
    let mut v: Vec<&'static str> = Vec::new();
    v.push(a);
    assert(v.deep_view() =~= seq![a@]);
    v
}

/// A list of two hints.
fn two(a: &'static str, b: &'static str) -> (r: Vec<&'static str>)
    ensures
        r.deep_view() == seq![a@, b@],
{
    let mut v: Vec<&'static str> = Vec::new();
    v.push(a);
    v.push(b);
    assert(v.deep_view() =~= seq![a@, b@]);
    v
}

/// A list of no hints.
fn none() -> (r: Vec<&'static str>)
    ensures
        r.deep_view() == Seq::<Seq<char>>::empty(),
{
    let v: Vec<&'static str> = Vec::new();
    assert(v.deep_view() =~= Seq::<Seq<char>>::empty());
    v
}

impl BackupError {
    /// The message shown for the error.
    pub fn message(&self) -> (r: String)
        ensures
            r@ == fault_text(self.deep_view()),
    {
        match self {
            BackupError::Config(m) => cat2("Configuration error: ", m.as_str()),
            BackupError::Io(e) => cat2("IO error: ", e.message.as_str()),
            BackupError::Btrfs(m) => cat2("Btrfs operation failed: ", m.as_str()),
            BackupError::Mount(m) => cat2("Mount error: ", m.as_str()),
            BackupError::Bootloader(m) => cat2("Bootloader error: ", m.as_str()),
            BackupError::Hook(m) => cat2("Hook execution error: ", m.as_str()),
            BackupError::Lock(m) => cat2("Lock error: ", m.as_str()),
        }
    }

    /// What the user may try next.
    pub fn hints(&self) -> (r: Vec<&'static str>)
        ensures
            r.deep_view() == hints_for(self.deep_view()),
    {
        match self {
            BackupError::Lock(m) => {
                if contains(m.as_str(), "already running") {
                    two(
                        "Wait for the other btrbak instance to finish",
                        "Remove stale lock files in /tmp/btrbak_locks/ if no other instance is running",
                    )
                } else {
                    one("Check that /tmp is writable")
                }
            },
            BackupError::Btrfs(m) => {
                let msg = m.as_str();
                let h = extend_if(
                    none(),
                    contains(msg, "Permission denied"),
                    one("Try running with sudo or as root"),
                );
                assert(h.deep_view() =~= hints_if(
                    has(msg@, "Permission denied"@),
                    seq!["Try running with sudo or as root"@],
                ));
                let h = extend_if(
                    h,
                    contains(msg, "send") || contains(msg, "Send"),
                    two(
                        "Check free space on the target: 'btrfs filesystem usage <path>'",
                        "Ensure the parent snapshot still exists for incremental backup",
                    ),
                );
                let h = extend_if(
                    h,
                    contains(msg, "snapshot") || contains(msg, "Snapshot"),
                    two(
                        "Ensure the source subvolume is accessible",
                        "Check disk space: 'btrfs filesystem usage <path>'",
                    ),
                );
                let h = extend_if(
                    h,
                    contains(msg, "not a btrfs subvolume") || contains(msg, "not a subvolume"),
                    one("Verify the path points to a valid btrfs subvolume"),
                );
                let h = extend_if(
                    h,
                    contains(msg, "receive") || contains(msg, "Receive"),
                    two(
                        "Check free space on the target device",
                        "Ensure the target directory exists and is on a btrfs filesystem",
                    ),
                );
                or_else(
                    h,
                    two("Check that btrfs-progs is installed", "Try running with sudo or as root"),
                )
            },
            BackupError::Mount(m) => {
                let msg = m.as_str();
                let h = extend_if(
                    none(),
                    contains(msg, "LUKS") || contains(msg, "luks"),
                    two(
                        "Verify the device is a valid LUKS container: 'cryptsetup isLuks <device>'",
                        "Check that the keyfile exists and is readable",
                    ),
                );
                assert(h.deep_view() =~= hints_if(
                    has(msg@, "LUKS"@) || has(msg@, "luks"@),
                    seq![
                        "Verify the device is a valid LUKS container: 'cryptsetup isLuks <device>'"@,
                        "Check that the keyfile exists and is readable"@,
                    ],
                ));
                let h = extend_if(
                    h,
                    contains(msg, "not a LUKS"),
                    one("Ensure encryption is configured for the correct device"),
                );
                let h = extend_if(
                    h,
                    contains(msg, "Failed to mount"),
                    two(
                        "Check that the filesystem on the device is valid",
                        "Try mounting manually to diagnose: 'mount <device> <path>'",
                    ),
                );
                let h = extend_if(
                    h,
                    contains(msg, "Failed to unmount"),
                    one("Check for open files on the mount point: 'lsof <path>'"),
                );
                or_else(h, one("Check that the device exists and is accessible"))
            },
            BackupError::Io(e) => match e.kind {
                IoKind::PermissionDenied => one("Try running with sudo or as root"),
                IoKind::NotFound => one("Check that the file or directory path is correct"),
                IoKind::AlreadyExists => one(
                    "A file or directory already exists at the target path",
                ),
                IoKind::Other => none(),
            },
            BackupError::Config(_) => two(
                "Check your configuration file for syntax errors",
                "Run 'btrbak validate -c <config>' to check the configuration",
            ),
            BackupError::Bootloader(m) => {
                let msg = m.as_str();
                let h = extend_if(
                    none(),
                    contains(msg, "systemd-boot") || contains(msg, "bootctl"),
                    two(
                        "Ensure systemd-boot is installed: 'pacman -S systemd'",
                        "Check that the ESP is mounted and writable",
                    ),
                );
                assert(h.deep_view() =~= hints_if(
                    has(msg@, "systemd-boot"@) || has(msg@, "bootctl"@),
                    seq![
                        "Ensure systemd-boot is installed: 'pacman -S systemd'"@,
                        "Check that the ESP is mounted and writable"@,
                    ],
                ));
                or_else(h, one("Check that the ESP path is correct and accessible"))
            },
            BackupError::Hook(m) => {
                let msg = m.as_str();
                let h = extend_if(
                    none(),
                    contains(msg, "UUID"),
                    one("Ensure the target device is properly mounted"),
                );
                assert(h.deep_view() =~= hints_if(
                    has(msg@, "UUID"@),
                    seq!["Ensure the target device is properly mounted"@],
                ));
                let h = extend_if(
                    h,
                    contains(msg, "kernel") || contains(msg, "initramfs"),
                    one(
                        "Check that the kernel and initramfs paths in boot_entry config are correct",
                    ),
                );
                or_else(h, one("Check the hook configuration in your config file"))
            },
        }
    }
}

/// Every fault other than an input/output failure of an unlisted kind has a hint.
pub proof fn lemma_hints_are_given(f: Fault)
    ensures
        hints_for(f).len() == 0 <==> (f matches Fault::Io(e) && e.kind == IoKind::Other),
{
}

}
