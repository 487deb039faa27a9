//! Devices: resolving, unlocking, mounting, and giving them back.

use crate::btrfs::{ensure_dir, ensuring_dir};
use crate::command_runner::{
    commanding, complain, complaining, failed, ignore, ignoring, must_run, query, querying, Area,
};
use crate::config::{is_tag, names_tag, Encryption, EncryptionConfig};
use crate::error::{fault_text, Fault};
#[allow(unused_imports)]
use crate::journal::{
    ask, bind, call, drive, fail, fetch, group_plan, ok, perform, run, say, shown, text_in, then,
    Answer, Ask, Command, Printed, Request, Session, Stop, Tone, Try,
};
use crate::text::{cat2, cat3, cat4, cat5, lossy, lossy_text, starts_with, trim, trimmed};
use vstd::prelude::*;

verus! {

/// How devices are accessed.
#[derive(Debug, Clone, Copy, PartialEq, Eq, Structural)]
pub enum DeviceAccessMode {
    Privileged,
}

impl DeviceAccessMode {
    /// Devices are accessed with privileges, whatever the flag says.
    pub fn from_privileged_flag(_privileged_mode: bool) -> (r: Self)
        ensures
            r == DeviceAccessMode::Privileged,
    {
        DeviceAccessMode::Privileged
    }
}

/// Looks a device up by UUID or label; a device path, or any other text, stands for itself.
#[verifier::opaque]
pub open spec fn resolving(device: Seq<char>) -> Try<Seq<char>> {
    if "/dev/"@.is_prefix_of(device) || !is_tag(device) {
        ok(device)
    } else {
        then(
            querying(call("findfs"@).arg(device)),
            |o: Printed|
                if !o.success {
                    complaining(
                        Area::Mount,
                        "Failed to resolve device identifier "@ + device + ": "@,
                        o,
                    )
                } else if "/dev/"@.is_prefix_of(trimmed(lossy_text(o.stdout))) {
                    ok(trimmed(lossy_text(o.stdout)))
                } else {
                    fail(
                        Fault::Mount(
                            "Resolved device identifier "@ + device
                                + " to invalid block device path: "@ + trimmed(
                                lossy_text(o.stdout),
                            ),
                        ),
                    )
                },
        )
    }
}

/// The block device that `device` names.
pub fn resolve_block_device(s: &mut Session, device: &str) -> (r: Result<String, Stop>)
    ensures
        drive(resolving(device@), old(s)@) == (final(s)@, shown(r)),
{
    broadcast use group_plan;

    reveal(resolving);
    if starts_with(device, "/dev/") || !names_tag(device) {
        return Ok(device.to_owned());
    }
    let o = query(s, Command::new("findfs").arg(device))?;
    if !o.success {
        let msg = cat3("Failed to resolve device identifier ", device, ": ");
        return complain(s, Area::Mount, msg.as_str(), o);
    }
    let resolved = trim(lossy(&o.stdout).as_str());
    if starts_with(resolved.as_str(), "/dev/") {
        Ok(resolved)
    } else {
        Err(
            failed(
                Area::Mount,
                cat4(
                    "Resolved device identifier ",
                    device,
                    " to invalid block device path: ",
                    resolved.as_str(),
                ),
            ),
        )
    }
}

/// Whether something is mounted at `path`.
#[verifier::opaque]
pub open spec fn checking_mounted(path: Seq<char>) -> Try<bool> {
    then(
        querying(call("findmnt"@).arg("--mountpoint"@).arg(path).arg("--noheadings"@)),
        |o: Printed| ok(o.success),
    )
}

/// Whether something is mounted at `path`.
pub fn is_mounted(s: &mut Session, path: &str) -> (r: Result<bool, Stop>)
    ensures
        drive(checking_mounted(path@), old(s)@) == (final(s)@, shown(r)),
{
    broadcast use group_plan;

    reveal(checking_mounted);
    let o = query(
        s,
        Command::new("findmnt").arg("--mountpoint").arg(path).arg("--noheadings"),
    )?;
    Ok(o.success)
}

/// Mounts a device, unless something is mounted there already.
#[verifier::opaque]
pub open spec fn mounting(device: Seq<char>, mount_point: Seq<char>) -> Try<()> {
    then(
        ensuring_dir(mount_point),
        |u: ()|
            then(
                checking_mounted(mount_point),
                |mounted: bool|
                    if mounted {
                        ok(())
                    } else {
                        commanding(
                            Area::Mount,
                            call("mount"@).arg(device).arg(mount_point),
                            "Failed to mount "@ + device + " to "@ + mount_point + ": "@,
                        )
                    },
            ),
    )
}

/// Mounts a device, unless something is mounted there already.
pub fn mount_device(s: &mut Session, device: &str, mount_point: &str) -> (r: Result<(), Stop>)
    ensures
        drive(mounting(device@, mount_point@), old(s)@) == (final(s)@, shown(r)),
{
    broadcast use group_plan;

    reveal(mounting);
    ensure_dir(s, mount_point)?;
    if is_mounted(s, mount_point)? {
        return Ok(());
    }
    let msg = cat5("Failed to mount ", device, " to ", mount_point, ": ");
    must_run(s, Area::Mount, Command::new("mount").arg(device).arg(mount_point), msg.as_str())
}

/// Unmounts what is mounted at `mount_point`.
#[verifier::opaque]
pub open spec fn unmounting(mount_point: Seq<char>) -> Try<()> {
    commanding(
        Area::Mount,
        call("umount"@).arg(mount_point),
        "Failed to unmount "@ + mount_point + ": "@,
    )
}

/// Unmounts what is mounted at `mount_point`.
pub fn unmount(s: &mut Session, mount_point: &str) -> (r: Result<(), Stop>)
    ensures
        drive(unmounting(mount_point@), old(s)@) == (final(s)@, shown(r)),
{
    reveal(unmounting);
    let msg = cat3("Failed to unmount ", mount_point, ": ");
    must_run(s, Area::Mount, Command::new("umount").arg(mount_point), msg.as_str())
}

/// Whether a block device is encrypted with LUKS.
#[verifier::opaque]
pub open spec fn checking_luks_at(device: Seq<char>) -> Try<bool> {
    then(
        querying(call("cryptsetup"@).arg("isLuks"@).arg(device)),
        |o: Printed| ok(o.success),
    )
}

/// Whether a block device is encrypted with LUKS.
fn is_luks_at(s: &mut Session, device: &str) -> (r: Result<bool, Stop>)
    ensures
        drive(checking_luks_at(device@), old(s)@) == (final(s)@, shown(r)),
{
    broadcast use group_plan;

    reveal(checking_luks_at);
    let o = query(s, Command::new("cryptsetup").arg("isLuks").arg(device))?;
    Ok(o.success)
}

/// Whether a device is encrypted with LUKS.
#[verifier::opaque]
pub open spec fn checking_luks(device: Seq<char>) -> Try<bool> {
    then(resolving(device), |resolved: Seq<char>| checking_luks_at(resolved))
}

/// Whether a device is encrypted with LUKS.
pub fn is_luks_device(s: &mut Session, device: &str) -> (r: Result<bool, Stop>)
    ensures
        drive(checking_luks(device@), old(s)@) == (final(s)@, shown(r)),
{
    reveal(checking_luks);
    is_luks_device_with_mode(s, device, DeviceAccessMode::Privileged)
}

/// Whether a device is encrypted with LUKS.
pub fn is_luks_device_with_mode(s: &mut Session, device: &str, _mode: DeviceAccessMode) -> (r:
    Result<bool, Stop>)
    ensures
        drive(checking_luks(device@), old(s)@) == (final(s)@, shown(r)),
{
    broadcast use group_plan;

    reveal(checking_luks);
    let resolved = resolve_block_device(s, device)?;
    is_luks_at(s, resolved.as_str())
}

/// The path of an unlocked device.
pub open spec fn mapped_path(mapping: Seq<char>) -> Seq<char> {
    "/dev/mapper/"@ + mapping
}

/// Unlocks a block device with a passphrase from the environment.
#[verifier::opaque]
pub open spec fn opening_with_passphrase(
    device: Seq<char>,
    mapping: Seq<char>,
    variable: Seq<char>,
) -> Try<Seq<char>> {
    bind(
        ask(Ask::EnvVar(variable)),
        |a: Answer|
            match text_in(a) {
                Err(e) => fail(
                    Fault::Mount(
                        "Failed to get passphrase from environment variable "@ + variable + ": "@
                            + e.message,
                    ),
                ),
                Ok(passphrase) => then(
                    say(
                        Tone::CmdStart,
                        "cryptsetup open --key-file - "@ + device + " "@ + mapping,
                    ),
                    |u: ()|
                        then(
                            run(
                                call("cryptsetup"@).arg("open"@).arg("--key-file"@).arg("-"@).arg(
                                    device,
                                ).arg(mapping).fed(passphrase),
                            ),
                            |o: Printed|
                                if o.success {
                                    ok(mapped_path(mapping))
                                } else {
                                    complaining(
                                        Area::Mount,
                                        "Failed to open LUKS device "@ + device + ": "@,
                                        o,
                                    )
                                },
                        ),
                ),
            },
    )
}

/// Unlocks a block device: with the key file where there is one, else with the passphrase.
#[verifier::opaque]
pub open spec fn opening_at(
    device: Seq<char>,
    mapping: Seq<char>,
    keyfile: Option<Seq<char>>,
    passphrase_env: Option<Seq<char>>,
) -> Try<Seq<char>> {
    match (keyfile, passphrase_env) {
        (Some(k), _) => then(
            commanding(
                Area::Mount,
                call("cryptsetup"@).arg("open"@).arg("--key-file"@).arg(k).arg(device).arg(
                    mapping,
                ),
                "Failed to open LUKS device "@ + device + ": "@,
            ),
            |u: ()| ok(mapped_path(mapping)),
        ),
        (None, Some(variable)) => opening_with_passphrase(device, mapping, variable),
        (None, None) => fail(
            Fault::Mount(
                "No keyfile or passphrase environment variable provided for LUKS device"@,
            ),
        ),
    }
}

/// Unlocks a block device with a passphrase from the environment.
fn open_with_passphrase(s: &mut Session, device: &str, mapping_name: &str, variable: &str) -> (r:
    Result<String, Stop>)
    ensures
        drive(opening_with_passphrase(device@, mapping_name@, variable@), old(s)@) == (
            final(s)@,
            shown(r),
        ),
{
    broadcast use group_plan;

    reveal(opening_with_passphrase);
    let passphrase = match s.ask(Request::EnvVar(variable.to_owned()))?.text() {
        Ok(t) => t,
        Err(e) => {
            return Err(
                failed(
                    Area::Mount,
                    cat4(
                        "Failed to get passphrase from environment variable ",
                        variable,
                        ": ",
                        e.message.as_str(),
                    ),
                ),
            );
        },
    };
    let line = cat4("cryptsetup open --key-file - ", device, " ", mapping_name);
    s.say(Tone::CmdStart, line.as_str())?;
    let command = Command::new("cryptsetup").arg("open").arg("--key-file").arg("-").arg(device).arg(
        mapping_name,
    ).fed(passphrase.as_str());
    let o = s.run(command)?;
    if o.success {
        Ok(cat2("/dev/mapper/", mapping_name))
    } else {
        let msg = cat3("Failed to open LUKS device ", device, ": ");
        complain(s, Area::Mount, msg.as_str(), o)
    }
}

/// Unlocks a block device.
fn open_at(
    s: &mut Session,
    device: &str,
    mapping_name: &str,
    keyfile: Option<&str>,
    passphrase_env: Option<&str>,
) -> (r: Result<String, Stop>)
    ensures
        drive(
            opening_at(device@, mapping_name@, keyfile.deep_view(), passphrase_env.deep_view()),
            old(s)@,
        ) == (final(s)@, shown(r)),
{
    broadcast use group_plan;

    reveal(opening_at);
    if let Some(k) = keyfile {
        let msg = cat3("Failed to open LUKS device ", device, ": ");
        let command = Command::new("cryptsetup").arg("open").arg("--key-file").arg(k).arg(
            device,
        ).arg(mapping_name);
        must_run(s, Area::Mount, command, msg.as_str())?;
        Ok(cat2("/dev/mapper/", mapping_name))
    } else if let Some(variable) = passphrase_env {
        open_with_passphrase(s, device, mapping_name, variable)
    } else {
        Err(
            failed(
                Area::Mount,
                "No keyfile or passphrase environment variable provided for LUKS device".to_owned(),
            ),
        )
    }
}

/// Unlocks a device.
#[verifier::opaque]
pub open spec fn opening(
    device: Seq<char>,
    mapping: Seq<char>,
    keyfile: Option<Seq<char>>,
    passphrase_env: Option<Seq<char>>,
) -> Try<Seq<char>> {
    then(
        resolving(device),
        |resolved: Seq<char>| opening_at(resolved, mapping, keyfile, passphrase_env),
    )
}

/// Unlocks a device; gives the path of the unlocked one.
pub fn open_luks_device(
    s: &mut Session,
    device: &str,
    mapping_name: &str,
    keyfile: Option<&str>,
    passphrase_env: Option<&str>,
) -> (r: Result<String, Stop>)
    ensures
        drive(
            opening(device@, mapping_name@, keyfile.deep_view(), passphrase_env.deep_view()),
            old(s)@,
        ) == (final(s)@, shown(r)),
{
    reveal(opening);
    open_luks_device_with_mode(
        s,
        device,
        mapping_name,
        keyfile,
        passphrase_env,
        DeviceAccessMode::Privileged,
    )
}

/// Unlocks a device; gives the path of the unlocked one.
pub fn open_luks_device_with_mode(
    s: &mut Session,
    device: &str,
    mapping_name: &str,
    keyfile: Option<&str>,
    passphrase_env: Option<&str>,
    _mode: DeviceAccessMode,
) -> (r: Result<String, Stop>)
    ensures
        drive(
            opening(device@, mapping_name@, keyfile.deep_view(), passphrase_env.deep_view()),
            old(s)@,
        ) == (final(s)@, shown(r)),
{
    broadcast use group_plan;

    reveal(opening);
    let resolved = resolve_block_device(s, device)?;
    open_at(s, resolved.as_str(), mapping_name, keyfile, passphrase_env)
}

/// Locks an unlocked device.
#[verifier::opaque]
pub open spec fn closing(mapping: Seq<char>) -> Try<()> {
    commanding(
        Area::Mount,
        call("cryptsetup"@).arg("close"@).arg(mapping),
        "Failed to close LUKS mapping "@ + mapping + ": "@,
    )
}

/// Locks an unlocked device.
pub fn close_luks_device(s: &mut Session, mapping_name: &str) -> (r: Result<(), Stop>)
    ensures
        drive(closing(mapping_name@), old(s)@) == (final(s)@, shown(r)),
{
    reveal(closing);
    close_luks_device_with_mode(s, mapping_name, DeviceAccessMode::Privileged)
}

/// Locks an unlocked device.
pub fn close_luks_device_with_mode(
    s: &mut Session,
    mapping_name: &str,
    _mode: DeviceAccessMode,
) -> (r: Result<(), Stop>)
    ensures
        drive(closing(mapping_name@), old(s)@) == (final(s)@, shown(r)),
{
    reveal(closing);
    let msg = cat3("Failed to close LUKS mapping ", mapping_name, ": ");
    must_run(
        s,
        Area::Mount,
        Command::new("cryptsetup").arg("close").arg(mapping_name),
        msg.as_str(),
    )
}

/// Mounts a device in a new temporary directory; where that fails, the directory is removed.
#[verifier::opaque]
pub open spec fn mounting_managed(device: Seq<char>) -> Try<Seq<char>> {
    then(
        resolving(device),
        |resolved: Seq<char>|
            then(
                fetch(Ask::MakeTempDir),
                |dir: Seq<char>|
                    bind(
                        mounting(resolved, dir),
                        |r: Result<(), Fault>|
                            match r {
                                Ok(_) => ok(dir),
                                Err(e) => then(
                                    ignoring(perform(Ask::RemoveTempDir(dir))),
                                    |u: ()| fail(e),
                                ),
                            },
                    ),
            ),
    )
}

/// Mounts a device in a new temporary directory.
fn mount_managed(s: &mut Session, device: &str) -> (r: Result<String, Stop>)
    ensures
        drive(mounting_managed(device@), old(s)@) == (final(s)@, shown(r)),
{
    broadcast use group_plan;

    reveal(mounting_managed);
    let resolved = resolve_block_device(s, device)?;
    let dir = s.fetch(Request::MakeTempDir)?;
    match mount_device(s, resolved.as_str(), dir.as_str()) {
        Ok(_) => Ok(dir),
        Err(Stop::Pending) => Err(Stop::Pending),
        Err(Stop::Failed(e)) => {
            ignore(s.perform(Request::RemoveTempDir(dir.clone())))?;
            Err(Stop::Failed(e))
        },
    }
}

/// A mounted file system that has to be given back.
#[derive(Debug)]
pub struct MountGuard {
    mount_point: String,
    luks_mapping: Option<String>,
    managed: bool,
}

/// What a [`MountGuard`] holds.
pub struct Mounted {
    /// Where the file system is.
    pub point: Seq<char>,
    /// The unlocked device under it, where it is encrypted.
    pub mapping: Option<Seq<char>>,
    /// Whether it was mounted in a temporary directory of its own.
    pub managed: bool,
}

impl DeepView for MountGuard {
    type V = Mounted;

    closed spec fn deep_view(&self) -> Mounted {
        Mounted {
            point: self.mount_point@,
            mapping: self.luks_mapping.deep_view(),
            managed: self.managed,
        }
    }
}

/// A path that was mounted before: there is nothing to give back.
pub open spec fn already_mounted(path: Seq<char>) -> Mounted {
    Mounted { point: path, mapping: None, managed: false }
}

/// Mounts a device.
#[verifier::opaque]
pub open spec fn guarding(device: Seq<char>) -> Try<Mounted> {
    then(
        mounting_managed(device),
        |dir: Seq<char>| ok(Mounted { point: dir, mapping: None, managed: true }),
    )
}

/// Mounts an unlocked device; where that fails, it is locked again.
pub open spec fn guarding_unlocked(mapped: Seq<char>, mapping: Seq<char>) -> Try<Mounted> {
    bind(
        mounting_managed(mapped),
        |r: Result<Seq<char>, Fault>|
            match r {
                Ok(dir) => ok(Mounted { point: dir, mapping: Some(mapping), managed: true }),
                Err(e) => bind(
                    closing(mapping),
                    |c: Result<(), Fault>|
                        match c {
                            Ok(_) => fail(e),
                            Err(f) => then(
                                say(
                                    Tone::Warning,
                                    "Failed to close LUKS mapping "@ + mapping
                                        + " after mount failure: "@ + fault_text(f),
                                ),
                                |u: ()| fail(e),
                            ),
                        },
                ),
            },
    )
}

/// Unlocks an encrypted device and mounts it.
#[verifier::opaque]
pub open spec fn guarding_encrypted(device: Seq<char>, encryption: Encryption) -> Try<Mounted> {
    then(
        resolving(device),
        |resolved: Seq<char>|
            then(
                checking_luks_at(resolved),
                |luks: bool|
                    if !luks {
                        fail(
                            Fault::Mount(
                                "Device "@ + device + " is not a LUKS encrypted device"@,
                            ),
                        )
                    } else {
                        then(
                            opening_at(
                                resolved,
                                encryption.mapping_name,
                                encryption.keyfile,
                                encryption.passphrase_env,
                            ),
                            |mapped: Seq<char>|
                                guarding_unlocked(mapped, encryption.mapping_name),
                        )
                    },
            ),
    )
}

/// A failure that is only worth a warning.
pub open spec fn warning_of(p: Try<()>, msg: Seq<char>) -> Try<()> {
    bind(
        p,
        |r: Result<(), Fault>|
            match r {
                Ok(_) => ok(()),
                Err(e) => say(Tone::Warning, msg + fault_text(e)),
            },
    )
}

/// Gives a mounted file system back: unmounts it, locks its device, and removes its
/// directory. What cannot be done is only warned of.
#[verifier::opaque]
pub open spec fn releasing(m: Mounted) -> Try<()> {
    then(
        if m.managed {
            warning_of(unmounting(m.point), "Failed to unmount "@ + m.point + ": "@)
        } else {
            ok(())
        },
        |u: ()|
            then(
                match m.mapping {
                    Some(n) => warning_of(
                        closing(n),
                        "Failed to close LUKS mapping "@ + n + ": "@,
                    ),
                    None => ok(()),
                },
                |u: ()|
                    if m.managed {
                        ignoring(perform(Ask::RemoveTempDir(m.point)))
                    } else {
                        ok(())
                    },
            ),
    )
}

/// An optional text as a reference.
fn borrowed(t: &Option<String>) -> (r: Option<&str>)
    ensures
        r.deep_view() == t.deep_view(),
{
    match t {
        Some(x) => Some(x.as_str()),
        None => None,
    }
}

/// Turns a failure into a warning.
fn warn(s: &mut Session, r: Result<(), Stop>, msg: &str) -> (out: Result<(), Stop>)
    ensures
        match shown(r) {
            None => final(s)@ == old(s)@ && shown(out) is None,
            Some(Ok(_)) => final(s)@ == old(s)@ && shown(out) == Some(Ok::<(), Fault>(())),
            Some(Err(e)) => drive(say(Tone::Warning, msg@ + fault_text(e)), old(s)@) == (
                final(s)@,
                shown(out),
            ),
        },
{
    match r {
        Err(Stop::Failed(e)) => s.say(
            Tone::Warning,
            cat2(msg, e.message().as_str()).as_str(),
        ),
        Err(Stop::Pending) => Err(Stop::Pending),
        Ok(_) => Ok(()),
    }
}

impl MountGuard {
    /// Mounts a device.
    pub fn new(s: &mut Session, device: &str) -> (r: Result<Self, Stop>)
        ensures
            drive(guarding(device@), old(s)@) == (final(s)@, shown(r)),
    {
        reveal(guarding);
        MountGuard::new_with_mode(s, device, DeviceAccessMode::Privileged)
    }

    /// Mounts a device.
    pub fn new_with_mode(s: &mut Session, device: &str, _mode: DeviceAccessMode) -> (r: Result<
        Self,
        Stop,
    >)
        ensures
            drive(guarding(device@), old(s)@) == (final(s)@, shown(r)),
    {
        broadcast use group_plan;

        reveal(guarding);
        let mount_point = mount_managed(s, device)?;
        Ok(MountGuard { mount_point, luks_mapping: None, managed: true })
    }

    /// Unlocks an encrypted device and mounts it.
    pub fn new_encrypted(s: &mut Session, device: &str, encryption: &EncryptionConfig) -> (r:
        Result<Self, Stop>)
        ensures
            drive(guarding_encrypted(device@, encryption.deep_view()), old(s)@) == (
                final(s)@,
                shown(r),
            ),
    {
        reveal(guarding_encrypted);
        MountGuard::new_encrypted_with_mode(s, device, encryption, DeviceAccessMode::Privileged)
    }

    /// Unlocks an encrypted device and mounts it.
    pub fn new_encrypted_with_mode(
        s: &mut Session,
        device: &str,
        encryption: &EncryptionConfig,
        _mode: DeviceAccessMode,
    ) -> (r: Result<Self, Stop>)
        ensures
            drive(guarding_encrypted(device@, encryption.deep_view()), old(s)@) == (
                final(s)@,
                shown(r),
            ),
    {
        broadcast use group_plan;

        reveal(guarding_encrypted);
        let resolved = resolve_block_device(s, device)?;
        if !is_luks_at(s, resolved.as_str())? {
            return Err(
                failed(Area::Mount, cat3("Device ", device, " is not a LUKS encrypted device")),
            );
        }
        let mapping = encryption.mapping_name.as_str();
        let mapped = open_at(
            s,
            resolved.as_str(),
            mapping,
            borrowed(&encryption.keyfile),
            borrowed(&encryption.passphrase_env),
        )?;
        match mount_managed(s, mapped.as_str()) {
            Ok(mount_point) => Ok(
                MountGuard { mount_point, luks_mapping: Some(mapping.to_owned()), managed: true },
            ),
            Err(Stop::Pending) => Err(Stop::Pending),
            Err(Stop::Failed(e)) => {
                let closed = close_luks_device(s, mapping);
                let msg = cat3(
                    "Failed to close LUKS mapping ",
                    mapping,
                    " after mount failure: ",
                );
                warn(s, closed, msg.as_str())?;
                Err(Stop::Failed(e))
            },
        }
    }

    /// A path that was mounted before and stays mounted.
    pub fn for_mounted_path(path: &str) -> (r: Self)
        ensures
            r.deep_view() == already_mounted(path@),
    {
        MountGuard { mount_point: path.to_owned(), luks_mapping: None, managed: false }
    }

    /// Where the file system is.
    pub fn mount_point(&self) -> (r: &str)
        ensures
            r@ == self.deep_view().point,
    {
        self.mount_point.as_str()
    }

    /// Gives the file system back.
    pub fn release(&self, s: &mut Session) -> (r: Result<(), Stop>)
        ensures
            drive(releasing(self.deep_view()), old(s)@) == (final(s)@, shown(r)),
    {
        broadcast use group_plan;

        reveal(releasing);
        let point = self.mount_point.as_str();
        if self.managed {
            let unmounted = unmount(s, point);
            warn(s, unmounted, cat3("Failed to unmount ", point, ": ").as_str())?;
        }
        if let Some(mapping) = &self.luks_mapping {
            let closed = close_luks_device(s, mapping.as_str());
            let msg = cat3("Failed to close LUKS mapping ", mapping.as_str(), ": ");
            warn(s, closed, msg.as_str())?;
        }
        if self.managed {
            ignore(s.perform(Request::RemoveTempDir(point.to_owned())))?;
        }
        Ok(())
    }
}

}
