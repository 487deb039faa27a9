//! Setting up the live boot environment on a target.

use crate::btrfs::{create_subvolume, creating_subvolume};
use crate::command_runner::{commanding, failed, must_run, query, querying, Area};
use crate::config::{
    is_tag, names_tag, BootEntry, BootEntryConfig, LiveBoot, LiveBootConfig, Location, Target,
    TargetConfig, TargetLocation,
};
use crate::error::Fault;
use crate::hooks::{uuid_call, uuid_command};
#[allow(unused_imports)]
use crate::journal::{
    call, drive, fail, group_plan, ok, perform, present, say, shown, then, Ask, Command, Printed,
    Request, Session, Stop, Tone, Try,
};
use crate::path::{file_name, file_name_of, join, joined_path};
use crate::text::{
    cat2, cat3, cat4, join as join_texts, joined, lossy, lossy_text, replace, same, starts_with,
    trim, trimmed, with_char,
};
use vstd::prelude::*;

verus! {

/// How the bootloader unlocks the root device.
#[derive(Debug)]
pub struct LuksBootConfig {
    /// The UUID of the encrypted device.
    pub luks_uuid: String,
    /// The name of the unlocked device.
    pub mapping_name: String,
}

/// What a [`LuksBootConfig`] holds.
pub struct LuksBoot {
    pub luks_uuid: Seq<char>,
    pub mapping_name: Seq<char>,
}

impl DeepView for LuksBootConfig {
    type V = LuksBoot;

    open spec fn deep_view(&self) -> LuksBoot {
        LuksBoot { luks_uuid: self.luks_uuid@, mapping_name: self.mapping_name@ }
    }
}

/// A kernel option that is written for the live boot environment and never taken over from
/// the configuration.
pub open spec fn is_managed(opt: Seq<char>) -> bool {
    ||| opt == "rw"@
    ||| "root="@.is_prefix_of(opt)
    ||| "rootflags="@.is_prefix_of(opt)
    ||| "rd.luks."@.is_prefix_of(opt)
}

/// Whether a kernel option is written for the live boot environment.
pub fn is_managed_option(opt: &str) -> (r: bool)
    ensures
        r == is_managed(opt@),
{
    same(opt, "rw") || starts_with(opt, "root=") || starts_with(opt, "rootflags=") || starts_with(
        opt,
        "rd.luks.",
    )
}

/// The options that are taken over from the configuration.
pub open spec fn unmanaged(options: Seq<Seq<char>>) -> Seq<Seq<char>> {
    options.filter(|o: Seq<char>| !is_managed(o))
}

/// The options that unlock the root device.
pub open spec fn luks_options(luks: LuksBoot) -> Seq<Seq<char>> {
    seq![
        "rd.luks.name="@ + luks.luks_uuid + "="@ + luks.mapping_name,
        "rd.luks.options="@ + luks.luks_uuid
            + "=keyfile-timeout=3s,timeout=0,discard,password-echo=masked,tries=0"@,
        "rootflags=x-systemd.device-timeout=0"@,
    ]
}

/// The options that name the root file system.
pub open spec fn root_options(root_device: Seq<char>, live_root: Seq<char>) -> Seq<Seq<char>> {
    seq![
        "root="@ + root_device,
        "rw"@,
        "rootflags=subvol="@ + live_root + "/root_vol"@,
    ]
}

/// The options that unlock and name the root file system.
pub open spec fn added_options(
    root_device: Seq<char>,
    live_root: Seq<char>,
    luks: Option<LuksBoot>,
) -> Seq<Seq<char>> {
    match luks {
        Some(l) => luks_options(l) + root_options(root_device, live_root),
        None => root_options(root_device, live_root),
    }
}

/// The kernel options of the boot entry: those of the configuration that are not managed, in
/// their order, then those that unlock and name the root file system.
pub open spec fn entry_options(
    options: Seq<Seq<char>>,
    root_device: Seq<char>,
    live_root: Seq<char>,
    luks: Option<LuksBoot>,
) -> Seq<Seq<char>> {
    unmanaged(options) + added_options(root_device, live_root, luks)
}

/// The options that are taken over from the configuration.
fn take_over(options: &Vec<String>) -> (r: Vec<String>)
    ensures
        r.deep_view() == unmanaged(options.deep_view()),
{
    let ghost all = options.deep_view();
    let mut out: Vec<String> = Vec::new();
    let mut i: usize = 0;
    proof {
        reveal(Seq::filter);
        assert(all.take(0) =~= Seq::<Seq<char>>::empty());
    }
    while i < options.len()
        invariant
            i <= options@.len(),
            all == options.deep_view(),
            out.deep_view() =~= unmanaged(all.take(i as int)),
        decreases options@.len() - i,
    {
        let ghost before = out.deep_view();
        proof {
            reveal(Seq::filter);
            assert(all.take(i + 1).drop_last() =~= all.take(i as int));
            assert(all[i as int] == options@[i as int]@);
        }
        if !is_managed_option(options[i].as_str()) {
            out.push(options[i].clone());
            assert(out.deep_view() =~= before.push(all[i as int]));
        }
        i += 1;
    }
    assert(all.take(i as int) =~= all);
    out
}

/// The kernel options of the boot entry.
pub fn build_entry_options(
    entry_config: &BootEntryConfig,
    root_device: &str,
    live_boot_subvolume: &str,
    luks_boot_config: Option<&LuksBootConfig>,
) -> (r: Vec<String>)
    ensures
        r.deep_view() == entry_options(
            entry_config.deep_view().options,
            root_device@,
            live_boot_subvolume@,
            luks_boot_config.deep_view(),
        ),
{
    let mut options = take_over(&entry_config.options);
    let ghost kept = options.deep_view();
    if let Some(luks) = luks_boot_config {
        let name = cat4(
            "rd.luks.name=",
            luks.luks_uuid.as_str(),
            "=",
            luks.mapping_name.as_str(),
        );
        let luks_opts = cat3(
            "rd.luks.options=",
            luks.luks_uuid.as_str(),
            "=keyfile-timeout=3s,timeout=0,discard,password-echo=masked,tries=0",
        );
        options.push(name);
        options.push(luks_opts);
        options.push("rootflags=x-systemd.device-timeout=0".to_owned());
        assert(options.deep_view() =~= kept + luks_options(luks.deep_view()));
    }
    let ghost before = options.deep_view();
    options.push(cat2("root=", root_device));
    options.push("rw".to_owned());
    options.push(cat3("rootflags=subvol=", live_boot_subvolume, "/root_vol"));
    assert(options.deep_view() =~= before + root_options(root_device@, live_boot_subvolume@));
    assert(options.deep_view() =~= kept + added_options(
        root_device@,
        live_boot_subvolume@,
        luks_boot_config.deep_view(),
    ));
    options
}

/// Where a boot file is, seen from the EFI system partition: its name, right below the root.
pub open spec fn esp_asset(path: Seq<char>) -> Seq<char> {
    match file_name_of(path) {
        Some(name) => joined_path("/"@, name),
        None => path,
    }
}

/// Where a boot file is, seen from the EFI system partition.
fn esp_asset_path(path: &str) -> (r: String)
    ensures
        r@ == esp_asset(path@),
{
    match file_name(path) {
        Some(name) => join("/", name.as_str()),
        None => path.to_owned(),
    }
}

/// The lines of the boot entry. The microcode image comes before the initramfs.
pub open spec fn entry_lines(entry: BootEntry, options: Seq<Seq<char>>) -> Seq<Seq<char>> {
    seq!["title   "@ + entry.title, "linux   "@ + esp_asset(entry.kernel)] + (match entry.microcode {
        Some(m) => seq!["initrd  "@ + esp_asset(m)],
        None => Seq::empty(),
    }) + seq![
        "initrd  "@ + esp_asset(entry.initramfs),
        "options "@ + joined(options, " "@),
    ]
}

/// The text of the boot entry.
pub open spec fn entry_content(entry: BootEntry, options: Seq<Seq<char>>) -> Seq<char> {
    joined(entry_lines(entry, options), "\n"@) + "\n"@
}

/// The text of the boot entry.
pub fn build_entry_content(entry_config: &BootEntryConfig, options: &Vec<String>) -> (r: String)
    ensures
        r@ == entry_content(entry_config.deep_view(), options.deep_view()),
{
    let kernel = esp_asset_path(entry_config.kernel.as_str());
    let initramfs = esp_asset_path(entry_config.initramfs.as_str());
    let mut list: Vec<String> = Vec::new();
    list.push(cat2("title   ", entry_config.title.as_str()));
    list.push(cat2("linux   ", kernel.as_str()));
    if let Some(m) = &entry_config.microcode {
        let microcode = esp_asset_path(m.as_str());
        list.push(cat2("initrd  ", microcode.as_str()));
    }
    list.push(cat2("initrd  ", initramfs.as_str()));
    list.push(cat2("options ", join_texts(options, " ").as_str()));
    assert(list.deep_view() =~= entry_lines(entry_config.deep_view(), options.deep_view()));
    cat2(join_texts(&list, "\n").as_str(), "\n")
}

/// The root device of the live boot environment: the target as it is configured where that
/// names an unencrypted device by UUID or label, else the UUID of its file system.
pub open spec fn root_device_of(target: Target, root_uuid: Seq<char>) -> Seq<char> {
    match target.location {
        Location::Device(device) if target.encryption is None && is_tag(device) => device,
        _ => "UUID="@ + root_uuid,
    }
}

/// The root device of the live boot environment.
pub fn resolve_root_device(target_config: &TargetConfig, root_uuid: &str) -> (r: String)
    ensures
        r@ == root_device_of(target_config.deep_view(), root_uuid@),
{
    if target_config.encryption.is_none() {
        if let TargetLocation::Device(device) = &target_config.location {
            if names_tag(device.as_str()) {
                return device.clone();
            }
        }
    }
    cat2("UUID=", root_uuid)
}

/// Looks the target up by UUID or label; a device path, or any other text, stands for itself.
#[verifier::opaque]
pub open spec fn resolving_target(device: Seq<char>) -> Try<Seq<char>> {
    if "/dev/"@.is_prefix_of(device) || !is_tag(device) {
        ok(device)
    } else {
        then(
            querying(call("findfs"@).arg(device)),
            |o: Printed|
                if !o.success {
                    fail(
                        Fault::Bootloader(
                            "Failed to resolve target device identifier "@ + device
                                + " for LUKS boot options: "@ + lossy_text(o.stderr),
                        ),
                    )
                } else if "/dev/"@.is_prefix_of(trimmed(lossy_text(o.stdout))) {
                    ok(trimmed(lossy_text(o.stdout)))
                } else {
                    fail(
                        Fault::Bootloader(
                            "Resolved target device identifier "@ + device
                                + " to invalid block device path: "@ + trimmed(
                                lossy_text(o.stdout),
                            ),
                        ),
                    )
                },
        )
    }
}

/// The block device of the target.
pub fn resolve_block_device(s: &mut Session, device: &str) -> (r: Result<String, Stop>)
    ensures
        drive(resolving_target(device@), old(s)@) == (final(s)@, shown(r)),
{
    broadcast use group_plan;

    reveal(resolving_target);
    if starts_with(device, "/dev/") || !names_tag(device) {
        return Ok(device.to_owned());
    }
    let o = query(s, Command::new("findfs").arg(device))?;
    if !o.success {
        let msg = cat4(
            "Failed to resolve target device identifier ",
            device,
            " for LUKS boot options: ",
            lossy(&o.stderr).as_str(),
        );
        return Err(failed(Area::Bootloader, msg));
    }
    let resolved = trim(lossy(&o.stdout).as_str());
    if starts_with(resolved.as_str(), "/dev/") {
        Ok(resolved)
    } else {
        let msg = cat4(
            "Resolved target device identifier ",
            device,
            " to invalid block device path: ",
            resolved.as_str(),
        );
        Err(failed(Area::Bootloader, msg))
    }
}

/// The UUID of an encrypted device.
#[verifier::opaque]
pub open spec fn finding_luks_uuid(device: Seq<char>) -> Try<Seq<char>> {
    then(
        querying(call("cryptsetup"@).arg("luksUUID"@).arg(device)),
        |o: Printed|
            if !o.success {
                fail(
                    Fault::Bootloader(
                        "Failed to query LUKS UUID for "@ + device + ": "@ + lossy_text(o.stderr),
                    ),
                )
            } else if trimmed(lossy_text(o.stdout)).len() == 0 {
                fail(Fault::Bootloader("Empty LUKS UUID for "@ + device))
            } else {
                ok(trimmed(lossy_text(o.stdout)))
            },
    )
}

/// The UUID of an encrypted device.
pub fn find_luks_uuid(s: &mut Session, device: &str) -> (r: Result<String, Stop>)
    ensures
        drive(finding_luks_uuid(device@), old(s)@) == (final(s)@, shown(r)),
{
    broadcast use group_plan;

    reveal(finding_luks_uuid);
    let o = query(s, Command::new("cryptsetup").arg("luksUUID").arg(device))?;
    if !o.success {
        let msg = cat4(
            "Failed to query LUKS UUID for ",
            device,
            ": ",
            lossy(&o.stderr).as_str(),
        );
        return Err(failed(Area::Bootloader, msg));
    }
    let uuid = trim(lossy(&o.stdout).as_str());
    if uuid.as_str().is_empty() {
        Err(failed(Area::Bootloader, cat2("Empty LUKS UUID for ", device)))
    } else {
        Ok(uuid)
    }
}

/// How the bootloader unlocks the target, where it is an encrypted device.
#[verifier::opaque]
pub open spec fn finding_luks(target: Target) -> Try<Option<LuksBoot>> {
    match (target.encryption, target.location) {
        (Some(e), Location::Device(device)) => then(
            resolving_target(device),
            |resolved: Seq<char>|
                then(
                    finding_luks_uuid(resolved),
                    |uuid: Seq<char>|
                        ok(Some(LuksBoot { luks_uuid: uuid, mapping_name: e.mapping_name })),
                ),
        ),
        _ => ok(None),
    }
}

/// How the bootloader unlocks the target, where it is an encrypted device.
pub fn resolve_luks_boot_config(s: &mut Session, target_config: &TargetConfig) -> (r: Result<
    Option<LuksBootConfig>,
    Stop,
>)
    ensures
        drive(finding_luks(target_config.deep_view()), old(s)@) == (final(s)@, shown(r)),
{
    broadcast use group_plan;

    reveal(finding_luks);
    match (&target_config.encryption, &target_config.location) {
        (Some(encryption), TargetLocation::Device(device)) => {
            let resolved = resolve_block_device(s, device.as_str())?;
            let luks_uuid = find_luks_uuid(s, resolved.as_str())?;
            Ok(
                Some(
                    LuksBootConfig { luks_uuid, mapping_name: encryption.mapping_name.clone() },
                ),
            )
        },
        _ => Ok(None),
    }
}

/// The UUID of the file system mounted at a path.
#[verifier::opaque]
pub open spec fn finding_root(mount_point: Seq<char>) -> Try<Seq<char>> {
    then(
        querying(uuid_call(mount_point)),
        |o: Printed|
            if !o.success {
                fail(Fault::Mount("Failed to find UUID for mount point "@ + mount_point))
            } else if trimmed(lossy_text(o.stdout)).len() == 0 {
                fail(Fault::Mount("Empty UUID for mount point "@ + mount_point))
            } else {
                ok(trimmed(lossy_text(o.stdout)))
            },
    )
}

/// The UUID of the file system mounted at a path.
pub fn find_btrfs_device(s: &mut Session, mount_point: &str) -> (r: Result<String, Stop>)
    ensures
        drive(finding_root(mount_point@), old(s)@) == (final(s)@, shown(r)),
{
    broadcast use group_plan;

    reveal(finding_root);
    let o = query(s, uuid_command(mount_point))?;
    if !o.success {
        return Err(failed(Area::Mount, cat2("Failed to find UUID for mount point ", mount_point)));
    }
    let uuid = trim(lossy(&o.stdout).as_str());
    if uuid.as_str().is_empty() {
        Err(failed(Area::Mount, cat2("Empty UUID for mount point ", mount_point)))
    } else {
        Ok(uuid)
    }
}

/// Where the boot entries are on the EFI system partition.
pub open spec fn entries_dir_of(esp: Seq<char>) -> Seq<char> {
    joined_path(esp, "loader/entries"@)
}

/// Where the boot entry with a title is on the EFI system partition.
pub open spec fn entry_file_of(esp: Seq<char>, title: Seq<char>) -> Seq<char> {
    joined_path(entries_dir_of(esp), with_char(title, ' ', '_') + ".conf"@)
}

/// Writes the boot entry.
#[verifier::opaque]
pub open spec fn creating_entry(
    mount: Seq<char>,
    esp: Seq<char>,
    entry: BootEntry,
    target: Target,
    live_root: Seq<char>,
) -> Try<()> {
    then(
        finding_root(mount),
        |root_uuid: Seq<char>|
            then(
                finding_luks(target),
                |luks: Option<LuksBoot>|
                    then(
                        perform(Ask::CreateDirAll(entries_dir_of(esp))),
                        |u: ()|
                            perform(
                                Ask::WriteFile {
                                    path: entry_file_of(esp, entry.title),
                                    text: entry_content(
                                        entry,
                                        entry_options(
                                            entry.options,
                                            root_device_of(target, root_uuid),
                                            live_root,
                                            luks,
                                        ),
                                    ),
                                },
                            ),
                    ),
            ),
    )
}

/// Writes the boot entry.
pub fn create_boot_entry(
    s: &mut Session,
    btrfs_mount: &str,
    esp_path: &str,
    entry_config: &BootEntryConfig,
    target_config: &TargetConfig,
    live_boot_subvolume: &str,
) -> (r: Result<(), Stop>)
    ensures
        drive(
            creating_entry(
                btrfs_mount@,
                esp_path@,
                entry_config.deep_view(),
                target_config.deep_view(),
                live_boot_subvolume@,
            ),
            old(s)@,
        ) == (final(s)@, shown(r)),
{
    broadcast use group_plan;

    reveal(creating_entry);
    let root_uuid = find_btrfs_device(s, btrfs_mount)?;
    let root_device = resolve_root_device(target_config, root_uuid.as_str());
    let luks = resolve_luks_boot_config(s, target_config)?;
    let options = build_entry_options(
        entry_config,
        root_device.as_str(),
        live_boot_subvolume,
        luks.as_ref(),
    );
    let content = build_entry_content(entry_config, &options);
    let dir = join(esp_path, "loader/entries");
    s.perform(Request::CreateDirAll(dir.clone()))?;
    let name = cat2(replace(entry_config.title.as_str(), ' ', '_').as_str(), ".conf");
    let path = join(dir.as_str(), name.as_str());
    s.perform(Request::WriteFile { path, text: content })
}

/// Installs systemd-boot on the EFI system partition.
#[verifier::opaque]
pub open spec fn installing_bootloader(esp: Seq<char>) -> Try<()> {
    commanding(
        Area::Bootloader,
        call("bootctl"@).arg("--esp-path"@).arg(esp).arg("install"@),
        "Failed to install systemd-boot to "@ + esp + ": "@,
    )
}

/// Installs systemd-boot on the EFI system partition.
pub fn init_systemd_boot(s: &mut Session, esp_path: &str) -> (r: Result<(), Stop>)
    ensures
        drive(installing_bootloader(esp_path@), old(s)@) == (final(s)@, shown(r)),
{
    reveal(installing_bootloader);
    let msg = cat3("Failed to install systemd-boot to ", esp_path, ": ");
    let command = Command::new("bootctl").arg("--esp-path").arg(esp_path).arg("install");
    must_run(s, Area::Bootloader, command, msg.as_str())
}

/// Creates a subvolume where there is nothing yet, and says so.
#[verifier::opaque]
pub open spec fn providing_subvolume(path: Seq<char>, msg: Seq<char>) -> Try<()> {
    then(
        present(path),
        |there: bool|
            if there {
                ok(())
            } else {
                then(say(Tone::Substep, msg), |u: ()| creating_subvolume(path))
            },
    )
}

/// Creates a subvolume where there is nothing yet, and says so.
fn provide_subvolume(s: &mut Session, path: &str, msg: &str) -> (r: Result<(), Stop>)
    ensures
        drive(providing_subvolume(path@, msg@), old(s)@) == (final(s)@, shown(r)),
{
    broadcast use group_plan;

    reveal(providing_subvolume);
    if s.present(path)? {
        return Ok(());
    }
    s.say(Tone::Substep, msg)?;
    create_subvolume(s, path)
}

/// Installs the bootloader and writes the boot entry, where there is an EFI system partition.
pub open spec fn setting_up_boot(
    mount: Seq<char>,
    l: LiveBoot,
    target: Target,
    esp: Seq<char>,
    live_root: Seq<char>,
) -> Try<()> {
    then(
        present(esp),
        |there: bool|
            if !there {
                ok(())
            } else {
                then(
                    say(Tone::Substep, "Initializing systemd-boot"@),
                    |u: ()|
                        then(
                            installing_bootloader(esp),
                            |u: ()|
                                then(
                                    say(Tone::Substep, "Creating boot entry"@),
                                    |u: ()|
                                        creating_entry(mount, esp, l.boot_entry, target, live_root),
                                ),
                        ),
                )
            },
    )
}

/// Creates the subvolumes of the live boot environment where they do not exist, and sets up
/// the bootloader.
#[verifier::opaque]
pub open spec fn preparing_live_boot(
    mount: Seq<char>,
    l: LiveBoot,
    target: Target,
    esp: Seq<char>,
    live_root: Seq<char>,
    snapshots: Seq<char>,
) -> Try<()> {
    then(
        providing_subvolume(
            joined_path(mount, snapshots),
            "Creating snapshots subvolume: "@ + snapshots,
        ),
        |u: ()|
            then(
                providing_subvolume(
                    joined_path(mount, live_root),
                    "Creating live boot subvolume: "@ + live_root,
                ),
                |u: ()| setting_up_boot(mount, l, target, esp, live_root),
            ),
    )
}

/// Sets up the live boot environment on a mounted target.
pub fn prepare_live_boot(
    s: &mut Session,
    btrfs_mount: &str,
    config: &LiveBootConfig,
    target_config: &TargetConfig,
    esp_mount_path: &str,
    live_boot_subvolume: &str,
    snapshot_subvolume: &str,
) -> (r: Result<(), Stop>)
    ensures
        drive(
            preparing_live_boot(
                btrfs_mount@,
                config.deep_view(),
                target_config.deep_view(),
                esp_mount_path@,
                live_boot_subvolume@,
                snapshot_subvolume@,
            ),
            old(s)@,
        ) == (final(s)@, shown(r)),
{
    broadcast use group_plan;

    reveal(preparing_live_boot);
    let snapshots = join(btrfs_mount, snapshot_subvolume);
    let root = join(btrfs_mount, live_boot_subvolume);
    let snapshots_msg = cat2("Creating snapshots subvolume: ", snapshot_subvolume);
    let root_msg = cat2("Creating live boot subvolume: ", live_boot_subvolume);
    provide_subvolume(s, snapshots.as_str(), snapshots_msg.as_str())?;
    provide_subvolume(s, root.as_str(), root_msg.as_str())?;
    if !s.present(esp_mount_path)? {
        return Ok(());
    }
    s.say(Tone::Substep, "Initializing systemd-boot")?;
    init_systemd_boot(s, esp_mount_path)?;
    s.say(Tone::Substep, "Creating boot entry")?;
    create_boot_entry(
        s,
        btrfs_mount,
        esp_mount_path,
        &config.boot_entry,
        target_config,
        live_boot_subvolume,
    )
}

/// A list of managed options loses all of them.
proof fn lemma_all_managed(options: Seq<Seq<char>>)
    requires
        forall|i: int| 0 <= i < options.len() ==> is_managed(#[trigger] options[i]),
    ensures
        unmanaged(options) == Seq::<Seq<char>>::empty(),
    decreases options.len(),
{
    reveal(Seq::filter);
    if options.len() > 0 {
        let rest = options.drop_last();
        assert forall|i: int| 0 <= i < rest.len() implies is_managed(#[trigger] rest[i]) by {
            assert(rest[i] == options[i]);
        }
        lemma_all_managed(rest);
        assert(is_managed(options[options.len() - 1]));
    }
}

/// A list without managed options keeps all of them.
proof fn lemma_none_managed(options: Seq<Seq<char>>)
    requires
        forall|i: int| 0 <= i < options.len() ==> !is_managed(#[trigger] options[i]),
    ensures
        unmanaged(options) == options,
    decreases options.len(),
{
    reveal(Seq::filter);
    if options.len() > 0 {
        let rest = options.drop_last();
        assert forall|i: int| 0 <= i < rest.len() implies !is_managed(#[trigger] rest[i]) by {
            assert(rest[i] == options[i]);
        }
        lemma_none_managed(rest);
        assert(!is_managed(options[options.len() - 1]));
        assert(rest.push(options.last()) =~= options);
    }
}

/// None of the options that are taken over is managed.
pub(crate) proof fn lemma_unmanaged(options: Seq<Seq<char>>)
    ensures
        forall|i: int|
            0 <= i < unmanaged(options).len() ==> !is_managed(#[trigger] unmanaged(options)[i]),
    decreases options.len(),
{
    reveal(Seq::filter);
    if options.len() > 0 {
        let rest = options.drop_last();
        lemma_unmanaged(rest);
        let all = unmanaged(options);
        assert forall|i: int| 0 <= i < all.len() implies !is_managed(#[trigger] all[i]) by {
            if i < unmanaged(rest).len() {
                assert(all[i] == unmanaged(rest)[i]);
            }
        }
    }
}

/// The options that are added are managed, and only one of them names the root device.
proof fn lemma_added_options(
    root_device: Seq<char>,
    live_root: Seq<char>,
    luks: Option<LuksBoot>,
)
    ensures
        ({
            let added = added_options(root_device, live_root, luks);
            &&& forall|i: int| 0 <= i < added.len() ==> is_managed(#[trigger] added[i])
            &&& forall|i: int|
                0 <= i < added.len() ==> ("root="@.is_prefix_of(#[trigger] added[i]) <==> i
                    == added.len() - 3)
        }),
{
    reveal_strlit("rd.luks.");
    reveal_strlit("rd.luks.name=");
    reveal_strlit("rd.luks.options=");
    reveal_strlit("rootflags=");
    reveal_strlit("rootflags=x-systemd.device-timeout=0");
    reveal_strlit("rootflags=subvol=");
    reveal_strlit("root=");
    reveal_strlit("rw");
    let added = added_options(root_device, live_root, luks);
    let r = added.len() - 3;
    let root = "root="@ + root_device;
    let flags = "rootflags=subvol="@ + live_root + "/root_vol"@;
    assert(added[r] == root && added[r + 1] == "rw"@ && added[r + 2] == flags);
    assert(root.subrange(0, 5) =~= "root="@);
    assert("root="@.is_prefix_of(root));
    assert(flags.subrange(0, 10) =~= "rootflags="@);
    assert("rootflags="@.is_prefix_of(flags));
    assert(flags[4] == 'f' && "root="@[4] == '=');
    assert(!"root="@.is_prefix_of(flags));
    assert(!"root="@.is_prefix_of("rw"@));
    if let Some(l) = luks {
        let name = "rd.luks.name="@ + l.luks_uuid + "="@ + l.mapping_name;
        let opts = "rd.luks.options="@ + l.luks_uuid
            + "=keyfile-timeout=3s,timeout=0,discard,password-echo=masked,tries=0"@;
        let wait = "rootflags=x-systemd.device-timeout=0"@;
        assert(added[0] == name && added[1] == opts && added[2] == wait);
        assert(name.subrange(0, 8) =~= "rd.luks."@);
        assert("rd.luks."@.is_prefix_of(name));
        assert(opts.subrange(0, 8) =~= "rd.luks."@);
        assert("rd.luks."@.is_prefix_of(opts));
        assert(wait.subrange(0, 10) =~= "rootflags="@);
        assert("rootflags="@.is_prefix_of(wait));
        assert(name[1] == 'd' && opts[1] == 'd' && wait[4] == 'f' && "root="@[1] == 'o');
        assert(!"root="@.is_prefix_of(name));
        assert(!"root="@.is_prefix_of(opts));
        assert(!"root="@.is_prefix_of(wait));
    }
}

/// The kernel options begin with those of the configuration that are not managed, in their
/// order. Exactly one option names the root device, and it is the given one. Building the
/// options from options that were built before gives the same again.
pub proof fn lemma_entry_options(
    options: Seq<Seq<char>>,
    root_device: Seq<char>,
    live_root: Seq<char>,
    luks: Option<LuksBoot>,
)
    ensures
        ({
            let built = entry_options(options, root_device, live_root, luks);
            let n = built.len();
            &&& unmanaged(options).is_prefix_of(built)
            &&& n >= 3
            &&& built[n - 3] == "root="@ + root_device
            &&& forall|i: int|
                0 <= i < n ==> ("root="@.is_prefix_of(#[trigger] built[i]) <==> i == n - 3)
            &&& entry_options(built, root_device, live_root, luks) == built
        }),
{
    let kept = unmanaged(options);
    let added = added_options(root_device, live_root, luks);
    let built = entry_options(options, root_device, live_root, luks);
    assert(built =~= kept + added);
    lemma_unmanaged(options);
    lemma_added_options(root_device, live_root, luks);
    lemma_none_managed(kept);
    lemma_all_managed(added);
    Seq::filter_distributes_over_add(kept, added, |o: Seq<char>| !is_managed(o));
    assert(unmanaged(built) =~= kept);
    assert(built.take(kept.len() as int) =~= kept);
    assert forall|i: int| 0 <= i < built.len() implies ("root="@.is_prefix_of(
        #[trigger] built[i],
    ) <==> i == built.len() - 3) by {
        if i < kept.len() {
            assert(built[i] == kept[i]);
            assert(!is_managed(kept[i]));
        } else {
            assert(built[i] == added[i - kept.len()]);
        }
    }
}

}
