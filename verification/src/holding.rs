//! What a procedure holds while it runs: mounts, unlocked devices, temporary directories and
//! locks. Whatever happens, a backup gives back all that it took.

use crate::backup::{
    acquiring, announcing, backing_up, backing_up_all, backing_up_each, backing_up_one,
    backing_up_to_target, conclusion, finally, last_step, locking_step, locks_dir, mounting_esp,
    mounting_location, mounting_target, preparing, preparing_mounted, preparing_on_target, running,
    sending, steps_of, summing_up, telling_outcomes, telling_sources, updating_after, updating_live,
    updating_subvolume, updating_subvolumes, working, Outcome,
};
use crate::btrfs::{
    checking_filesystem, checking_subvolume, clearing_up, creating_snapshot, creating_snapshot_rw,
    creating_subvolume, deleting_subvolume, discarding, ensuring_dir, installing, judging_transfer,
    making_room, receiving_as, renaming, replacing_by_send, replacing_by_snapshot, restoring,
    setting_aside, settling, swapping, transferring, Swap,
};
use crate::command_runner::{commanding, complaining, ignoring, launching, querying, Area};
use crate::config::{
    judging, validating, validating_encryption, validating_live_boot, validating_rest,
    validating_source, validating_sources, validating_target, BootEntry, Encryption, HookConfig,
    LiveBoot, Location, Setup, Source, Target,
};
use crate::device::{
    checking_luks_at, checking_mounted, closing, guarding, guarding_encrypted, guarding_unlocked,
    mounting, mounting_managed, opening_at, opening_with_passphrase, releasing, resolving,
    unmounting, warning_of, Mounted,
};
use crate::error::{fault_text, Fault};
use crate::hooks::{
    copying, copying_kernel, dropping, emptying, finding_esp_uuid, finding_root_uuid, finding_uuid,
    generating_fstab, keeping_copy, regenerating_fstab, removing_files, removing_snapper,
    running_hooks, telling_entries,
};
use crate::journal::{
    ask, asking, call, drive, fetch, group_plan, ok, perform, present, say, then, Answer, Ask, Call,
    Log, Plan, Printed, Sent, Tone, TransferStats, Try,
};
use crate::liveboot::{
    creating_entry, finding_luks, finding_luks_uuid, finding_root, installing_bootloader,
    preparing_live_boot, providing_subvolume, resolving_target, setting_up_boot,
};
use crate::path::joined_path;
use crate::snapshot::{
    cleaning, cleaning_by_snapper, creating_by_snapper, creating_local, creating_manual,
    creating_with_parent, deleting_if_there, deleting_listed, finding_previous, finding_subvolume,
    keeping_previous, listing, Owned,
};
use crate::text::decimal;
use crate::trace::{extends, group_only, lemma_drive_extends, only, settled};
use crate::ui::{command_text, step_text};
use vstd::prelude::*;

verus! {

/// Something that has to be given back.
pub enum Hold {
    /// A mount, by its mount point.
    Mount(Seq<char>),
    /// An unlocked device, by its name.
    Mapping(Seq<char>),
    /// A temporary directory.
    TempDir(Seq<char>),
    /// A lock file.
    Lock(Seq<char>),
}

/// Where a command mounts something.
pub open spec fn mounts(c: Call) -> Option<Seq<char>> {
    if c.program == "mount"@ && c.args.len() == 2 {
        Some(c.args[1])
    } else {
        None
    }
}

/// Where a command unmounts something.
pub open spec fn unmounts(c: Call) -> Option<Seq<char>> {
    if c.program == "umount"@ && c.args.len() == 1 {
        Some(c.args[0])
    } else {
        None
    }
}

/// The name under which a command unlocks a device.
pub open spec fn unlocks(c: Call) -> Option<Seq<char>> {
    if c.program == "cryptsetup"@ && c.args.len() > 1 && c.args[0] == "open"@ {
        Some(c.args.last())
    } else {
        None
    }
}

/// The unlocked device that a command locks.
pub open spec fn locks_again(c: Call) -> Option<Seq<char>> {
    if c.program == "cryptsetup"@ && c.args.len() == 2 && c.args[0] == "close"@ {
        Some(c.args[1])
    } else {
        None
    }
}

/// The answer says that a command was successful.
pub open spec fn succeeded(a: Answer) -> bool {
    a matches Answer::Ran(o) && o.success
}

/// The request, answered in this way, takes `h`.
pub open spec fn takes(q: Ask, a: Answer, h: Hold) -> bool {
    match (q, h) {
        (Ask::MakeTempDir, Hold::TempDir(d)) => a == Answer::Text(d),
        (Ask::TryLock(p), Hold::Lock(l)) => p == l && a is Done,
        (Ask::Run(c), Hold::Mount(d)) => mounts(c) == Some(d) && succeeded(a),
        (Ask::Run(c), Hold::Mapping(m)) => unlocks(c) == Some(m) && succeeded(a),
        _ => false,
    }
}

/// The request gives `h` back. Where the system refuses, there is nothing more to be done.
pub open spec fn gives(q: Ask, h: Hold) -> bool {
    match (q, h) {
        (Ask::RemoveTempDir(p), Hold::TempDir(d)) => p == d,
        (Ask::Unlock(p), Hold::Lock(l)) => p == l,
        (Ask::Run(c), Hold::Mount(d)) => unmounts(c) == Some(d),
        (Ask::Run(c), Hold::Mapping(m)) => locks_again(c) == Some(m),
        _ => false,
    }
}

/// How often `h` has to be given back after a request, where it was `n` times before.
pub open spec fn owing(n: nat, q: Ask, a: Answer, h: Hold) -> nat {
    if takes(q, a, h) {
        n + 1
    } else if gives(q, h) && n > 0 {
        (n - 1) as nat
    } else {
        n
    }
}

/// How often `h` has to be given back after all these requests.
pub open spec fn owed(asked: Seq<Ask>, answers: Seq<Answer>, h: Hold) -> nat
    decreases asked.len(),
{
    if asked.len() == 0 {
        0
    } else {
        owing(
            owed(asked.drop_last(), answers, h),
            asked.last(),
            answers[asked.len() - 1],
            h,
        )
    }
}

/// How often `h` has to be given back at this point.
pub open spec fn due(log: Log, h: Hold) -> nat {
    owed(log.asked, log.answers, h)
}

/// The request neither takes nor gives back anything.
pub open spec fn keeps_hands_off(q: Ask) -> bool {
    match q {
        Ask::MakeTempDir | Ask::RemoveTempDir(_) | Ask::TryLock(_) | Ask::Unlock(_) => false,
        Ask::Run(c) => mounts(c) is None && unmounts(c) is None && unlocks(c) is None
            && locks_again(c) is None,
        _ => true,
    }
}

/// `keeps_hands_off` as a predicate on requests.
pub open spec fn hands_off() -> spec_fn(Ask) -> bool {
    |q: Ask| keeps_hands_off(q)
}

/// The programs that are run are all different, as are the commands of `cryptsetup`.
pub(crate) proof fn lemma_programs()
    ensures
        "btrfs"@ != "mount"@ && "btrfs"@ != "umount"@ && "btrfs"@ != "cryptsetup"@,
        "snapper"@ != "mount"@ && "snapper"@ != "umount"@ && "snapper"@ != "cryptsetup"@,
        "findmnt"@ != "mount"@ && "findmnt"@ != "umount"@ && "findmnt"@ != "cryptsetup"@,
        "findfs"@ != "mount"@ && "findfs"@ != "umount"@ && "findfs"@ != "cryptsetup"@,
        "bootctl"@ != "mount"@ && "bootctl"@ != "umount"@ && "bootctl"@ != "cryptsetup"@,
        "mount"@ != "umount"@ && "mount"@ != "cryptsetup"@ && "umount"@ != "cryptsetup"@,
        "isLuks"@ != "open"@ && "isLuks"@ != "close"@,
        "luksUUID"@ != "open"@ && "luksUUID"@ != "close"@,
        "open"@ != "close"@,
{
    reveal_strlit("btrfs");
    reveal_strlit("snapper");
    reveal_strlit("findmnt");
    reveal_strlit("findfs");
    reveal_strlit("bootctl");
    reveal_strlit("mount");
    reveal_strlit("umount");
    reveal_strlit("cryptsetup");
    reveal_strlit("isLuks");
    reveal_strlit("luksUUID");
    reveal_strlit("open");
    reveal_strlit("close");
    assert("btrfs"@[0] != "mount"@[0]);
    assert("findfs"@[0] != "umount"@[0]);
    assert("bootctl"@[0] != "mount"@[0]);
    assert("snapper"@[0] != "mount"@[0]);
    assert("snapper"@[0] != "umount"@[0]);
    assert("snapper"@[0] != "cryptsetup"@[0]);
    assert("findmnt"@[0] != "mount"@[0]);
    assert("findmnt"@[0] != "umount"@[0]);
    assert("findmnt"@[0] != "cryptsetup"@[0]);
    assert("isLuks"@.len() != "open"@.len());
    assert("luksUUID"@.len() != "open"@.len());
}

broadcast proof fn lemma_hands_off_launching(c: Call)
    requires
        keeps_hands_off(Ask::Run(c)),
    ensures
        #[trigger] only(launching(c), hands_off()),
{
    broadcast use group_only;

    reveal(launching);
}

broadcast proof fn lemma_hands_off_querying(c: Call)
    requires
        keeps_hands_off(Ask::Run(c)),
    ensures
        #[trigger] only(querying(c), hands_off()),
{
    broadcast use group_only;

    reveal(querying);
}

pub(crate) broadcast proof fn lemma_hands_off_complaining<T>(area: Area, msg: Seq<char>, o: Printed)
    ensures
        #[trigger] only(complaining::<T>(area, msg, o), hands_off()),
{
    broadcast use group_only;

    reveal(complaining);
}

broadcast proof fn lemma_hands_off_commanding(area: Area, c: Call, msg: Seq<char>)
    requires
        keeps_hands_off(Ask::Run(c)),
    ensures
        #[trigger] only(commanding(area, c, msg), hands_off()),
{
    broadcast use {group_only, lemma_hands_off_launching, lemma_hands_off_complaining};

    reveal(commanding);
}

broadcast proof fn lemma_hands_off_checking_subvolume(path: Seq<char>)
    ensures
        #[trigger] only(checking_subvolume(path), hands_off()),
{
    broadcast use {group_only, lemma_hands_off_querying};

    lemma_programs();
    reveal(checking_subvolume);
}

broadcast proof fn lemma_hands_off_creating_snapshot(source: Seq<char>, dest: Seq<char>)
    ensures
        #[trigger] only(creating_snapshot(source, dest), hands_off()),
{
    broadcast use {group_only, lemma_hands_off_commanding};

    lemma_programs();
    reveal(creating_snapshot);
}

broadcast proof fn lemma_hands_off_creating_snapshot_rw(source: Seq<char>, dest: Seq<char>)
    ensures
        #[trigger] only(creating_snapshot_rw(source, dest), hands_off()),
{
    broadcast use {group_only, lemma_hands_off_commanding};

    lemma_programs();
    reveal(creating_snapshot_rw);
}

broadcast proof fn lemma_hands_off_creating_subvolume(path: Seq<char>)
    ensures
        #[trigger] only(creating_subvolume(path), hands_off()),
{
    broadcast use {group_only, lemma_hands_off_commanding};

    lemma_programs();
    reveal(creating_subvolume);
}

broadcast proof fn lemma_hands_off_deleting_subvolume(path: Seq<char>)
    ensures
        #[trigger] only(deleting_subvolume(path), hands_off()),
{
    broadcast use {group_only, lemma_hands_off_commanding};

    lemma_programs();
    reveal(deleting_subvolume);
}

broadcast proof fn lemma_hands_off_checking_filesystem(path: Seq<char>)
    ensures
        #[trigger] only(checking_filesystem(path), hands_off()),
{
    broadcast use {group_only, lemma_hands_off_querying};

    lemma_programs();
    reveal(checking_filesystem);
}

broadcast proof fn lemma_hands_off_renaming(old_path: Seq<char>, new_path: Seq<char>)
    ensures
        #[trigger] only(renaming(old_path, new_path), hands_off()),
{
    broadcast use {group_only, lemma_hands_off_checking_subvolume};

    reveal(renaming);
}

broadcast proof fn lemma_hands_off_judging_transfer(source: Seq<char>, dest: Seq<char>, sent: Sent)
    ensures
        #[trigger] only(judging_transfer(source, dest, sent), hands_off()),
{
    broadcast use {group_only, lemma_hands_off_complaining};

    reveal(judging_transfer);
}

broadcast proof fn lemma_hands_off_transferring(
    source: Seq<char>,
    parent: Option<Seq<char>>,
    dest: Seq<char>,
)
    ensures
        #[trigger] only(transferring(source, parent, dest), hands_off()),
{
    broadcast use {group_only, lemma_hands_off_judging_transfer};

    reveal(transferring);
}

broadcast proof fn lemma_hands_off_ensuring_dir(dir: Seq<char>)
    ensures
        #[trigger] only(ensuring_dir(dir), hands_off()),
{
    broadcast use group_only;

    reveal(ensuring_dir);
}

broadcast proof fn lemma_hands_off_setting_aside(target: Seq<char>, backup: Seq<char>)
    ensures
        #[trigger] only(setting_aside(target, backup), hands_off()),
{
    broadcast use {group_only, lemma_hands_off_renaming};

    reveal(setting_aside);
}

broadcast proof fn lemma_hands_off_installing(
    new: Seq<char>,
    target: Seq<char>,
    aside: bool,
    backup: Seq<char>,
)
    ensures
        #[trigger] only(installing(new, target, aside, backup), hands_off()),
{
    broadcast use {group_only, lemma_hands_off_deleting_subvolume, lemma_hands_off_renaming};

    reveal(installing);
}

broadcast proof fn lemma_hands_off_discarding(aside: bool, backup: Seq<char>)
    ensures
        #[trigger] only(discarding(aside, backup), hands_off()),
{
    broadcast use {group_only, lemma_hands_off_deleting_subvolume};

    reveal(discarding);
}

broadcast proof fn lemma_hands_off_replacing_by_snapshot(
    target: Seq<char>,
    source: Seq<char>,
    suffix: Seq<char>,
)
    ensures
        #[trigger] only(replacing_by_snapshot(target, source, suffix), hands_off()),
{
    broadcast use {
        group_only, lemma_hands_off_creating_snapshot_rw, lemma_hands_off_setting_aside,
        lemma_hands_off_installing, lemma_hands_off_discarding,
    };

    reveal(replacing_by_snapshot);
}

broadcast proof fn lemma_hands_off_restoring(w: Swap)
    ensures
        #[trigger] only(restoring(w), hands_off()),
{
    broadcast use {group_only, lemma_hands_off_renaming};

    reveal(restoring);
}

broadcast proof fn lemma_hands_off_clearing_up(w: Swap, stats: TransferStats)
    ensures
        #[trigger] only(clearing_up(w, stats), hands_off()),
{
    broadcast use {group_only, lemma_hands_off_renaming, lemma_hands_off_discarding};

    reveal(clearing_up);
}

broadcast proof fn lemma_hands_off_settling(w: Swap, rename: bool, stats: TransferStats)
    ensures
        #[trigger] only(settling(w, rename, stats), hands_off()),
{
    broadcast use {
        group_only, lemma_hands_off_checking_subvolume, lemma_hands_off_deleting_subvolume,
        lemma_hands_off_renaming, lemma_hands_off_restoring, lemma_hands_off_clearing_up,
    };

    reveal(settling);
}

broadcast proof fn lemma_hands_off_swapping(
    w: Swap,
    rename: bool,
    source: Seq<char>,
    parent: Option<Seq<char>>,
    dest: Seq<char>,
)
    ensures
        #[trigger] only(swapping(w, rename, source, parent, dest), hands_off()),
{
    broadcast use {
        group_only, lemma_hands_off_transferring, lemma_hands_off_restoring,
        lemma_hands_off_settling,
    };

}

broadcast proof fn lemma_hands_off_making_room(w: Swap)
    ensures
        #[trigger] only(making_room(w), hands_off()),
{
    broadcast use {group_only, lemma_hands_off_renaming};

    reveal(making_room);
}

broadcast proof fn lemma_hands_off_receiving_as(
    source: Seq<char>,
    parent: Option<Seq<char>>,
    dest: Seq<char>,
    suffix: Seq<char>,
    name: Seq<char>,
    base: Seq<char>,
)
    ensures
        #[trigger] only(receiving_as(source, parent, dest, suffix, name, base), hands_off()),
{
    broadcast use {
        group_only, lemma_hands_off_checking_subvolume, lemma_hands_off_swapping,
        lemma_hands_off_making_room,
    };

    reveal(receiving_as);
}

broadcast proof fn lemma_hands_off_replacing_by_send(
    source: Seq<char>,
    parent: Option<Seq<char>>,
    dest: Seq<char>,
    suffix: Seq<char>,
    target_name: Option<Seq<char>>,
)
    ensures
        #[trigger] only(replacing_by_send(source, parent, dest, suffix, target_name), hands_off()),
{
    broadcast use {group_only, lemma_hands_off_ensuring_dir, lemma_hands_off_receiving_as};

    reveal(replacing_by_send);
}

broadcast proof fn lemma_hands_off_judging(r: Result<bool, Fault>, no: Seq<char>, what: Seq<char>)
    ensures
        #[trigger] only(judging(r, no, what), hands_off()),
{
    broadcast use group_only;

    reveal(judging);
}

broadcast proof fn lemma_hands_off_validating_source(source: Source)
    ensures
        #[trigger] only(validating_source(source), hands_off()),
{
    broadcast use {group_only, lemma_hands_off_checking_subvolume, lemma_hands_off_judging};

    reveal(validating_source);
}

broadcast proof fn lemma_hands_off_validating_sources(sources: Seq<Source>, i: int)
    ensures
        #[trigger] only(validating_sources(sources, i), hands_off()),
    decreases sources.len() - i,
{
    broadcast use {group_only, lemma_hands_off_validating_source};

    if 0 <= i < sources.len() {
        lemma_hands_off_validating_sources(sources, i + 1);
    }
}

broadcast proof fn lemma_hands_off_validating_target(location: Location)
    ensures
        #[trigger] only(validating_target(location), hands_off()),
{
    broadcast use {group_only, lemma_hands_off_checking_filesystem, lemma_hands_off_judging};

    reveal(validating_target);
}

broadcast proof fn lemma_hands_off_validating_live_boot(l: LiveBoot)
    ensures
        #[trigger] only(validating_live_boot(l), hands_off()),
{
    broadcast use group_only;

    reveal(validating_live_boot);
}

broadcast proof fn lemma_hands_off_validating_encryption(e: Encryption)
    ensures
        #[trigger] only(validating_encryption(e), hands_off()),
{
    broadcast use group_only;

    reveal(validating_encryption);
}

broadcast proof fn lemma_hands_off_validating_rest(c: Setup)
    ensures
        #[trigger] only(validating_rest(c), hands_off()),
{
    broadcast use {
        group_only, lemma_hands_off_validating_live_boot, lemma_hands_off_validating_encryption,
    };

}

broadcast proof fn lemma_hands_off_validating(c: Setup)
    ensures
        #[trigger] only(validating(c), hands_off()),
{
    broadcast use {
        group_only, lemma_hands_off_validating_sources, lemma_hands_off_validating_target,
        lemma_hands_off_validating_rest,
    };

    reveal(validating);
}

pub(crate) broadcast proof fn lemma_hands_off_resolving(device: Seq<char>)
    ensures
        #[trigger] only(resolving(device), hands_off()),
{
    broadcast use {group_only, lemma_hands_off_querying, lemma_hands_off_complaining};

    lemma_programs();
    reveal(resolving);
}

broadcast proof fn lemma_hands_off_checking_mounted(path: Seq<char>)
    ensures
        #[trigger] only(checking_mounted(path), hands_off()),
{
    broadcast use {group_only, lemma_hands_off_querying};

    lemma_programs();
    reveal(checking_mounted);
}

broadcast proof fn lemma_hands_off_checking_luks_at(device: Seq<char>)
    ensures
        #[trigger] only(checking_luks_at(device), hands_off()),
{
    broadcast use {group_only, lemma_hands_off_querying};

    lemma_programs();
    reveal(checking_luks_at);
}

broadcast proof fn lemma_hands_off_finding_uuid(mount_point: Seq<char>)
    ensures
        #[trigger] only(finding_uuid(mount_point), hands_off()),
{
    broadcast use {group_only, lemma_hands_off_querying};

    lemma_programs();
    reveal(finding_uuid);
}

broadcast proof fn lemma_hands_off_copying(
    from: Seq<char>,
    to: Seq<char>,
    copied: Seq<char>,
    missing: Option<Seq<char>>,
)
    ensures
        #[trigger] only(copying(from, to, copied, missing), hands_off()),
{
    broadcast use group_only;

    reveal(copying);
}

broadcast proof fn lemma_hands_off_copying_kernel(
    root_vol: Seq<char>,
    esp: Seq<char>,
    entry: BootEntry,
)
    ensures
        #[trigger] only(copying_kernel(root_vol, esp, entry), hands_off()),
{
    broadcast use {group_only, lemma_hands_off_copying};

    reveal(copying_kernel);
}

broadcast proof fn lemma_hands_off_finding_root_uuid(target_mount: Seq<char>)
    ensures
        #[trigger] only(finding_root_uuid(target_mount), hands_off()),
{
    broadcast use {group_only, lemma_hands_off_finding_uuid};

}

broadcast proof fn lemma_hands_off_finding_esp_uuid(mount_dir: Seq<char>, esp: Seq<char>)
    ensures
        #[trigger] only(finding_esp_uuid(mount_dir, esp), hands_off()),
{
    broadcast use {group_only, lemma_hands_off_finding_uuid};

}

broadcast proof fn lemma_hands_off_generating_fstab(
    root_vol: Seq<char>,
    target_mount: Seq<char>,
    esp: Seq<char>,
    c: Setup,
)
    ensures
        #[trigger] only(generating_fstab(root_vol, target_mount, esp, c), hands_off()),
{
    broadcast use {group_only, lemma_hands_off_finding_root_uuid, lemma_hands_off_finding_esp_uuid};

    reveal(generating_fstab);
}

broadcast proof fn lemma_hands_off_telling_entries(entries: Seq<Seq<char>>, i: int)
    ensures
        #[trigger] only(telling_entries(entries, i), hands_off()),
    decreases entries.len() - i,
{
    broadcast use group_only;

    if 0 <= i < entries.len() {
        lemma_hands_off_telling_entries(entries, i + 1);
    }
}

broadcast proof fn lemma_hands_off_keeping_copy(path: Seq<char>, backup: Seq<char>)
    ensures
        #[trigger] only(keeping_copy(path, backup), hands_off()),
{
    broadcast use group_only;

}

broadcast proof fn lemma_hands_off_regenerating_fstab(
    root_vol: Seq<char>,
    target_mount: Seq<char>,
    esp: Seq<char>,
    c: Setup,
)
    ensures
        #[trigger] only(regenerating_fstab(root_vol, target_mount, esp, c), hands_off()),
{
    broadcast use {
        group_only, lemma_hands_off_generating_fstab, lemma_hands_off_telling_entries,
        lemma_hands_off_keeping_copy,
    };

    reveal(regenerating_fstab);
}

broadcast proof fn lemma_hands_off_removing_files(paths: Seq<Seq<char>>, i: int)
    ensures
        #[trigger] only(removing_files(paths, i), hands_off()),
    decreases paths.len() - i,
{
    broadcast use group_only;

    if 0 <= i < paths.len() {
        lemma_hands_off_removing_files(paths, i + 1);
    }
}

broadcast proof fn lemma_hands_off_emptying(dir: Seq<char>)
    ensures
        #[trigger] only(emptying(dir), hands_off()),
{
    broadcast use {group_only, lemma_hands_off_removing_files};

    reveal(emptying);
}

broadcast proof fn lemma_hands_off_dropping(path: Seq<char>)
    ensures
        #[trigger] only(dropping(path), hands_off()),
{
    broadcast use group_only;

    reveal(dropping);
}

broadcast proof fn lemma_hands_off_removing_snapper(root: Seq<char>)
    ensures
        #[trigger] only(removing_snapper(root), hands_off()),
{
    broadcast use {group_only, lemma_hands_off_emptying, lemma_hands_off_dropping};

    reveal(removing_snapper);
}

broadcast proof fn lemma_hands_off_running_hooks(
    live_boot_path: Seq<char>,
    target_mount: Seq<char>,
    esp: Seq<char>,
    hooks: HookConfig,
    entry: BootEntry,
    c: Setup,
)
    ensures
        #[trigger] only(
            running_hooks(live_boot_path, target_mount, esp, hooks, entry, c),
            hands_off(),
        ),
{
    broadcast use {
        group_only, lemma_hands_off_copying_kernel, lemma_hands_off_regenerating_fstab,
        lemma_hands_off_removing_snapper,
    };

    reveal(running_hooks);
}

broadcast proof fn lemma_hands_off_resolving_target(device: Seq<char>)
    ensures
        #[trigger] only(resolving_target(device), hands_off()),
{
    broadcast use {group_only, lemma_hands_off_querying};

    lemma_programs();
    reveal(resolving_target);
}

broadcast proof fn lemma_hands_off_finding_luks_uuid(device: Seq<char>)
    ensures
        #[trigger] only(finding_luks_uuid(device), hands_off()),
{
    broadcast use {group_only, lemma_hands_off_querying};

    lemma_programs();
    reveal(finding_luks_uuid);
}

broadcast proof fn lemma_hands_off_finding_luks(target: Target)
    ensures
        #[trigger] only(finding_luks(target), hands_off()),
{
    broadcast use {group_only, lemma_hands_off_resolving_target, lemma_hands_off_finding_luks_uuid};

    reveal(finding_luks);
}

broadcast proof fn lemma_hands_off_finding_root(mount_point: Seq<char>)
    ensures
        #[trigger] only(finding_root(mount_point), hands_off()),
{
    broadcast use {group_only, lemma_hands_off_querying};

    lemma_programs();
    reveal(finding_root);
}

broadcast proof fn lemma_hands_off_creating_entry(
    mount: Seq<char>,
    esp: Seq<char>,
    entry: BootEntry,
    target: Target,
    live_root: Seq<char>,
)
    ensures
        #[trigger] only(creating_entry(mount, esp, entry, target, live_root), hands_off()),
{
    broadcast use {group_only, lemma_hands_off_finding_luks, lemma_hands_off_finding_root};

    reveal(creating_entry);
}

broadcast proof fn lemma_hands_off_installing_bootloader(esp: Seq<char>)
    ensures
        #[trigger] only(installing_bootloader(esp), hands_off()),
{
    broadcast use {group_only, lemma_hands_off_commanding};

    lemma_programs();
    reveal(installing_bootloader);
}

broadcast proof fn lemma_hands_off_providing_subvolume(path: Seq<char>, msg: Seq<char>)
    ensures
        #[trigger] only(providing_subvolume(path, msg), hands_off()),
{
    broadcast use {group_only, lemma_hands_off_creating_subvolume};

    reveal(providing_subvolume);
}

broadcast proof fn lemma_hands_off_setting_up_boot(
    mount: Seq<char>,
    l: LiveBoot,
    target: Target,
    esp: Seq<char>,
    live_root: Seq<char>,
)
    ensures
        #[trigger] only(setting_up_boot(mount, l, target, esp, live_root), hands_off()),
{
    broadcast use {
        group_only, lemma_hands_off_creating_entry, lemma_hands_off_installing_bootloader,
    };

}

broadcast proof fn lemma_hands_off_preparing_live_boot(
    mount: Seq<char>,
    l: LiveBoot,
    target: Target,
    esp: Seq<char>,
    live_root: Seq<char>,
    snapshots: Seq<char>,
)
    ensures
        #[trigger] only(
            preparing_live_boot(mount, l, target, esp, live_root, snapshots),
            hands_off(),
        ),
{
    broadcast use {
        group_only, lemma_hands_off_providing_subvolume, lemma_hands_off_setting_up_boot,
    };

    reveal(preparing_live_boot);
}

broadcast proof fn lemma_hands_off_finding_subvolume(path: Seq<char>)
    ensures
        #[trigger] only(finding_subvolume(path), hands_off()),
{
    broadcast use {group_only, lemma_hands_off_checking_subvolume};

    reveal(finding_subvolume);
}

broadcast proof fn lemma_hands_off_deleting_if_there(path: Seq<char>, msg: Seq<char>)
    ensures
        #[trigger] only(deleting_if_there(path, msg), hands_off()),
{
    broadcast use {
        group_only, lemma_hands_off_deleting_subvolume, lemma_hands_off_finding_subvolume,
    };

    reveal(deleting_if_there);
}

broadcast proof fn lemma_hands_off_keeping_previous(path: Seq<char>, prev: Seq<char>)
    ensures
        #[trigger] only(keeping_previous(path, prev), hands_off()),
{
    broadcast use {group_only, lemma_hands_off_renaming, lemma_hands_off_finding_subvolume};

}

broadcast proof fn lemma_hands_off_creating_manual(
    source: Source,
    source_path: Seq<char>,
    dir: Seq<char>,
    config: Seq<char>,
)
    ensures
        #[trigger] only(creating_manual(source, source_path, dir, config), hands_off()),
{
    broadcast use {
        group_only, lemma_hands_off_creating_snapshot, lemma_hands_off_deleting_if_there,
        lemma_hands_off_keeping_previous,
    };

    reveal(creating_manual);
}

broadcast proof fn lemma_hands_off_creating_by_snapper(w: Owned)
    ensures
        #[trigger] only(creating_by_snapper(w), hands_off()),
{
    broadcast use {group_only, lemma_hands_off_launching, lemma_hands_off_complaining};

    lemma_programs();
    reveal(creating_by_snapper);
}

broadcast proof fn lemma_hands_off_listing(w: Owned)
    ensures
        #[trigger] only(listing(w), hands_off()),
{
    broadcast use group_only;

    lemma_programs();
    reveal(listing);
}

broadcast proof fn lemma_hands_off_finding_previous(w: Owned, dir: Seq<char>)
    ensures
        #[trigger] only(finding_previous(w, dir), hands_off()),
{
    broadcast use {group_only, lemma_hands_off_checking_subvolume, lemma_hands_off_listing};

    reveal(finding_previous);
}

broadcast proof fn lemma_hands_off_creating_with_parent(w: Owned, dir: Seq<char>)
    ensures
        #[trigger] only(creating_with_parent(w, dir), hands_off()),
{
    broadcast use {
        group_only, lemma_hands_off_checking_subvolume, lemma_hands_off_creating_by_snapper,
        lemma_hands_off_finding_previous,
    };

    reveal(creating_with_parent);
}

broadcast proof fn lemma_hands_off_creating_local(w: Owned)
    ensures
        #[trigger] only(creating_local(w), hands_off()),
{
    broadcast use {
        group_only, lemma_hands_off_checking_subvolume, lemma_hands_off_ensuring_dir,
        lemma_hands_off_creating_manual, lemma_hands_off_creating_with_parent,
    };

    reveal(creating_local);
}

broadcast proof fn lemma_hands_off_deleting_listed(config: Seq<char>, ids: Seq<u64>, i: int)
    ensures
        #[trigger] only(deleting_listed(config, ids, i), hands_off()),
    decreases ids.len() - i,
{
    broadcast use group_only;

    lemma_programs();
    if 0 <= i < ids.len() {
        lemma_hands_off_deleting_listed(config, ids, i + 1);
    }
}

broadcast proof fn lemma_hands_off_cleaning_by_snapper(w: Owned)
    ensures
        #[trigger] only(cleaning_by_snapper(w), hands_off()),
{
    broadcast use {group_only, lemma_hands_off_listing, lemma_hands_off_deleting_listed};

    reveal(cleaning_by_snapper);
}

broadcast proof fn lemma_hands_off_cleaning(w: Owned, parent: Option<Seq<char>>)
    ensures
        #[trigger] only(cleaning(w, parent), hands_off()),
{
    broadcast use {
        group_only, lemma_hands_off_deleting_if_there, lemma_hands_off_cleaning_by_snapper,
    };

    reveal(cleaning);
}

broadcast proof fn lemma_hands_off_sending(
    source: Source,
    target: Target,
    snapshot: Seq<char>,
    parent: Option<Seq<char>>,
    mount: Seq<char>,
)
    ensures
        #[trigger] only(sending(source, target, snapshot, parent, mount), hands_off()),
{
    broadcast use {group_only, lemma_hands_off_ensuring_dir, lemma_hands_off_replacing_by_send};

    reveal(sending);
}

broadcast proof fn lemma_hands_off_backing_up(
    source: Source,
    target: Target,
    mount: Seq<char>,
    config: Seq<char>,
)
    ensures
        #[trigger] only(backing_up(source, target, mount, config), hands_off()),
{
    broadcast use {
        group_only, lemma_hands_off_creating_local, lemma_hands_off_cleaning,
        lemma_hands_off_sending,
    };

    reveal(backing_up);
}

broadcast proof fn lemma_hands_off_updating_subvolume(
    live_boot_path: Seq<char>,
    snapshot: Seq<char>,
    name: Seq<char>,
)
    ensures
        #[trigger] only(updating_subvolume(live_boot_path, snapshot, name), hands_off()),
{
    broadcast use {group_only, lemma_hands_off_replacing_by_snapshot};

    reveal(updating_subvolume);
}

broadcast proof fn lemma_hands_off_updating_subvolumes(c: Setup, mount: Seq<char>, i: int)
    ensures
        #[trigger] only(updating_subvolumes(c, mount, i), hands_off()),
    decreases c.sources.len() - i,
{
    broadcast use {
        group_only, lemma_hands_off_checking_subvolume, lemma_hands_off_updating_subvolume,
    };

    if 0 <= i < c.sources.len() {
        lemma_hands_off_updating_subvolumes(c, mount, i + 1);
    }
}

broadcast proof fn lemma_hands_off_backing_up_one(c: Setup, mount: Seq<char>, i: int)
    ensures
        #[trigger] only(backing_up_one(c, mount, i), hands_off()),
{
    broadcast use {group_only, lemma_hands_off_backing_up};

    reveal(backing_up_one);
}

broadcast proof fn lemma_hands_off_backing_up_each(
    c: Setup,
    mount: Seq<char>,
    i: int,
    done: Seq<Outcome>,
)
    ensures
        #[trigger] only(backing_up_each(c, mount, i, done), hands_off()),
    decreases c.sources.len() - i,
{
    broadcast use {group_only, lemma_hands_off_backing_up_one};

    if 0 <= i < c.sources.len() {
        assert forall|o: Outcome|
            only(backing_up_each(c, mount, i + 1, #[trigger] done.push(o)), hands_off()) by {
            lemma_hands_off_backing_up_each(c, mount, i + 1, done.push(o));
        }
    }
}

broadcast proof fn lemma_hands_off_telling_outcomes(outcomes: Seq<Outcome>, i: int)
    ensures
        #[trigger] only(telling_outcomes(outcomes, i), hands_off()),
    decreases outcomes.len() - i,
{
    broadcast use group_only;

    if 0 <= i < outcomes.len() {
        lemma_hands_off_telling_outcomes(outcomes, i + 1);
    }
}

broadcast proof fn lemma_hands_off_summing_up(outcomes: Seq<Outcome>)
    ensures
        #[trigger] only(summing_up(outcomes), hands_off()),
{
    broadcast use {group_only, lemma_hands_off_telling_outcomes};

    reveal(summing_up);
}

broadcast proof fn lemma_hands_off_telling_sources(sources: Seq<Source>, i: int)
    ensures
        #[trigger] only(telling_sources(sources, i), hands_off()),
    decreases sources.len() - i,
{
    broadcast use group_only;

    if 0 <= i < sources.len() {
        lemma_hands_off_telling_sources(sources, i + 1);
    }
}

broadcast proof fn lemma_hands_off_announcing(c: Setup)
    ensures
        #[trigger] only(announcing(c), hands_off()),
{
    broadcast use {group_only, lemma_hands_off_telling_sources};

    reveal(announcing);
}

/// What keeps its hands off leaves what is due as it was.
proof fn lemma_hands_off<T>(p: Plan<T>, log: Log, h: Hold)
    requires
        only(p, hands_off()),
        log.asked.len() <= log.answers.len(),
    ensures
        due(drive(p, log).0, h) == due(log, h),
        extends(log, drive(p, log).0),
    decreases p,
{
    reveal(drive);
    reveal(only);
    lemma_drive_extends(p, log);
    match p {
        Plan::Done(t) => {},
        Plan::Ask(q, k) => match asking(log, q) {
            (l, None) => {},
            (l, Some(a)) => {
                lemma_due_push(log, q, h);
                lemma_hands_off(k(a), l, h);
            },
        },
    }
}

/// What is due after one more request.
proof fn lemma_due_push(log: Log, q: Ask, h: Hold)
    requires
        log.asked.len() < log.answers.len(),
    ensures
        due(asking(log, q).0, h) == owing(
            due(log, h),
            q,
            log.answers[log.asked.len() as int],
            h,
        ),
{
    assert(log.asked.push(q).drop_last() =~= log.asked);
}

/// What is due after a request that was asked for on its own.
proof fn lemma_due_ask(q: Ask, log: Log, h: Hold)
    requires
        log.asked.len() <= log.answers.len(),
    ensures
        ({
            let (l, o) = drive(ask(q), log);
            &&& extends(log, l)
            &&& o matches Some(a) ==> due(l, h) == owing(due(log, h), q, a, h)
        }),
{
    broadcast use group_plan;

    lemma_drive_extends(ask(q), log);
    if log.asked.len() < log.answers.len() {
        lemma_due_push(log, q, h);
    }
}

/// What is due after a command that has to succeed: it took what it takes exactly where it
/// succeeded.
proof fn lemma_due_commanding(area: Area, c: Call, msg: Seq<char>, log: Log, h: Hold)
    requires
        log.asked.len() <= log.answers.len(),
        unmounts(c) is None,
        locks_again(c) is None,
    ensures
        ({
            let (l, o) = drive(commanding(area, c, msg), log);
            &&& extends(log, l)
            &&& o matches Some(Ok(_)) ==> due(l, h) <= due(log, h) + (if (h matches Hold::Mount(d)
                && mounts(c) == Some(d)) || (h matches Hold::Mapping(m) && unlocks(c) == Some(m)) {
                1nat
            } else {
                0
            })
            &&& o matches Some(Err(_)) ==> due(l, h) == due(log, h)
        }),
{
    broadcast use {group_plan, group_only, lemma_hands_off_complaining};

    reveal(commanding);
    reveal(launching);
    lemma_drive_extends(commanding(area, c, msg), log);
    let announce = say(Tone::CmdStart, command_text(c));
    let (l1, o1) = drive(announce, log);
    lemma_hands_off(announce, log, h);
    if o1 is Some {
        let (l2, o2) = drive(ask(Ask::Run(c)), l1);
        lemma_due_ask(Ask::Run(c), l1, h);
        if let Some(Answer::Ran(o)) = o2 {
            if !o.success {
                lemma_hands_off(complaining::<()>(area, msg, o), l2, h);
            }
        }
    }
}

/// What is due after a command that gives something back.
proof fn lemma_due_giving(area: Area, c: Call, msg: Seq<char>, log: Log, h: Hold)
    requires
        log.asked.len() <= log.answers.len(),
        mounts(c) is None,
        unlocks(c) is None,
    ensures
        ({
            let (l, o) = drive(commanding(area, c, msg), log);
            &&& extends(log, l)
            &&& o is Some ==> due(l, h) == (if gives(Ask::Run(c), h) && due(log, h) > 0 {
                (due(log, h) - 1) as nat
            } else {
                due(log, h)
            })
        }),
{
    broadcast use {group_plan, group_only, lemma_hands_off_complaining};

    reveal(commanding);
    reveal(launching);
    lemma_drive_extends(commanding(area, c, msg), log);
    let announce = say(Tone::CmdStart, command_text(c));
    let (l1, o1) = drive(announce, log);
    lemma_hands_off(announce, log, h);
    if o1 is Some {
        let (l2, o2) = drive(ask(Ask::Run(c)), l1);
        lemma_due_ask(Ask::Run(c), l1, h);
        if let Some(Answer::Ran(o)) = o2 {
            if !o.success {
                lemma_hands_off(complaining::<()>(area, msg, o), l2, h);
            }
        }
    }
}

/// How often `h` is among what a mounted file system has to give back.
pub open spec fn part_of(m: Mounted, h: Hold) -> nat {
    match h {
        Hold::Mount(d) | Hold::TempDir(d) => if m.managed && m.point == d {
            1
        } else {
            0
        },
        Hold::Mapping(n) => if m.mapping == Some(n) {
            1
        } else {
            0
        },
        Hold::Lock(_) => 0,
    }
}

/// Mounting takes at most the mount; failing to mount takes nothing.
proof fn lemma_due_mounting(device: Seq<char>, dir: Seq<char>, log: Log, h: Hold)
    requires
        log.asked.len() <= log.answers.len(),
    ensures
        ({
            let (l, o) = drive(mounting(device, dir), log);
            &&& extends(log, l)
            &&& o matches Some(Ok(_)) ==> due(l, h) <= due(log, h) + (if h == Hold::Mount(dir) {
                1nat
            } else {
                0
            })
            &&& o matches Some(Err(_)) ==> due(l, h) <= due(log, h)
        }),
{
    broadcast use {group_plan, lemma_hands_off_ensuring_dir, lemma_hands_off_checking_mounted};

    reveal(mounting);
    lemma_programs();
    lemma_drive_extends(mounting(device, dir), log);
    let (l1, o1) = drive(ensuring_dir(dir), log);
    lemma_hands_off(ensuring_dir(dir), log, h);
    if o1 matches Some(Ok(_)) {
        let (l2, o2) = drive(checking_mounted(dir), l1);
        lemma_hands_off(checking_mounted(dir), l1, h);
        if o2 == Some(Ok::<bool, Fault>(false)) {
            lemma_due_commanding(
                Area::Mount,
                call("mount"@).arg(device).arg(dir),
                "Failed to mount "@ + device + " to "@ + dir + ": "@,
                l2,
                h,
            );
        }
    }
}

/// Mounting in a temporary directory takes the directory and at most the mount; failing to do
/// so takes nothing.
proof fn lemma_due_mounting_managed(device: Seq<char>, log: Log, h: Hold)
    requires
        log.asked.len() <= log.answers.len(),
    ensures
        ({
            let (l, o) = drive(mounting_managed(device), log);
            &&& extends(log, l)
            &&& o matches Some(Ok(dir)) ==> due(l, h) <= due(log, h) + part_of(
                Mounted { point: dir, mapping: None, managed: true },
                h,
            )
            &&& o matches Some(Err(_)) ==> due(l, h) <= due(log, h)
        }),
{
    broadcast use {group_plan, lemma_hands_off_resolving};

    reveal(mounting_managed);
    lemma_drive_extends(mounting_managed(device), log);
    let (l1, o1) = drive(resolving(device), log);
    lemma_hands_off(resolving(device), log, h);
    if let Some(Ok(resolved)) = o1 {
        let (l2, o2) = drive(ask(Ask::MakeTempDir), l1);
        lemma_due_ask(Ask::MakeTempDir, l1, h);
        if let Some(Answer::Text(dir)) = o2 {
            let (l3, o3) = drive(mounting(resolved, dir), l2);
            lemma_due_mounting(resolved, dir, l2, h);
            if let Some(Err(e)) = o3 {
                lemma_due_ask(Ask::RemoveTempDir(dir), l3, h);
            }
        }
    }
}

/// A failed or successful unmounting gives the mount back.
proof fn lemma_due_unmounting(dir: Seq<char>, log: Log, h: Hold)
    requires
        log.asked.len() <= log.answers.len(),
    ensures
        ({
            let (l, o) = drive(unmounting(dir), log);
            &&& extends(log, l)
            &&& o is Some ==> due(l, h) == (if h == Hold::Mount(dir) && due(log, h) > 0 {
                (due(log, h) - 1) as nat
            } else {
                due(log, h)
            })
        }),
{
    reveal(unmounting);
    lemma_programs();
    lemma_due_giving(
        Area::Mount,
        call("umount"@).arg(dir),
        "Failed to unmount "@ + dir + ": "@,
        log,
        h,
    );
}

/// A failed or successful locking gives the unlocked device back.
proof fn lemma_due_closing(mapping: Seq<char>, log: Log, h: Hold)
    requires
        log.asked.len() <= log.answers.len(),
    ensures
        ({
            let (l, o) = drive(closing(mapping), log);
            &&& extends(log, l)
            &&& o is Some ==> due(l, h) == (if h == Hold::Mapping(mapping) && due(log, h) > 0 {
                (due(log, h) - 1) as nat
            } else {
                due(log, h)
            })
        }),
{
    reveal(closing);
    lemma_programs();
    lemma_due_giving(
        Area::Mount,
        call("cryptsetup"@).arg("close"@).arg(mapping),
        "Failed to close LUKS mapping "@ + mapping + ": "@,
        log,
        h,
    );
}

/// Unlocking takes the unlocked device; failing to unlock takes nothing.
proof fn lemma_due_opening_at(
    device: Seq<char>,
    mapping: Seq<char>,
    keyfile: Option<Seq<char>>,
    passphrase_env: Option<Seq<char>>,
    log: Log,
    h: Hold,
)
    requires
        log.asked.len() <= log.answers.len(),
    ensures
        ({
            let (l, o) = drive(opening_at(device, mapping, keyfile, passphrase_env), log);
            &&& extends(log, l)
            &&& o matches Some(Ok(_)) ==> due(l, h) <= due(log, h) + (if h == Hold::Mapping(
                mapping,
            ) {
                1nat
            } else {
                0
            })
            &&& o matches Some(Err(_)) ==> due(l, h) <= due(log, h)
        }),
{
    broadcast use {group_plan, group_only, lemma_hands_off_complaining};

    reveal(opening_at);
    lemma_programs();
    lemma_drive_extends(opening_at(device, mapping, keyfile, passphrase_env), log);
    match (keyfile, passphrase_env) {
        (Some(k), _) => {
            lemma_due_commanding(
                Area::Mount,
                call("cryptsetup"@).arg("open"@).arg("--key-file"@).arg(k).arg(
                    device,
                ).arg(mapping),
                "Failed to open LUKS device "@ + device + ": "@,
                log,
                h,
            );
        },
        (None, Some(variable)) => {
            reveal(opening_with_passphrase);
            let (l1, o1) = drive(ask(Ask::EnvVar(variable)), log);
            lemma_due_ask(Ask::EnvVar(variable), log, h);
            if let Some(Answer::Text(passphrase)) = o1 {
                let announce = say(
                    Tone::CmdStart,
                    "cryptsetup open --key-file - "@ + device + " "@ + mapping,
                );
                let (l2, o2) = drive(announce, l1);
                lemma_hands_off(announce, l1, h);
                if o2 is Some {
                    let c = call("cryptsetup"@).arg("open"@).arg(
                        "--key-file"@,
                    ).arg("-"@).arg(device).arg(mapping).fed(passphrase);
                    let (l3, o3) = drive(ask(Ask::Run(c)), l2);
                    lemma_due_ask(Ask::Run(c), l2, h);
                    if let Some(Answer::Ran(o)) = o3 {
                        if !o.success {
                            lemma_hands_off(
                                complaining::<Seq<char>>(
                                    Area::Mount,
                                    "Failed to open LUKS device "@ + device + ": "@,
                                    o,
                                ),
                                l3,
                                h,
                            );
                        }
                    }
                }
            }
        },
        (None, None) => {},
    }
}

/// What is due after mounting something, in terms of what has to be given back.
pub open spec fn due_after_mounting(
    log: Log,
    done: (Log, Option<Result<Mounted, Fault>>),
    h: Hold,
) -> bool {
    &&& extends(log, done.0)
    &&& done.1 matches Some(Ok(m)) ==> due(done.0, h) <= due(log, h) + part_of(m, h)
    &&& done.1 matches Some(Err(_)) ==> due(done.0, h) <= due(log, h)
}

proof fn lemma_due_guarding(device: Seq<char>, log: Log, h: Hold)
    requires
        log.asked.len() <= log.answers.len(),
    ensures
        due_after_mounting(log, drive(guarding(device), log), h),
{
    broadcast use group_plan;

    reveal(guarding);
    lemma_due_mounting_managed(device, log, h);
    lemma_drive_extends(guarding(device), log);
}

proof fn lemma_due_guarding_unlocked(mapped: Seq<char>, mapping: Seq<char>, log: Log, h: Hold)
    requires
        log.asked.len() <= log.answers.len(),
    ensures
        ({
            let (l, o) = drive(guarding_unlocked(mapped, mapping), log);
            let taken: nat = if h == Hold::Mapping(mapping) {
                1
            } else {
                0
            };
            &&& extends(log, l)
            &&& o matches Some(Ok(m)) ==> due(l, h) + taken <= due(log, h) + part_of(m, h)
            &&& o matches Some(Err(_)) ==> due(l, h) <= due(log, h) && (due(log, h) > 0 ==> due(
                l,
                h,
            ) + taken <= due(log, h))
        }),
{
    broadcast use {group_plan, group_only};

    lemma_drive_extends(guarding_unlocked(mapped, mapping), log);
    let (l1, o1) = drive(mounting_managed(mapped), log);
    lemma_due_mounting_managed(mapped, log, h);
    if let Some(Err(e)) = o1 {
        let (l2, o2) = drive(closing(mapping), l1);
        lemma_due_closing(mapping, l1, h);
        if let Some(Err(f)) = o2 {
            lemma_hands_off(
                say(
                    Tone::Warning,
                    "Failed to close LUKS mapping "@ + mapping + " after mount failure: "@
                        + fault_text(f),
                ),
                l2,
                h,
            );
        }
    }
}

proof fn lemma_due_guarding_encrypted(device: Seq<char>, e: Encryption, log: Log, h: Hold)
    requires
        log.asked.len() <= log.answers.len(),
    ensures
        due_after_mounting(log, drive(guarding_encrypted(device, e), log), h),
{
    broadcast use {group_plan, lemma_hands_off_resolving, lemma_hands_off_checking_luks_at};

    reveal(guarding_encrypted);
    lemma_drive_extends(guarding_encrypted(device, e), log);
    let (l1, o1) = drive(resolving(device), log);
    lemma_hands_off(resolving(device), log, h);
    if let Some(Ok(resolved)) = o1 {
        let (l2, o2) = drive(checking_luks_at(resolved), l1);
        lemma_hands_off(checking_luks_at(resolved), l1, h);
        if o2 == Some(Ok::<bool, Fault>(true)) {
            let (l3, o3) = drive(
                opening_at(resolved, e.mapping_name, e.keyfile, e.passphrase_env),
                l2,
            );
            lemma_due_opening_at(resolved, e.mapping_name, e.keyfile, e.passphrase_env, l2, h);
            if let Some(Ok(mapped)) = o3 {
                lemma_due_guarding_unlocked(mapped, e.mapping_name, l3, h);
            }
        }
    }
}

proof fn lemma_due_mounting_location(
    location: Location,
    unlock: Option<Encryption>,
    missing: Seq<char>,
    log: Log,
    h: Hold,
)
    requires
        log.asked.len() <= log.answers.len(),
    ensures
        due_after_mounting(log, drive(mounting_location(location, unlock, missing), log), h),
{
    broadcast use {group_plan, group_only};

    reveal(mounting_location);
    lemma_drive_extends(mounting_location(location, unlock, missing), log);
    match location {
        Location::MountedPath(path) => {
            lemma_hands_off(present(path), log, h);
        },
        Location::Device(device) => match unlock {
            Some(e) => {
                lemma_due_guarding_encrypted(device, e, log, h);
            },
            None => {
                lemma_due_guarding(device, log, h);
            },
        },
    }
}

/// Releasing gives everything back, whatever the system says to it.
proof fn lemma_due_releasing(m: Mounted, log: Log, h: Hold)
    requires
        log.asked.len() <= log.answers.len(),
    ensures
        ({
            let (l, o) = drive(releasing(m), log);
            &&& extends(log, l)
            &&& o is Some ==> due(l, h) + part_of(m, h) <= due(log, h) || due(l, h) == 0
            &&& o is Some ==> due(l, h) <= due(log, h)
        }),
{
    broadcast use {group_plan, group_only};

    reveal(releasing);
    lemma_drive_extends(releasing(m), log);
    let p1 = if m.managed {
        warning_of(unmounting(m.point), "Failed to unmount "@ + m.point + ": "@)
    } else {
        ok(())
    };
    let (l1, o1) = drive(p1, log);
    if m.managed {
        lemma_due_warning(unmounting(m.point), "Failed to unmount "@ + m.point + ": "@, log, h);
        lemma_due_unmounting(m.point, log, h);
    }
    if o1 is Some {
        let p2 = match m.mapping {
            Some(n) => warning_of(closing(n), "Failed to close LUKS mapping "@ + n + ": "@),
            None => ok(()),
        };
        let (l2, o2) = drive(p2, l1);
        if let Some(n) = m.mapping {
            lemma_due_warning(
                closing(n),
                "Failed to close LUKS mapping "@ + n + ": "@,
                l1,
                h,
            );
            lemma_due_closing(n, l1, h);
        }
        if o2 is Some && m.managed {
            lemma_due_ask(Ask::RemoveTempDir(m.point), l2, h);
        }
    }
}

/// Warning of a failure takes and gives nothing, and does not fail.
proof fn lemma_due_warning(p: Try<()>, msg: Seq<char>, log: Log, h: Hold)
    requires
        log.asked.len() <= log.answers.len(),
    ensures
        ({
            let (l, o) = drive(warning_of(p, msg), log);
            let (lp, op) = drive(p, log);
            &&& extends(log, l)
            &&& o is Some ==> op is Some && due(l, h) == due(lp, h) && o == Some(
                Ok::<(), Fault>(()),
            )
        }),
{
    broadcast use {group_plan, group_only};

    lemma_drive_extends(warning_of(p, msg), log);
    lemma_drive_extends(p, log);
    let (lp, op) = drive(p, log);
    if let Some(Err(e)) = op {
        lemma_hands_off(say(Tone::Warning, msg + fault_text(e)), lp, h);
    }
}

/// At the end of the run no more is due than at its beginning.
pub open spec fn gave_back<T>(log: Log, done: (Log, Option<T>), h: Hold) -> bool {
    &&& extends(log, done.0)
    &&& done.1 is Some ==> due(done.0, h) <= due(log, h)
}

/// Work between mounting and releasing, where the work gives back what it takes.
proof fn lemma_due_finally(p: Try<()>, m: Mounted, before: Log, log: Log, h: Hold)
    requires
        extends(before, log),
        due(log, h) <= due(before, h) + part_of(m, h),
        gave_back(log, drive(p, log), h),
    ensures
        gave_back(before, drive(finally(p, releasing(m)), log), h),
{
    broadcast use group_plan;

    lemma_drive_extends(finally(p, releasing(m)), log);
    let (l1, o1) = drive(p, log);
    if o1 is Some {
        lemma_due_releasing(m, l1, h);
    }
}

proof fn lemma_due_updating_live(c: Setup, mount: Seq<char>, log: Log, h: Hold)
    requires
        log.asked.len() <= log.answers.len(),
    ensures
        gave_back(log, drive(updating_live(c, mount), log), h),
{
    broadcast use {
        group_plan,
        group_only,
        lemma_hands_off_updating_subvolumes,
        lemma_hands_off_running_hooks,
    };

    reveal(updating_live);
    lemma_drive_extends(updating_live(c, mount), log);
    if let Some(l) = c.live_boot {
        let p1 = say(
            Tone::Detail,
            "Updating live boot for "@ + decimal(c.sources.len()) + " sources"@,
        );
        let (l1, o1) = drive(p1, log);
        lemma_hands_off(p1, log, h);
        if o1 is Some {
            let (l2, o2) = drive(updating_subvolumes(c, mount, 0), l1);
            lemma_hands_off(updating_subvolumes(c, mount, 0), l1, h);
            if o2 matches Some(Ok(_)) {
                reveal(mounting_esp);
                let (l3, o3) = drive(mounting_esp(l), l2);
                lemma_due_mounting_location(
                    l.esp_location,
                    None,
                    "ESP mounted path does not exist: "@,
                    l2,
                    h,
                );
                if let Some(Ok(esp)) = o3 {
                    let work = then(
                        say(Tone::Substep, "Running post-backup hooks"@),
                        |u: ()|
                            running_hooks(
                                joined_path(mount, c.target.live_root()),
                                mount,
                                esp.point,
                                c.hooks,
                                l.boot_entry,
                                c,
                            ),
                    );
                    lemma_hands_off(work, l3, h);
                    lemma_due_finally(work, esp, l2, l3, h);
                }
            }
        }
    }
}

proof fn lemma_due_updating_after(
    c: Setup,
    mount: Seq<char>,
    outcomes: Seq<Outcome>,
    log: Log,
    h: Hold,
)
    requires
        log.asked.len() <= log.answers.len(),
    ensures
        gave_back(log, drive(updating_after(c, mount, outcomes), log), h),
{
    broadcast use {group_plan, group_only};

    reveal(updating_after);
    lemma_drive_extends(updating_after(c, mount, outcomes), log);
    let p1 = say(
        Tone::Step,
        step_text(
            c.sources.len() + 2,
            steps_of(c),
            "Updating live boot environment"@,
        ),
    );
    let (l1, o1) = drive(p1, log);
    lemma_hands_off(p1, log, h);
    if o1 is Some {
        let (l2, o2) = drive(updating_live(c, mount), l1);
        lemma_due_updating_live(c, mount, l1, h);
        match o2 {
            Some(Ok(_)) => {
                lemma_hands_off(say(Tone::Success, "Live boot environment updated"@), l2, h);
            },
            Some(Err(e)) => {
                lemma_hands_off(
                    say(
                        Tone::Error,
                        "Failed to update live boot environment: "@ + fault_text(e),
                    ),
                    l2,
                    h,
                );
            },
            None => {},
        }
    }
}

proof fn lemma_due_backing_up_all(c: Setup, mount: Seq<char>, log: Log, h: Hold)
    requires
        log.asked.len() <= log.answers.len(),
    ensures
        gave_back(log, drive(backing_up_all(c, mount), log), h),
{
    broadcast use {
        group_plan,
        group_only,
        lemma_hands_off_backing_up_each,
        lemma_hands_off_summing_up,
    };

    reveal(backing_up_all);
    lemma_drive_extends(backing_up_all(c, mount), log);
    let p1 = backing_up_each(c, mount, 0, Seq::empty());
    let (l1, o1) = drive(p1, log);
    lemma_hands_off(p1, log, h);
    if let Some(Ok(outcomes)) = o1 {
        let (l2, o2) = drive(updating_after(c, mount, outcomes), l1);
        lemma_due_updating_after(c, mount, outcomes, l1, h);
        if let Some(Ok(live)) = o2 {
            let rest = then(
                say(
                    Tone::Step,
                    step_text(
                        last_step(c, outcomes),
                        steps_of(c),
                        "Summary"@,
                    ),
                ),
                |u: ()|
                    then(
                        summing_up(outcomes),
                        |u: ()|
                            then(
                                say(Tone::SectionEnd, Seq::empty()),
                                |u: ()| Plan::Done(conclusion(outcomes, live)),
                            ),
                    ),
            );
            lemma_hands_off(rest, l2, h);
        }
    }
}

proof fn lemma_due_backing_up_to_target(c: Setup, log: Log, h: Hold)
    requires
        log.asked.len() <= log.answers.len(),
    ensures
        gave_back(log, drive(backing_up_to_target(c), log), h),
{
    broadcast use {group_plan, group_only};

    reveal(backing_up_to_target);
    reveal(mounting_target);
    lemma_drive_extends(backing_up_to_target(c), log);
    let p1 = ignoring(perform(Ask::StartClock));
    let (l1, o1) = drive(p1, log);
    lemma_hands_off(p1, log, h);
    if o1 is Some {
        let p2 = say(
            Tone::Step,
            step_text(1, steps_of(c), "Mounting target"@),
        );
        let (l2, o2) = drive(p2, l1);
        lemma_hands_off(p2, l1, h);
        if o2 is Some {
            let (l3, o3) = drive(mounting_target(c.target), l2);
            lemma_due_mounting_location(
                c.target.location,
                c.target.encryption,
                "Target mounted path does not exist: "@,
                l2,
                h,
            );
            if let Some(Ok(m)) = o3 {
                let p4 = say(Tone::Success, "Target mounted"@);
                let (l4, o4) = drive(p4, l3);
                lemma_hands_off(p4, l3, h);
                let work = then(p4, |u: ()| backing_up_all(c, m.point));
                lemma_drive_extends(work, l3);
                if o4 is Some {
                    lemma_due_backing_up_all(c, m.point, l4, h);
                }
                lemma_due_finally(work, m, l2, l3, h);
            }
        }
    }
}

proof fn lemma_due_working(c: Setup, dry_run: bool, log: Log, h: Hold)
    requires
        log.asked.len() <= log.answers.len(),
    ensures
        gave_back(log, drive(working(c, dry_run), log), h),
{
    broadcast use {group_plan, group_only, lemma_hands_off_announcing};

    reveal(working);
    lemma_drive_extends(working(c, dry_run), log);
    let (l1, o1) = drive(announcing(c), log);
    lemma_hands_off(announcing(c), log, h);
    if o1 matches Some(Ok(_)) {
        if dry_run {
            lemma_hands_off(
                say(Tone::Info, "Dry run mode - no changes will be made"@),
                l1,
                h,
            );
        } else {
            lemma_due_backing_up_to_target(c, l1, h);
        }
    }
}

/// Taking the lock takes the lock; failing to take it takes nothing.
proof fn lemma_due_acquiring(name: Seq<char>, log: Log, h: Hold)
    requires
        log.asked.len() <= log.answers.len(),
    ensures
        ({
            let (l, o) = drive(acquiring(name), log);
            &&& extends(log, l)
            &&& o matches Some(Ok(lock)) ==> due(l, h) <= due(log, h) + (if h == Hold::Lock(lock) {
                1nat
            } else {
                0
            })
            &&& o matches Some(Err(_)) ==> due(l, h) <= due(log, h)
        }),
{
    broadcast use {group_plan, group_only};

    reveal(acquiring);
    reveal(locking_step);
    lemma_drive_extends(acquiring(name), log);
    let p1 = fetch(Ask::TempRoot);
    let (l1, o1) = drive(p1, log);
    lemma_hands_off(p1, log, h);
    if let Some(Ok(temp)) = o1 {
        let dir = locks_dir(temp);
        let file = joined_path(dir, name + ".lock"@);
        let p2 = locking_step(
            Ask::CreateDirAll(dir),
            "Failed to create lock parent directory: "@,
        );
        let (l2, o2) = drive(p2, l1);
        lemma_hands_off(p2, l1, h);
        if o2 matches Some(Ok(_)) {
            let p3 = locking_step(Ask::OpenLock(file), "Failed to create lock file: "@);
            let (l3, o3) = drive(p3, l2);
            lemma_hands_off(p3, l2, h);
            if o3 matches Some(Ok(_)) {
                lemma_due_ask(Ask::TryLock(file), l3, h);
            }
        }
    }
}

/// Once a backup has come to its end, whatever went wrong on the way, it has given back every
/// mount, unlocked device, temporary directory and lock that it took.
pub proof fn lemma_backup_gives_back(c: Setup, dry_run: bool, log: Log, h: Hold)
    requires
        settled(log),
    ensures
        gave_back(log, drive(running(c, dry_run), log), h),
{
    broadcast use {group_plan, lemma_hands_off_validating};

    reveal(running);
    lemma_drive_extends(running(c, dry_run), log);
    let (l1, o1) = drive(validating(c), log);
    lemma_hands_off(validating(c), log, h);
    if o1 matches Some(Ok(_)) {
        let (l2, o2) = drive(acquiring(c.name), l1);
        lemma_due_acquiring(c.name, l1, h);
        if let Some(Ok(lock)) = o2 {
            let (l3, o3) = drive(working(c, dry_run), l2);
            lemma_due_working(c, dry_run, l2, h);
            if o3 is Some {
                lemma_due_ask(Ask::Unlock(lock), l3, h);
            }
        }
    }
}

/// Once live boot has been set up, or that failed, every mount, unlocked device and temporary
/// directory that was taken has been given back.
pub proof fn lemma_preparation_gives_back(c: Setup, log: Log, h: Hold)
    requires
        settled(log),
    ensures
        gave_back(log, drive(preparing(c), log), h),
{
    broadcast use {
        group_plan,
        group_only,
        lemma_hands_off_validating,
        lemma_hands_off_preparing_live_boot,
    };

    reveal(preparing);
    reveal(preparing_on_target);
    reveal(preparing_mounted);
    reveal(mounting_target);
    reveal(mounting_esp);
    lemma_drive_extends(preparing(c), log);
    let (l1, o1) = drive(validating(c), log);
    lemma_hands_off(validating(c), log, h);
    if o1 matches Some(Ok(_)) {
        if let Some(l) = c.live_boot {
            let p2 = say(Tone::Header, "Prepare Live Boot Environment"@);
            let (l2, o2) = drive(p2, l1);
            lemma_hands_off(p2, l1, h);
            if o2 is Some {
                let p3 = say(Tone::Step, step_text(1, 2, "Mounting target"@));
                let (l3, o3) = drive(p3, l2);
                lemma_hands_off(p3, l2, h);
                if o3 is Some {
                    let (l4, o4) = drive(mounting_target(c.target), l3);
                    lemma_due_mounting_location(
                        c.target.location,
                        c.target.encryption,
                        "Target mounted path does not exist: "@,
                        l3,
                        h,
                    );
                    if let Some(Ok(m)) = o4 {
                        lemma_due_preparing_on_target(c, l, m.point, l4, h);
                        lemma_due_finally(preparing_on_target(c, l, m.point), m, l3, l4, h);
                    }
                }
            }
        }
    }
}

proof fn lemma_due_preparing_on_target(
    c: Setup,
    l: LiveBoot,
    mount: Seq<char>,
    log: Log,
    h: Hold,
)
    requires
        log.asked.len() <= log.answers.len(),
    ensures
        gave_back(log, drive(preparing_on_target(c, l, mount), log), h),
{
    broadcast use {group_plan, group_only, lemma_hands_off_preparing_live_boot};

    reveal(preparing_on_target);
    reveal(preparing_mounted);
    reveal(mounting_esp);
    lemma_drive_extends(preparing_on_target(c, l, mount), log);
    let p1 = say(Tone::Success, "Target mounted"@);
    let (l1, o1) = drive(p1, log);
    lemma_hands_off(p1, log, h);
    if o1 is Some {
        let p2 = say(Tone::Step, step_text(2, 2, "Setting up live boot"@));
        let (l2, o2) = drive(p2, l1);
        lemma_hands_off(p2, l1, h);
        if o2 is Some {
            let (l3, o3) = drive(mounting_esp(l), l2);
            lemma_due_mounting_location(
                l.esp_location,
                None,
                "ESP mounted path does not exist: "@,
                l2,
                h,
            );
            if let Some(Ok(esp)) = o3 {
                let work = preparing_mounted(c, l, mount, esp.point);
                lemma_hands_off(work, l3, h);
                lemma_due_finally(work, esp, l2, l3, h);
            }
        }
    }
}

}
