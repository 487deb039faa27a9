//! How devices are reached: what is unlocked with what, what is mounted where, and in which
//! order it is given back.

use crate::backup::{mounting_esp, mounting_location, mounting_target};
use crate::booting::{by_tag, findfs, lemma_printed, lemma_tag_is_no_path, stands_for};
use crate::btrfs::ensuring_dir;
use crate::command_runner::{commanding, complaining, launching, querying, Area};
use crate::config::{Encryption, LiveBoot, Location, Target};
use crate::device::{
    checking_luks, checking_luks_at, checking_mounted, closing, guarding, guarding_encrypted,
    mounting, mounting_managed, opening, opening_at, opening_with_passphrase, releasing, resolving,
    unmounting, warning_of, Mounted,
};
use crate::journal::{
    call, drive, fetch, group_plan, ok, present, text_in, Answer, Ask, Call, Log, Printed,
};
use crate::orders::{
    answered, asked_for, lemma_answered, lemma_asked_for, lemma_commanding, lemma_querying,
    lemma_succeeded, running_only, succeeded, words,
};
use crate::trace::{extends, group_only, lemma_drive_extends, only, settled};
use vstd::prelude::*;

verus! {

/// Looking a device up: a UUID or a label stands for the device that `findfs` prints, and
/// everything else for itself.
pub proof fn lemma_resolving(device: Seq<char>, log: Log)
    requires
        settled(log),
    ensures
        ({
            let (l, o) = drive(resolving(device), log);
            o matches Some(Ok(found)) ==> stands_for(l, log.asked.len() as int, device, found)
        }),
{
    broadcast use group_plan;

    reveal(resolving);
    reveal(querying);
    reveal(complaining);
    let at = log.asked.len() as int;
    let (l, o) = drive(resolving(device), log);
    assert(call("findfs"@).arg(device).args =~= findfs(device).args);
    if let Some(Ok(found)) = o {
        if by_tag(device) {
            lemma_tag_is_no_path(device);
            assert(l.asked[at + 1] == Ask::Run(findfs(device)));
            let p = l.answers[at + 1]->Ran_0;
            assert(answered(l, at, Ask::Run(findfs(device)), Answer::Ran(p)));
        }
    }
}

/// What stands for a device did so from any earlier position on.
proof fn lemma_stands_for(
    before: Log,
    after: Log,
    at: int,
    from: int,
    device: Seq<char>,
    found: Seq<char>,
)
    requires
        stands_for(before, at, device, found),
        extends(before, after),
        0 <= from <= at,
    ensures
        stands_for(after, from, device, found),
{
    if by_tag(device) {
        lemma_printed(before, after, at, from, findfs(device), found);
    }
}

/// The words of the command that mounts a device.
pub open spec fn mount_words(device: Seq<char>, point: Seq<char>) -> Call {
    words("mount"@, seq![device, point])
}

/// The words of the command that tells whether something is mounted.
pub open spec fn mounted_words(point: Seq<char>) -> Call {
    words("findmnt"@, seq!["--mountpoint"@, point, "--noheadings"@])
}

/// From position `at` on, the device was mounted at the place, or something was there already.
pub open spec fn mounted_at(l: Log, at: int, device: Seq<char>, point: Seq<char>) -> bool {
    succeeded(l, at, mounted_words(point)) || succeeded(l, at, mount_words(device, point))
}

proof fn lemma_mounted_at(
    before: Log,
    after: Log,
    at: int,
    from: int,
    device: Seq<char>,
    point: Seq<char>,
)
    requires
        mounted_at(before, at, device, point),
        extends(before, after),
        0 <= from <= at,
    ensures
        mounted_at(after, from, device, point),
{
    if succeeded(before, at, mounted_words(point)) {
        lemma_succeeded(before, after, at, from, mounted_words(point));
    } else {
        lemma_succeeded(before, after, at, from, mount_words(device, point));
    }
}

/// The request mounts nothing but the device, at the place.
pub open spec fn mounts_only(device: Seq<char>, point: Seq<char>) -> spec_fn(Ask) -> bool {
    |q: Ask|
        q matches Ask::Run(c) ==> c == mounted_words(point) || c == mount_words(device, point)
}

/// Mounting a device: no command is run but the one that asks what is mounted at the place and
/// the one that mounts the device there. It succeeds only where one of them does.
pub proof fn lemma_mounting(device: Seq<char>, point: Seq<char>, log: Log)
    requires
        settled(log),
    ensures
        only(mounting(device, point), mounts_only(device, point)),
        ({
            let (l, o) = drive(mounting(device, point), log);
            o matches Some(Ok(_)) ==> mounted_at(l, log.asked.len() as int, device, point)
        }),
{
    broadcast use {group_plan, group_only, lemma_drive_extends};

    reveal(mounting);
    reveal(checking_mounted);
    let at = log.asked.len() as int;
    let msg = "Failed to mount "@ + device + " to "@ + point + ": "@;
    assert(call("findmnt"@).arg("--mountpoint"@).arg(point).arg("--noheadings"@).args
        =~= mounted_words(point).args);
    assert(call("mount"@).arg(device).arg(point).args =~= mount_words(device, point).args);
    assert(only(mounting(device, point), mounts_only(device, point))) by {
        reveal(ensuring_dir);
        reveal(querying);
        reveal(commanding);
        reveal(launching);
        reveal(complaining);
    }
    let (l, o) = drive(mounting(device, point), log);
    if o matches Some(Ok(_)) {
        let (l1, o1) = drive(ensuring_dir(point), log);
        let (l2, o2) = drive(querying(mounted_words(point)), l1);
        lemma_querying(mounted_words(point), l1);
        if o2->0->Ok_0.success {
            assert(l == l2);
            assert(l.asked.is_prefix_of(l.asked));
            lemma_succeeded(l, l, l1.asked.len() as int, at, mounted_words(point));
        } else {
            lemma_commanding(Area::Mount, mount_words(device, point), msg, l2);
            assert(l.asked.is_prefix_of(l.asked));
            lemma_succeeded(l, l, l2.asked.len() as int, at, mount_words(device, point));
        }
    }
}

/// The words of the command that unlocks a device with the key in a file, or with what it is
/// fed where the file is `-`.
pub open spec fn open_words(
    keyfile: Seq<char>,
    device: Seq<char>,
    mapping: Seq<char>,
    input: Option<Seq<char>>,
) -> Call {
    Call {
        program: "cryptsetup"@,
        args: seq!["open"@, "--key-file"@, keyfile, device, mapping],
        input,
    }
}

/// From position `at` on, the device was unlocked: with the key file where one is configured,
/// else with what the environment variable holds.
pub open spec fn unlocked(
    l: Log,
    at: int,
    device: Seq<char>,
    mapping: Seq<char>,
    keyfile: Option<Seq<char>>,
    variable: Option<Seq<char>>,
) -> bool {
    match (keyfile, variable) {
        (Some(k), _) => succeeded(l, at, open_words(k, device, mapping, None)),
        (None, Some(v)) => exists|a: Answer| #[trigger]
            answered(l, at, Ask::EnvVar(v), a) && (text_in(a) matches Ok(secret) && succeeded(
                l,
                at,
                open_words("-"@, device, mapping, Some(secret)),
            )),
        (None, None) => false,
    }
}

proof fn lemma_unlocked(
    before: Log,
    after: Log,
    at: int,
    from: int,
    device: Seq<char>,
    mapping: Seq<char>,
    keyfile: Option<Seq<char>>,
    variable: Option<Seq<char>>,
)
    requires
        unlocked(before, at, device, mapping, keyfile, variable),
        extends(before, after),
        0 <= from <= at,
    ensures
        unlocked(after, from, device, mapping, keyfile, variable),
{
    match (keyfile, variable) {
        (Some(k), _) => {
            lemma_succeeded(before, after, at, from, open_words(k, device, mapping, None));
        },
        (None, Some(v)) => {
            let a = choose|a: Answer| #[trigger]
                answered(before, at, Ask::EnvVar(v), a) && (text_in(a) matches Ok(secret)
                    && succeeded(before, at, open_words("-"@, device, mapping, Some(secret))));
            lemma_answered(before, after, at, from, Ask::EnvVar(v), a);
            lemma_succeeded(
                before,
                after,
                at,
                from,
                open_words("-"@, device, mapping, Some(text_in(a)->Ok_0)),
            );
        },
        (None, None) => {},
    }
}

/// Unlocking a block device: it succeeds only where `cryptsetup` unlocked that device under
/// that name, with the key file where one is given, else with what the variable holds. The
/// outcome is the path of the unlocked device. A secret is fed to the command, and is never
/// among its words.
pub proof fn lemma_opening_at(
    device: Seq<char>,
    mapping: Seq<char>,
    keyfile: Option<Seq<char>>,
    variable: Option<Seq<char>>,
    log: Log,
)
    requires
        settled(log),
    ensures
        ({
            let (l, o) = drive(opening_at(device, mapping, keyfile, variable), log);
            o matches Some(Ok(path)) ==> {
                &&& path == "/dev/mapper/"@ + mapping
                &&& unlocked(l, log.asked.len() as int, device, mapping, keyfile, variable)
            }
        }),
        only(
            opening_at(device, mapping, keyfile, variable),
            |q: Ask|
                match q {
                    Ask::Say { .. } => true,
                    Ask::EnvVar(v) => keyfile is None && variable == Some(v),
                    Ask::Run(c) => c.program == "cryptsetup"@ && c.args == match keyfile {
                        Some(k) => seq!["open"@, "--key-file"@, k, device, mapping],
                        None => seq!["open"@, "--key-file"@, "-"@, device, mapping],
                    },
                    _ => false,
                },
        ),
{
    broadcast use {group_plan, group_only, lemma_drive_extends};

    reveal(opening_at);
    reveal(opening_with_passphrase);
    reveal(complaining);
    let at = log.asked.len() as int;
    let (l, o) = drive(opening_at(device, mapping, keyfile, variable), log);
    match (keyfile, variable) {
        (Some(k), _) => {
            let c = call("cryptsetup"@).arg("open"@).arg("--key-file"@).arg(k).arg(device).arg(
                mapping,
            );
            assert(c.args =~= open_words(k, device, mapping, None).args);
            lemma_commanding(
                Area::Mount,
                c,
                "Failed to open LUKS device "@ + device + ": "@,
                log,
            );
            reveal(commanding);
            reveal(launching);
        },
        (None, Some(v)) => {
            let plain = call("cryptsetup"@).arg("open"@).arg("--key-file"@).arg("-"@).arg(
                device,
            ).arg(mapping);
            assert(plain.args =~= seq!["open"@, "--key-file"@, "-"@, device, mapping]);
            if o matches Some(Ok(_)) {
                let a = l.answers[at];
                assert(l.asked[at] == Ask::EnvVar(v));
                assert(answered(l, at, Ask::EnvVar(v), a));
                let secret = text_in(a)->Ok_0;
                let c = open_words("-"@, device, mapping, Some(secret));
                assert(plain.fed(secret) == c);
                assert(l.asked[at + 2] == Ask::Run(c));
                assert(succeeded(l, at, c));
            }
        },
        (None, None) => {},
    }
}

/// Unlocking a device by whatever name: the block device that stands for it is unlocked.
pub proof fn lemma_opening(
    device: Seq<char>,
    mapping: Seq<char>,
    keyfile: Option<Seq<char>>,
    variable: Option<Seq<char>>,
    log: Log,
)
    requires
        settled(log),
    ensures
        ({
            let (l, o) = drive(opening(device, mapping, keyfile, variable), log);
            let at = log.asked.len() as int;
            o matches Some(Ok(path)) ==> path == "/dev/mapper/"@ + mapping && exists|
                found: Seq<char>,
            | #[trigger]
                stands_for(l, at, device, found) && unlocked(
                    l,
                    at,
                    found,
                    mapping,
                    keyfile,
                    variable,
                )
        }),
{
    broadcast use {group_plan, lemma_drive_extends};

    reveal(opening);
    let at = log.asked.len() as int;
    let (l, o) = drive(opening(device, mapping, keyfile, variable), log);
    if o matches Some(Ok(_)) {
        let (l1, o1) = drive(resolving(device), log);
        let found = o1->0->Ok_0;
        lemma_resolving(device, log);
        lemma_opening_at(found, mapping, keyfile, variable, l1);
        lemma_stands_for(l1, l, at, at, device, found);
        assert(l.asked.is_prefix_of(l.asked));
        lemma_unlocked(
            l,
            l,
            l1.asked.len() as int,
            at,
            found,
            mapping,
            keyfile,
            variable,
        );
    }
}

/// From position `at` on, the place was made as a new directory, and the device that stands for
/// the named one was mounted there.
pub open spec fn managed_at(l: Log, at: int, device: Seq<char>, point: Seq<char>) -> bool {
    &&& exists|a: Answer| #[trigger]
        answered(l, at, Ask::MakeTempDir, a) && (text_in(a) matches Ok(dir) && dir == point)
    &&& exists|found: Seq<char>| #[trigger]
        stands_for(l, at, device, found) && mounted_at(l, at, found, point)
}

proof fn lemma_managed_at(
    before: Log,
    after: Log,
    at: int,
    from: int,
    device: Seq<char>,
    point: Seq<char>,
)
    requires
        managed_at(before, at, device, point),
        extends(before, after),
        0 <= from <= at,
    ensures
        managed_at(after, from, device, point),
{
    let a = choose|a: Answer| #[trigger]
        answered(before, at, Ask::MakeTempDir, a) && (text_in(a) matches Ok(dir) && dir == point);
    let found = choose|found: Seq<char>| #[trigger]
        stands_for(before, at, device, found) && mounted_at(before, at, found, point);
    lemma_answered(before, after, at, from, Ask::MakeTempDir, a);
    lemma_stands_for(before, after, at, from, device, found);
    lemma_mounted_at(before, after, at, from, found, point);
}

/// Mounting a device in a directory of its own.
pub proof fn lemma_mounting_managed(device: Seq<char>, log: Log)
    requires
        settled(log),
    ensures
        ({
            let (l, o) = drive(mounting_managed(device), log);
            o matches Some(Ok(dir)) ==> managed_at(l, log.asked.len() as int, device, dir)
        }),
{
    broadcast use {group_plan, lemma_drive_extends};

    reveal(mounting_managed);
    let at = log.asked.len() as int;
    let (l, o) = drive(mounting_managed(device), log);
    if let Some(Ok(dir)) = o {
        let (l1, o1) = drive(resolving(device), log);
        let found = o1->0->Ok_0;
        lemma_resolving(device, log);
        let (l2, o2) = drive(fetch(Ask::MakeTempDir), l1);
        let k = l1.asked.len() as int;
        assert(l2.asked[k] == Ask::MakeTempDir);
        assert(o2 == Some(Ok::<Seq<char>, crate::error::Fault>(dir)));
        lemma_mounting(found, dir, l2);
        let l3 = drive(mounting(found, dir), l2).0;
        assert(l == l3);
        assert(extends(l1, l));
        assert(l.asked[k] == l2.asked[k]);
        assert(answered(l, at, Ask::MakeTempDir, l.answers[k]));
        lemma_stands_for(l1, l, at, at, device, found);
        assert(l.asked.is_prefix_of(l.asked));
        lemma_mounted_at(l, l, l2.asked.len() as int, at, found, dir);
    }
}

/// The words of the command that tells whether a device is encrypted.
pub open spec fn is_luks_words(device: Seq<char>) -> Call {
    words("cryptsetup"@, seq!["isLuks"@, device])
}

/// From position `at` on, the device that stands for the named one was found to be encrypted,
/// and was unlocked as the configuration says.
pub open spec fn opened(l: Log, at: int, device: Seq<char>, e: Encryption) -> bool {
    exists|found: Seq<char>| #[trigger]
        stands_for(l, at, device, found) && succeeded(l, at, is_luks_words(found)) && unlocked(
            l,
            at,
            found,
            e.mapping_name,
            e.keyfile,
            e.passphrase_env,
        )
}

/// From position `at` on, what a configuration names was mounted: a mounted path is used as it
/// is; a device is mounted in a directory of its own; an encrypted one is unlocked before, and
/// the unlocked device is what is mounted.
pub open spec fn reached(
    l: Log,
    at: int,
    location: Location,
    unlock: Option<Encryption>,
    m: Mounted,
) -> bool {
    match (location, unlock) {
        (Location::MountedPath(path), _) => {
            &&& m == (Mounted { point: path, mapping: None, managed: false })
            &&& answered(l, at, Ask::Exists(path), Answer::Flag(true))
        },
        (Location::Device(device), None) => {
            &&& m.managed
            &&& m.mapping is None
            &&& managed_at(l, at, device, m.point)
        },
        (Location::Device(device), Some(e)) => {
            &&& m.managed
            &&& m.mapping == Some(e.mapping_name)
            &&& opened(l, at, device, e)
            &&& managed_at(l, at, "/dev/mapper/"@ + e.mapping_name, m.point)
        },
    }
}

proof fn lemma_guarding_encrypted(device: Seq<char>, e: Encryption, log: Log)
    requires
        settled(log),
    ensures
        ({
            let (l, o) = drive(guarding_encrypted(device, e), log);
            o matches Some(Ok(m)) ==> reached(
                l,
                log.asked.len() as int,
                Location::Device(device),
                Some(e),
                m,
            )
        }),
{
    broadcast use {group_plan, lemma_drive_extends};

    reveal(guarding_encrypted);
    reveal(checking_luks_at);
    let at = log.asked.len() as int;
    let (l, o) = drive(guarding_encrypted(device, e), log);
    if let Some(Ok(m)) = o {
        let (l1, o1) = drive(resolving(device), log);
        let found = o1->0->Ok_0;
        lemma_resolving(device, log);
        let is_luks = is_luks_words(found);
        assert(call("cryptsetup"@).arg("isLuks"@).arg(found).args =~= is_luks.args);
        let (l2, o2) = drive(querying(is_luks), l1);
        lemma_querying(is_luks, l1);
        let p3 = opening_at(found, e.mapping_name, e.keyfile, e.passphrase_env);
        let (l3, o3) = drive(p3, l2);
        lemma_opening_at(found, e.mapping_name, e.keyfile, e.passphrase_env, l2);
        let mapped = o3->0->Ok_0;
        lemma_mounting_managed(mapped, l3);
        let l4 = drive(mounting_managed(mapped), l3).0;
        assert(l == l4);
        assert(extends(l1, l));
        assert(extends(l2, l));
        lemma_stands_for(l1, l, at, at, device, found);
        lemma_succeeded(l2, l, l1.asked.len() as int, at, is_luks);
        lemma_unlocked(
            l3,
            l,
            l2.asked.len() as int,
            at,
            found,
            e.mapping_name,
            e.keyfile,
            e.passphrase_env,
        );
        assert(l.asked.is_prefix_of(l.asked));
        lemma_managed_at(l, l, l3.asked.len() as int, at, mapped, m.point);
        assert(stands_for(l, at, device, found));
        assert(opened(l, at, device, e));
    }
}

/// Mounting the target and the EFI system partition: what is mounted is what the configuration
/// names. The target is unlocked where it is an encrypted device.
pub proof fn lemma_mounted_as_configured(
    location: Location,
    unlock: Option<Encryption>,
    missing: Seq<char>,
    target: Target,
    boot: LiveBoot,
    log: Log,
)
    requires
        settled(log),
    ensures
        ({
            let at = log.asked.len() as int;
            &&& drive(mounting_location(location, unlock, missing), log) matches (l, Some(Ok(m)))
                ==> reached(l, at, location, unlock, m)
            &&& drive(mounting_target(target), log) matches (l, Some(Ok(m))) ==> reached(
                l,
                at,
                target.location,
                target.encryption,
                m,
            )
            &&& drive(mounting_esp(boot), log) matches (l, Some(Ok(m))) ==> reached(
                l,
                at,
                boot.esp_location,
                None,
                m,
            )
        }),
{
    reveal(mounting_target);
    reveal(mounting_esp);
    lemma_mounting_location(location, unlock, missing, log);
    lemma_mounting_location(
        target.location,
        target.encryption,
        "Target mounted path does not exist: "@,
        log,
    );
    lemma_mounting_location(
        boot.esp_location,
        None,
        "ESP mounted path does not exist: "@,
        log,
    );
}

proof fn lemma_mounting_location(
    location: Location,
    unlock: Option<Encryption>,
    missing: Seq<char>,
    log: Log,
)
    requires
        settled(log),
    ensures
        drive(mounting_location(location, unlock, missing), log) matches (l, Some(Ok(m)))
            ==> reached(l, log.asked.len() as int, location, unlock, m),
{
    broadcast use {group_plan, lemma_drive_extends};

    reveal(mounting_location);
    let at = log.asked.len() as int;
    match (location, unlock) {
        (Location::MountedPath(path), _) => {
            let (l, o) = drive(present(path), log);
            if o matches Some(Ok(true)) {
                assert(l.asked[at] == Ask::Exists(path));
                assert(l.answers[at] == Answer::Flag(true));
            }
        },
        (Location::Device(device), None) => {
            reveal(guarding);
            lemma_mounting_managed(device, log);
        },
        (Location::Device(device), Some(e)) => {
            lemma_guarding_encrypted(device, e, log);
        },
    }
}

/// Mounting a device through a guard, encrypted or not.
pub proof fn lemma_guards(device: Seq<char>, e: Encryption, log: Log)
    requires
        settled(log),
    ensures
        ({
            let at = log.asked.len() as int;
            let location = Location::Device(device);
            &&& drive(guarding(device), log) matches (l, Some(Ok(m))) ==> reached(
                l,
                at,
                location,
                None,
                m,
            )
            &&& drive(guarding_encrypted(device, e), log) matches (l, Some(Ok(m))) ==> reached(
                l,
                at,
                location,
                Some(e),
                m,
            )
        }),
{
    broadcast use group_plan;

    reveal(guarding);
    lemma_mounting_managed(device, log);
    lemma_guarding_encrypted(device, e, log);
}

/// Whether a device is encrypted is what `cryptsetup` says of the block device that stands for
/// it, and whether something is mounted is what `findmnt` says.
pub proof fn lemma_questions(device: Seq<char>, point: Seq<char>, log: Log)
    requires
        settled(log),
    ensures
        ({
            let at = log.asked.len() as int;
            &&& drive(checking_luks(device), log) matches (l, Some(Ok(yes))) ==> exists|
                found: Seq<char>,
                p: Printed,
            |
                stands_for(l, at, device, found) && yes == p.success && #[trigger] answered(
                    l,
                    at,
                    Ask::Run(is_luks_words(found)),
                    Answer::Ran(p),
                )
            &&& drive(checking_mounted(point), log) matches (l, Some(Ok(yes))) ==> (yes
                <==> succeeded(l, at, mounted_words(point)))
        }),
{
    broadcast use {group_plan, lemma_drive_extends};

    reveal(checking_luks);
    reveal(checking_luks_at);
    reveal(checking_mounted);
    let at = log.asked.len() as int;
    assert(call("findmnt"@).arg("--mountpoint"@).arg(point).arg("--noheadings"@).args
        =~= mounted_words(point).args);
    lemma_querying(mounted_words(point), log);
    let (l, o) = drive(checking_luks(device), log);
    if let Some(Ok(yes)) = o {
        let (l1, o1) = drive(resolving(device), log);
        let found = o1->0->Ok_0;
        lemma_resolving(device, log);
        assert(call("cryptsetup"@).arg("isLuks"@).arg(found).args =~= is_luks_words(found).args);
        let (l2, o2) = drive(querying(is_luks_words(found)), l1);
        let p = o2->0->Ok_0;
        lemma_querying(is_luks_words(found), l1);
        assert(l == l2);
        assert(l.asked.is_prefix_of(l.asked));
        lemma_stands_for(l1, l, at, at, device, found);
        lemma_answered(
            l,
            l,
            l1.asked.len() as int,
            at,
            Ask::Run(is_luks_words(found)),
            Answer::Ran(p),
        );
    }
}

/// The words of the command that unmounts what is mounted at a place.
pub open spec fn unmount_words(point: Seq<char>) -> Call {
    words("umount"@, seq![point])
}

/// The words of the command that locks an unlocked device.
pub open spec fn close_words(mapping: Seq<char>) -> Call {
    words("cryptsetup"@, seq!["close"@, mapping])
}

/// Unmounting and locking: one command each, and it decides the outcome.
pub proof fn lemma_giving_back_commands(point: Seq<char>, mapping: Seq<char>, log: Log)
    requires
        settled(log),
    ensures
        ({
            let at = log.asked.len() as int;
            &&& only(unmounting(point), running_only(unmount_words(point)))
            &&& only(closing(mapping), running_only(close_words(mapping)))
            &&& drive(unmounting(point), log) matches (l, Some(r)) ==> (r is Ok <==> succeeded(
                l,
                at,
                unmount_words(point),
            ))
            &&& drive(closing(mapping), log) matches (l, Some(r)) ==> (r is Ok <==> succeeded(
                l,
                at,
                close_words(mapping),
            ))
        }),
{
    reveal(unmounting);
    reveal(closing);
    assert(call("umount"@).arg(point).args =~= unmount_words(point).args);
    assert(call("cryptsetup"@).arg("close"@).arg(mapping).args =~= close_words(mapping).args);
    lemma_commanding(
        Area::Mount,
        unmount_words(point),
        "Failed to unmount "@ + point + ": "@,
        log,
    );
    lemma_commanding(
        Area::Mount,
        close_words(mapping),
        "Failed to close LUKS mapping "@ + mapping + ": "@,
        log,
    );
}

/// The request gives back what `m` stands for: unmounts it, locks its device, or removes its
/// directory.
pub open spec fn gives_back(m: Mounted) -> spec_fn(Ask) -> bool {
    |q: Ask|
        {
            ||| q is Say
            ||| m.managed && q == Ask::Run(unmount_words(m.point))
            ||| m.managed && q == Ask::RemoveTempDir(m.point)
            ||| m.mapping matches Some(n) && q == Ask::Run(close_words(n))
        }
}

/// The plan runs its command whatever comes of it.
proof fn lemma_commanding_asks(area: Area, c: Call, msg: Seq<char>, log: Log)
    requires
        settled(log),
    ensures
        ({
            let (l, o) = drive(commanding(area, c, msg), log);
            o is Some ==> asked_for(l, log.asked.len() as int, Ask::Run(c))
        }),
{
    broadcast use group_plan;

    reveal(commanding);
    reveal(launching);
    reveal(complaining);
    let (l, o) = drive(commanding(area, c, msg), log);
    if o is Some {
        assert(l.asked[log.asked.len() as int + 1] == Ask::Run(c));
    }
}

/// Giving back what was mounted: nothing else is asked for. What was mounted in a directory of
/// its own is unmounted, then its device is locked where it was unlocked, and then the
/// directory is removed; a failure of one step keeps none of the others from its turn.
pub proof fn lemma_releasing(m: Mounted, log: Log)
    requires
        settled(log),
    ensures
        only(releasing(m), gives_back(m)),
        ({
            let (l, o) = drive(releasing(m), log);
            let at = log.asked.len() as int;
            o is Some ==> exists|i: int, j: int|
                {
                    &&& at <= i
                    &&& #[trigger] between(l, i, j)
                    &&& m.managed ==> asked_for(upto(l, i), at, Ask::Run(unmount_words(m.point)))
                    &&& m.mapping matches Some(n) ==> asked_for(
                        upto(l, j),
                        i,
                        Ask::Run(close_words(n)),
                    )
                    &&& m.managed ==> asked_for(l, j, Ask::RemoveTempDir(m.point))
                }
        }),
{
    broadcast use {group_plan, group_only, lemma_drive_extends};

    reveal(releasing);
    assert(only(releasing(m), gives_back(m))) by {
        reveal(unmounting);
        reveal(closing);
        reveal(commanding);
        reveal(launching);
        reveal(complaining);
        assert(call("umount"@).arg(m.point).args =~= unmount_words(m.point).args);
        if let Some(n) = m.mapping {
            assert(call("cryptsetup"@).arg("close"@).arg(n).args =~= close_words(n).args);
        }
    }
    let at = log.asked.len() as int;
    let (l, o) = drive(releasing(m), log);
    if o is Some {
        let p1 = if m.managed {
            warning_of(unmounting(m.point), "Failed to unmount "@ + m.point + ": "@)
        } else {
            ok(())
        };
        let (l1, o1) = drive(p1, log);
        let p2 = match m.mapping {
            Some(n) => warning_of(closing(n), "Failed to close LUKS mapping "@ + n + ": "@),
            None => ok(()),
        };
        let (l2, o2) = drive(p2, l1);
        let i = l1.asked.len() as int;
        let j = l2.asked.len() as int;
        assert(extends(l1, l));
        assert(extends(l2, l));
        if m.managed {
            reveal(unmounting);
            assert(call("umount"@).arg(m.point).args =~= unmount_words(m.point).args);
            let msg = "Failed to unmount "@ + m.point + ": "@;
            lemma_commanding_asks(Area::Mount, unmount_words(m.point), msg, log);
            let u = drive(unmounting(m.point), log).0;
            assert(extends(u, l1));
            lemma_asked_for(u, l1, at, at, Ask::Run(unmount_words(m.point)));
            assert(upto(l, i).asked =~= l1.asked);
            assert(l.asked[j] == Ask::RemoveTempDir(m.point));
        }
        if let Some(n) = m.mapping {
            reveal(closing);
            assert(call("cryptsetup"@).arg("close"@).arg(n).args =~= close_words(n).args);
            let msg = "Failed to close LUKS mapping "@ + n + ": "@;
            lemma_commanding_asks(Area::Mount, close_words(n), msg, l1);
            let u = drive(closing(n), l1).0;
            assert(extends(u, l2));
            lemma_asked_for(u, l2, i, i, Ask::Run(close_words(n)));
            assert(upto(l, j).asked =~= l2.asked);
        }
        assert(between(l, i, j));
    }
}

/// The first `k` requests of a log.
pub open spec fn upto(l: Log, k: int) -> Log {
    Log { asked: l.asked.take(k), ..l }
}

/// Two positions in a log, in order.
pub open spec fn between(l: Log, i: int, j: int) -> bool {
    0 <= i <= j <= l.asked.len()
}

} // verus!
