//! Preparing a target for live boot that is prepared already.

use crate::btrfs::creating_subvolume;
use crate::command_runner::{commanding, complaining, launching, querying, Area};
use crate::config::{BootEntry, LiveBoot, Location, Target};
use crate::disk::{
    apart, follows, lemma_follows_ask, lemma_follows_bind, lemma_follows_then, lemma_present, now,
    place, within, Disk,
};
use crate::error::Fault;
use crate::hooks::uuid_call;
#[allow(unused_imports)]
use crate::journal::{
    ask, call, drive, fail, flag_in, group_plan, ok, perform, present, run, say, then, Answer, Ask,
    Call, Log, Printed, Tone, Try,
};
use crate::liveboot::{
    creating_entry, entries_dir_of, entry_content, entry_file_of, entry_options, finding_luks,
    finding_luks_uuid, finding_root, installing_bootloader, preparing_live_boot,
    providing_subvolume, resolving_target, root_device_of, setting_up_boot, LuksBoot,
};
use crate::path::{is_absolute, joined_path};
use crate::sparing::{lemma_away, lemma_away_boot};
use crate::text::{lossy_text, trimmed};
use crate::trace::{extends, group_only, lemma_drive_extends};
use crate::ui::command_text;
use vstd::prelude::*;

verus! {

/// The command was successful and printed what is read from it: a UUID, or a device.
pub open spec fn useful(c: Call, o: Printed) -> bool {
    let said = trimmed(lossy_text(o.stdout));
    &&& o.success
    &&& c.program == "findmnt"@ || c.program == "cryptsetup"@ ==> said.len() > 0
    &&& c.program == "findfs"@ ==> "/dev/"@.is_prefix_of(said)
}

/// Every request from the one with the number `from` on is successful.
pub open spec fn all_well(log: Log, from: int) -> bool {
    forall|i: int|
        #![trigger log.asked[i]]
        from <= i < log.asked.len() ==> match log.asked[i] {
            Ask::Exists(_) => log.answers[i] is Flag,
            Ask::Run(c) => log.answers[i] matches Answer::Ran(o) && useful(c, o),
            Ask::CreateDirAll(_) | Ask::WriteFile { .. } => log.answers[i] is Done,
            _ => true,
        }
}

proof fn lemma_well_in_part(l: Log, m: Log, from: int, later: int)
    requires
        extends(l, m),
        all_well(m, from),
        0 <= from <= later,
    ensures
        all_well(l, later),
{
    assert forall|i: int| later <= i < l.asked.len() implies match #[trigger] l.asked[i] {
        Ask::Exists(_) => l.answers[i] is Flag,
        Ask::Run(c) => l.answers[i] matches Answer::Ran(o) && useful(c, o),
        Ask::CreateDirAll(_) | Ask::WriteFile { .. } => l.answers[i] is Done,
        _ => true,
    } by {
        assert(m.asked[i] == l.asked[i]);
    }
}

/// The plan succeeds where every request does.
pub open spec fn does_well<T>(p: Try<T>) -> bool {
    forall|log: Log|
        #![trigger drive(p, log)]
        log.asked.len() <= log.answers.len() && all_well(
            drive(p, log).0,
            log.asked.len() as int,
        ) ==> (drive(p, log).1 matches Some(r) ==> r is Ok)
}

proof fn lemma_well_then<T, U>(p: Try<T>, f: spec_fn(T) -> Try<U>)
    requires
        does_well(p),
        forall|t: T| does_well(#[trigger] f(t)),
    ensures
        does_well(then(p, f)),
{
    broadcast use group_plan;

    assert forall|log: Log|
        #![trigger drive(then(p, f), log)]
        log.asked.len() <= log.answers.len() && all_well(
            drive(then(p, f), log).0,
            log.asked.len() as int,
        ) implies (drive(then(p, f), log).1 matches Some(r) ==> r is Ok) by {
        let n = log.asked.len() as int;
        let whole = drive(then(p, f), log).0;
        let (l, o) = drive(p, log);
        lemma_drive_extends(p, log);
        match o {
            Some(Ok(t)) => {
                lemma_drive_extends(f(t), l);
                lemma_well_in_part(whole, whole, n, l.asked.len() as int);
                assert(does_well(f(t)));
            },
            _ => {
                assert(whole == l);
            },
        }
    }
}

/// The plan for a command, of which the outcome is known to be useful.
proof fn lemma_well_asked<U>(announce: Try<()>, c: Call, f: spec_fn(Printed) -> Try<U>)
    requires
        does_well(announce),
        forall|o: Printed| useful(c, o) ==> does_well(#[trigger] f(o)),
    ensures
        does_well(then(then(announce, |u: ()| run(c)), f)),
{
    broadcast use group_plan;

    let p = then(announce, |u: ()| run(c));
    assert forall|log: Log|
        #![trigger drive(then(p, f), log)]
        log.asked.len() <= log.answers.len() && all_well(
            drive(then(p, f), log).0,
            log.asked.len() as int,
        ) implies (drive(then(p, f), log).1 matches Some(r) ==> r is Ok) by {
        let n = log.asked.len() as int;
        let whole = drive(then(p, f), log).0;
        let (l1, o1) = drive(announce, log);
        lemma_drive_extends(announce, log);
        lemma_drive_extends(then(p, f), log);
        if let Some(Ok(_)) = o1 {
            let k = l1.asked.len() as int;
            let (l2, o2) = drive(run(c), l1);
            lemma_drive_extends(run(c), l1);
            if k < l1.answers.len() {
                assert(l2.asked[k] == Ask::Run(c));
                if let Some(Ok(o)) = o2 {
                    lemma_drive_extends(f(o), l2);
                    assert(whole.asked[k] == Ask::Run(c));
                    assert(useful(c, o));
                    lemma_well_in_part(whole, whole, n, l2.asked.len() as int);
                    assert(does_well(f(o)));
                } else {
                    assert(whole == l2);
                    assert(whole.answers[k] is Ran);
                }
            }
        } else {
            assert(whole == l1);
        }
    }
}

proof fn lemma_well_ok<T>(t: T)
    ensures
        does_well(ok(t)),
{
    broadcast use group_plan;

}

proof fn lemma_well_say(tone: Tone, text: Seq<char>)
    ensures
        does_well(say(tone, text)),
{
    broadcast use group_plan;

}

proof fn lemma_well_perform(q: Ask)
    requires
        q is CreateDirAll || q is WriteFile,
    ensures
        does_well(perform(q)),
{
    broadcast use group_plan;

    assert forall|log: Log|
        #![trigger drive(perform(q), log)]
        log.asked.len() <= log.answers.len() && all_well(
            drive(perform(q), log).0,
            log.asked.len() as int,
        ) implies (drive(perform(q), log).1 matches Some(r) ==> r is Ok) by {
        let n = log.asked.len() as int;
        if n < log.answers.len() {
            assert(drive(perform(q), log).0.asked[n] == q);
        }
    }
}

/// Setting up the bootloader succeeds where every request does.
proof fn lemma_well_boot(
    mount: Seq<char>,
    l: LiveBoot,
    target: Target,
    esp: Seq<char>,
    live_root: Seq<char>,
)
    ensures
        does_well(
            then(
                say(Tone::Substep, "Initializing systemd-boot"@),
                |u: ()|
                    then(
                        installing_bootloader(esp),
                        |u: ()|
                            then(
                                say(Tone::Substep, "Creating boot entry"@),
                                |u: ()|
                                    creating_entry(mount, esp, l.boot_entry, target, live_root),
                            ),
                    ),
            ),
        ),
{
    lemma_well_say(Tone::Substep, "Initializing systemd-boot"@);
    lemma_well_say(Tone::Substep, "Creating boot entry"@);
    lemma_well_installing(esp);
    lemma_well_entry(mount, esp, l.boot_entry, target, live_root);
    let last = |u: ()| creating_entry(mount, esp, l.boot_entry, target, live_root);
    let tail = |u: ()| then(say(Tone::Substep, "Creating boot entry"@), last);
    lemma_well_then(say(Tone::Substep, "Creating boot entry"@), last);
    lemma_well_then(installing_bootloader(esp), tail);
    lemma_well_then(
        say(Tone::Substep, "Initializing systemd-boot"@),
        |u: ()| then(installing_bootloader(esp), tail),
    );
}

proof fn lemma_well_installing(esp: Seq<char>)
    ensures
        does_well(installing_bootloader(esp)),
{
    reveal(installing_bootloader);
    reveal(commanding);
    reveal(launching);
    let c = call("bootctl"@).arg("--esp-path"@).arg(esp).arg("install"@);
    let msg = "Failed to install systemd-boot to "@ + esp + ": "@;
    lemma_well_say(Tone::CmdStart, command_text(c));
    lemma_well_ok(());
    lemma_well_asked(
        say(Tone::CmdStart, command_text(c)),
        c,
        |o: Printed|
            if o.success {
                ok(())
            } else {
                complaining(Area::Bootloader, msg, o)
            },
    );
}

proof fn lemma_well_root(mount: Seq<char>)
    ensures
        does_well(finding_root(mount)),
{
    reveal(finding_root);
    reveal(querying);
    let c = uuid_call(mount);
    lemma_well_say(Tone::Detail, "$ "@ + command_text(c));
    let f = |o: Printed|
        if !o.success {
            fail(Fault::Mount("Failed to find UUID for mount point "@ + mount))
        } else if trimmed(lossy_text(o.stdout)).len() == 0 {
            fail(Fault::Mount("Empty UUID for mount point "@ + mount))
        } else {
            ok(trimmed(lossy_text(o.stdout)))
        };
    assert forall|o: Printed| useful(c, o) implies does_well(#[trigger] f(o)) by {
        lemma_well_ok(trimmed(lossy_text(o.stdout)));
    }
    lemma_well_asked(say(Tone::Detail, "$ "@ + command_text(c)), c, f);
}

proof fn lemma_well_luks_uuid(device: Seq<char>)
    ensures
        does_well(finding_luks_uuid(device)),
{
    reveal(finding_luks_uuid);
    reveal(querying);
    let c = call("cryptsetup"@).arg("luksUUID"@).arg(device);
    lemma_well_say(Tone::Detail, "$ "@ + command_text(c));
    let f = |o: Printed|
        if !o.success {
            fail(
                Fault::Bootloader(
                    "Failed to query LUKS UUID for "@ + device + ": "@ + lossy_text(o.stderr),
                ),
            )
        } else if trimmed(lossy_text(o.stdout)).len() == 0 {
            fail(Fault::Bootloader("Empty LUKS UUID for "@ + device))
        } else {
            ok(trimmed(lossy_text(o.stdout)))
        };
    assert forall|o: Printed| useful(c, o) implies does_well(#[trigger] f(o)) by {
        lemma_well_ok(trimmed(lossy_text(o.stdout)));
    }
    lemma_well_asked(say(Tone::Detail, "$ "@ + command_text(c)), c, f);
}

proof fn lemma_well_resolving(device: Seq<char>)
    ensures
        does_well(resolving_target(device)),
{
    reveal(resolving_target);
    reveal(querying);
    lemma_well_ok(device);
    let c = call("findfs"@).arg(device);
    lemma_well_say(Tone::Detail, "$ "@ + command_text(c));
    let f = |o: Printed|
        if !o.success {
            fail(
                Fault::Bootloader(
                    "Failed to resolve target device identifier "@ + device
                        + " for LUKS boot options: "@ + lossy_text(o.stderr),
                ),
            )
        } else if "/dev/"@.is_prefix_of(trimmed(lossy_text(o.stdout))) {
            ok(trimmed(lossy_text(o.stdout)))
        } else {
            fail(
                Fault::Bootloader(
                    "Resolved target device identifier "@ + device
                        + " to invalid block device path: "@ + trimmed(lossy_text(o.stdout)),
                ),
            )
        };
    assert forall|o: Printed| useful(c, o) implies does_well(#[trigger] f(o)) by {
        lemma_well_ok(trimmed(lossy_text(o.stdout)));
    }
    lemma_well_asked(say(Tone::Detail, "$ "@ + command_text(c)), c, f);
}

proof fn lemma_well_luks(target: Target)
    ensures
        does_well(finding_luks(target)),
{
    reveal(finding_luks);
    lemma_well_ok(None::<LuksBoot>);
    if let (Some(e), Location::Device(device)) = (target.encryption, target.location) {
        let made = |uuid: Seq<char>|
            ok(Some(LuksBoot { luks_uuid: uuid, mapping_name: e.mapping_name }));
        let next = |resolved: Seq<char>| then(finding_luks_uuid(resolved), made);
        assert forall|uuid: Seq<char>| does_well(#[trigger] made(uuid)) by {
            lemma_well_ok(Some(LuksBoot { luks_uuid: uuid, mapping_name: e.mapping_name }));
        }
        assert forall|resolved: Seq<char>| does_well(#[trigger] next(resolved)) by {
            lemma_well_luks_uuid(resolved);
            lemma_well_then(finding_luks_uuid(resolved), made);
        }
        lemma_well_resolving(device);
        lemma_well_then(resolving_target(device), next);
    }
}

proof fn lemma_well_entry(
    mount: Seq<char>,
    esp: Seq<char>,
    entry: BootEntry,
    target: Target,
    live_root: Seq<char>,
)
    ensures
        does_well(creating_entry(mount, esp, entry, target, live_root)),
{
    reveal(creating_entry);
    let folder = Ask::CreateDirAll(entries_dir_of(esp));
    let third = |root_uuid: Seq<char>|
        then(
            finding_luks(target),
            |luks: Option<LuksBoot>|
                then(
                    perform(Ask::CreateDirAll(entries_dir_of(esp))),
                    |u: ()|
                        perform(
                            Ask::WriteFile {
                                path: entry_file_of(esp, entry.title),
                                text: entry_content(
                                    entry,
                                    entry_options(
                                        entry.options,
                                        root_device_of(target, root_uuid),
                                        live_root,
                                        luks,
                                    ),
                                ),
                            },
                        ),
                ),
        );
    lemma_well_root(mount);
    lemma_well_luks(target);
    lemma_well_perform(folder);
    assert forall|root_uuid: Seq<char>| does_well(#[trigger] third(root_uuid)) by {
        let second = |luks: Option<LuksBoot>|
            then(
                perform(Ask::CreateDirAll(entries_dir_of(esp))),
                |u: ()|
                    perform(
                        Ask::WriteFile {
                            path: entry_file_of(esp, entry.title),
                            text: entry_content(
                                entry,
                                entry_options(
                                    entry.options,
                                    root_device_of(target, root_uuid),
                                    live_root,
                                    luks,
                                ),
                            ),
                        },
                    ),
            );
        assert forall|luks: Option<LuksBoot>| does_well(#[trigger] second(luks)) by {
            let write = Ask::WriteFile {
                path: entry_file_of(esp, entry.title),
                text: entry_content(
                    entry,
                    entry_options(
                        entry.options,
                        root_device_of(target, root_uuid),
                        live_root,
                        luks,
                    ),
                ),
            };
            lemma_well_perform(write);
            lemma_well_then(perform(folder), |u: ()| perform(write));
        }
        lemma_well_then(finding_luks(target), second);
    }
    lemma_well_then(finding_root(mount), third);
}

/// Preparing a target on which both subvolumes exist succeeds where every request does, and
/// both are the same subvolumes with the same content as before. Where there is no EFI system
/// partition, nothing changes at all.
///
/// The EFI system partition must be kept apart from both, and the title of the boot entry must
/// not look like an absolute path.
pub proof fn lemma_preparing_again_succeeds(
    mount: Seq<char>,
    l: LiveBoot,
    target: Target,
    esp: Seq<char>,
    live_root: Seq<char>,
    snapshots: Seq<char>,
    log: Log,
    ds: spec_fn(int) -> Disk,
)
    requires
        follows(preparing_live_boot(mount, l, target, esp, live_root, snapshots), log, ds),
        all_well(
            drive(preparing_live_boot(mount, l, target, esp, live_root, snapshots), log).0,
            log.asked.len() as int,
        ),
        now(log, ds).on(joined_path(mount, snapshots)) is Some,
        now(log, ds).on(joined_path(mount, live_root)) is Some,
        now(log, ds).on(esp) is Some ==> {
            &&& apart(place(esp), place(joined_path(mount, live_root)))
            &&& apart(place(esp), place(joined_path(mount, snapshots)))
            &&& !is_absolute(l.boot_entry.title)
        },
    ensures
        ({
            let plan = preparing_live_boot(mount, l, target, esp, live_root, snapshots);
            let (after, o) = drive(plan, log);
            let (d, e) = (now(log, ds), now(after, ds));
            let (a, b) = (joined_path(mount, snapshots), joined_path(mount, live_root));
            o matches Some(r) ==> {
                &&& r == Ok::<(), Fault>(())
                &&& e.on(a) == d.on(a) && e.tag_on(a) == d.tag_on(a)
                &&& e.on(b) == d.on(b) && e.tag_on(b) == d.tag_on(b)
                &&& d.on(esp) is None ==> e == d
            }
        }),
{
    broadcast use {group_plan, group_only};

    reveal(preparing_live_boot);
    reveal(providing_subvolume);
    let plan = preparing_live_boot(mount, l, target, esp, live_root, snapshots);
    let whole = drive(plan, log).0;
    let n = log.asked.len() as int;
    let d = now(log, ds);
    let a = joined_path(mount, snapshots);
    let b = joined_path(mount, live_root);
    let (m1, m2) = (
        "Creating snapshots subvolume: "@ + snapshots,
        "Creating live boot subvolume: "@ + live_root,
    );
    let boot = setting_up_boot(mount, l, target, esp, live_root);
    let second = |u: ()| then(providing_subvolume(b, m2), |u: ()| boot);
    lemma_drive_extends(plan, log);
    lemma_follows_then(providing_subvolume(a, m1), second, log, ds);
    let (l1, o1) = drive(providing_subvolume(a, m1), log);
    if let Some(Ok(u)) = o1 {
        lemma_drive_extends(second(u), l1);
    }
    lemma_well_in_part(l1, whole, n, n);
    lemma_found(a, m1, log, ds);
    if o1 is Some {
        lemma_follows_then(providing_subvolume(b, m2), |u: ()| boot, l1, ds);
        let (l2, o2) = drive(providing_subvolume(b, m2), l1);
        if let Some(Ok(_)) = o2 {
            lemma_drive_extends(boot, l2);
        }
        lemma_well_in_part(l2, whole, n, l1.asked.len() as int);
        lemma_found(b, m2, l1, ds);
        if o2 is Some {
            let n2 = l2.asked.len() as int;
            let rest = then(
                say(Tone::Substep, "Initializing systemd-boot"@),
                |u: ()|
                    then(
                        installing_bootloader(esp),
                        |u: ()|
                            then(
                                say(Tone::Substep, "Creating boot entry"@),
                                |u: ()|
                                    creating_entry(mount, esp, l.boot_entry, target, live_root),
                            ),
                    ),
            );
            let k = |there: bool|
                if !there {
                    ok(())
                } else {
                    rest
                };
            lemma_follows_then(present(esp), k, l2, ds);
            lemma_present(esp, l2, ds);
            let (l3, o3) = drive(present(esp), l2);
            assert(drive(plan, log) == drive(boot, l2));
            if let Some(Ok(there)) = o3 {
                assert(drive(boot, l2) == drive(k(there), l3));
                if there {
                    lemma_drive_extends(rest, l3);
                    lemma_well_in_part(whole, whole, n, l3.asked.len() as int);
                    lemma_well_boot(mount, l, target, esp, live_root);
                    if let Some(Ok(u)) = drive(rest, l3).1 {
                        assert(u == ());
                    }
                    lemma_away_boot(mount, l, target, esp, live_root, place(a));
                    lemma_away_boot(mount, l, target, esp, live_root, place(b));
                    lemma_away(boot, place(a), l2, ds);
                    lemma_away(boot, place(b), l2, ds);
                    let e = now(whole, ds);
                    assert(within(place(a), place(a)) && within(place(b), place(b)));
                    assert(e.on(a) == d.on(a) && e.on(b) == d.on(b));
                    assert(e.tag_on(a) == d.tag_on(a) && e.tag_on(b) == d.tag_on(b));
                }
            }
        }
    }
}

/// Where something stands already, nothing is created.
proof fn lemma_found(path: Seq<char>, msg: Seq<char>, log: Log, ds: spec_fn(int) -> Disk)
    requires
        follows(providing_subvolume(path, msg), log, ds),
        all_well(drive(providing_subvolume(path, msg), log).0, log.asked.len() as int),
        now(log, ds).on(path) is Some,
    ensures
        ({
            let (l, o) = drive(providing_subvolume(path, msg), log);
            o is Some ==> o == Some(Ok::<(), Fault>(())) && now(l, ds) == now(log, ds)
        }),
{
    broadcast use group_plan;

    reveal(providing_subvolume);
    let k = |there: bool|
        if there {
            ok(())
        } else {
            then(say(Tone::Substep, msg), |u: ()| creating_subvolume(path))
        };
    let whole = drive(providing_subvolume(path, msg), log).0;
    lemma_drive_extends(providing_subvolume(path, msg), log);
    lemma_follows_then(present(path), k, log, ds);
    lemma_present(path, log, ds);
    lemma_follows_bind(ask(Ask::Exists(path)), |a: Answer| ok(flag_in(a)), log, ds);
    lemma_follows_ask(Ask::Exists(path), log, ds);
    let n = log.asked.len() as int;
    let (l1, o1) = drive(present(path), log);
    if let Some(Ok(there)) = o1 {
        lemma_drive_extends(k(there), l1);
        assert(l1.asked[n] == Ask::Exists(path));
        assert(whole.asked[n] == Ask::Exists(path));
        assert(whole.answers[n] is Flag);
    }
}

}
