//! What a command that succeeds has done.

use crate::access::{lemma_mounted_as_configured, reached};
use crate::backup::{
    acquiring, announcing, backing_up, backing_up_all, backing_up_each, backing_up_one,
    backing_up_to_target, conclusion, mounting_esp, mounting_target, preparing, preparing_mounted,
    preparing_on_target, running, snapshots_dir, summing_up, updating_after, updating_live, working,
    Outcome,
};
use crate::booting::{boots, lemma_boot_entry};
use crate::cli::Commands;
use crate::command_runner::{ignoring, Area};
use crate::config::{validating, BootEntry, LiveBoot, Setup, Source, Target};
use crate::course::lemma_conclusion;
use crate::device::Mounted;
use crate::finishing::{hooks_done, lemma_hooks_done, lemma_updating_live};
use crate::journal::{
    call, drive, failure_in, flag_in, group_plan, perform, present, say, Answer, Ask, Call, Log,
    Printed, Tone, TransferStats,
};
use crate::lineage::{kept_at, lemma_backup_transfers, lemma_snapper_makes, snapper_create};
use crate::liveboot::{
    creating_entry, installing_bootloader, preparing_live_boot, providing_subvolume,
};
use crate::orders::{
    answered, arrived, lemma_answered, lemma_arrived, lemma_commanding, lemma_subvolume_commands,
    lemma_succeeded, succeeded, words,
};
use crate::path::joined_path;
use crate::rotation::local_dir;
use crate::snapshot::{
    creating_by_snapper, creating_local, creating_manual, creating_with_parent, Owned,
};
use crate::text::{lossy_text, parsed, trimmed, with_char};
use crate::trace::{extends, lemma_drive_extends, settled};
use crate::ui::step_text;
use vstd::prelude::*;

verus! {

/// Where things are on a mounted target: what the configuration names, and without a name `@`
/// for the live boot environment. The snapshots are in `@snapshots` where there is a live boot
/// environment and no name is given, and right on the target where there is none.
pub proof fn lemma_places_on_target(target: Target, mount: Seq<char>)
    ensures
        match target.snapshot_subvolume {
            Some(name) => snapshots_dir(target, mount) == joined_path(mount, name),
            None => if target.enable_live_boot {
                snapshots_dir(target, mount) == joined_path(mount, "@snapshots"@)
            } else {
                snapshots_dir(target, mount) == mount
            },
        },
        match target.live_boot_subvolume {
            Some(name) => target.live_root() == name,
            None => target.live_root() == "@"@,
        },
{
}

/// `path` is a local snapshot of the source: one with a number where snapper makes them, else
/// the one that is named after the source and the configuration.
pub open spec fn snapshot_of(source: Source, config: Seq<char>, path: Seq<char>) -> bool {
    if source.use_snapper {
        exists|n: u64| path == #[trigger] kept_at(joined_path(source.path, source.snapshot_dir), n)
    } else {
        path == joined_path(
            joined_path(source.path, source.snapshot_dir),
            source.snapshot_name + "_"@ + config,
        )
    }
}

/// From position `at` on, a snapshot of the source was sent to `dest`, and arrived.
pub open spec fn source_arrived(
    l: Log,
    at: int,
    source: Source,
    config: Seq<char>,
    dest: Seq<char>,
) -> bool {
    exists|path: Seq<char>, parent: Option<Seq<char>>, stats: TransferStats| #[trigger]
        arrived(l, at, path, parent, dest, stats) && snapshot_of(source, config, path)
}

proof fn lemma_source_arrived(
    before: Log,
    after: Log,
    at: int,
    from: int,
    source: Source,
    config: Seq<char>,
    dest: Seq<char>,
)
    requires
        source_arrived(before, at, source, config, dest),
        extends(before, after),
        0 <= from <= at,
    ensures
        source_arrived(after, from, source, config, dest),
{
    let (path, parent, stats) = choose|
        path: Seq<char>,
        parent: Option<Seq<char>>,
        stats: TransferStats,
    | #[trigger]
        arrived(before, at, path, parent, dest, stats) && snapshot_of(source, config, path);
    lemma_arrived(before, after, at, from, path, parent, dest, stats);
}

/// The local snapshot that is made is one of the source.
proof fn lemma_makes_snapshot_of(source: Source, config: Seq<char>, log: Log)
    requires
        settled(log),
    ensures
        drive(creating_local(Owned { source, config }), log).1 matches Some(Ok(made))
            ==> snapshot_of(source, config, made.0),
{
    broadcast use {group_plan, lemma_drive_extends};

    let w = Owned { source, config };
    let (l, o) = drive(creating_local(w), log);
    if let Some(Ok(made)) = o {
        let dir = local_dir(source);
        if source.use_snapper {
            match source.snapper_config {
                Some(snapper) => {
                    lemma_snapper_makes(w, snapper, log);
                    let at = log.asked.len() as int;
                    let q = Ask::Run(snapper_create(snapper, "btrbak_"@ + config));
                    let p = choose|p: Printed|
                        p.success && #[trigger] answered(l, at, q, Answer::Ran(p)) && (parsed(
                            trimmed(lossy_text(p.stdout)),
                        ) matches Ok(n) && made.0 == kept_at(dir, n));
                    let n = parsed(trimmed(lossy_text(p.stdout)))->Ok_0;
                    assert(made.0 == kept_at(dir, n));
                },
                None => {
                    reveal(creating_local);
                    reveal(creating_with_parent);
                    reveal(creating_by_snapper);
                },
            }
        } else {
            reveal(creating_local);
            reveal(creating_manual);
        }
    }
}

/// Where the backup of a source succeeds, a snapshot of it arrived where the snapshots are.
pub proof fn lemma_source_arrives(
    source: Source,
    target: Target,
    mount: Seq<char>,
    config: Seq<char>,
    log: Log,
)
    requires
        settled(log),
    ensures
        ({
            let (l, o) = drive(backing_up(source, target, mount, config), log);
            o matches Some(Ok(_)) ==> source_arrived(
                l,
                log.asked.len() as int,
                source,
                config,
                snapshots_dir(target, mount),
            )
        }),
{
    broadcast use {group_plan, lemma_drive_extends};

    lemma_backup_transfers(source, target, mount, config, log);
    let (l, o) = drive(backing_up(source, target, mount, config), log);
    if let Some(Ok(stats)) = o {
        let (l1, o1) = drive(say(Tone::Substep, "Creating local snapshot"@), log);
        assert(o1 is Some) by {
            reveal(backing_up);
        }
        lemma_makes_snapshot_of(source, config, l1);
    }
}

/// The sources from `i` on that were backed up have arrived.
proof fn lemma_each_arrives(c: Setup, mount: Seq<char>, i: int, done: Seq<Outcome>, log: Log)
    requires
        settled(log),
        0 <= i <= c.sources.len(),
    ensures
        ({
            let (l, o) = drive(backing_up_each(c, mount, i, done), log);
            o matches Some(Ok(all)) ==> {
                &&& all.len() == done.len() + c.sources.len() - i
                &&& done.is_prefix_of(all)
                &&& forall|j: int|
                    i <= j < c.sources.len() && all[done.len() + j - i].result is Ok
                        ==> source_arrived(
                        l,
                        log.asked.len() as int,
                        #[trigger] c.sources[j],
                        c.name,
                        snapshots_dir(c.target, mount),
                    )
            }
        }),
    decreases c.sources.len() - i,
{
    broadcast use {group_plan, lemma_drive_extends};

    let at = log.asked.len() as int;
    let dest = snapshots_dir(c.target, mount);
    let (l, o) = drive(backing_up_each(c, mount, i, done), log);
    if i < c.sources.len() {
        if let Some(Ok(all)) = o {
            reveal(backing_up_one);
            let source = c.sources[i];
            let (l1, o1) = drive(backing_up_one(c, mount, i), log);
            let out = o1->0->Ok_0;
            let rest = done.push(out);
            lemma_each_arrives(c, mount, i + 1, rest, l1);
            let from = l1.asked.len() as int;
            assert(extends(l1, l));
            assert(rest[done.len() as int] == out);
            assert(all[done.len() as int] == out) by {
                assert(rest.is_prefix_of(all));
                assert(all.subrange(0, rest.len() as int)[done.len() as int] == out);
            }
            assert(done.is_prefix_of(all)) by {
                assert(all.subrange(0, done.len() as int) =~= all.subrange(
                    0,
                    rest.len() as int,
                ).drop_last());
                assert(rest.drop_last() =~= done);
            }
            let p1 = say(
                Tone::Step,
                step_text(
                    (i + 2) as nat,
                    crate::backup::steps_of(c),
                    "Backing up "@ + source.path,
                ),
            );
            let (m, o2) = drive(p1, log);
            let (n, r) = drive(backing_up(source, c.target, mount, c.name), m);
            if out.result is Ok {
                lemma_source_arrives(source, c.target, mount, c.name, m);
                assert(extends(n, l1));
                lemma_source_arrived(n, l, m.asked.len() as int, at, source, c.name, dest);
            }
            assert forall|j: int|
                i <= j < c.sources.len() && all[done.len() + j - i].result is Ok implies
                source_arrived(l, at, #[trigger] c.sources[j], c.name, dest)
            by {
                if j > i {
                    assert(all[rest.len() + j - (i + 1)] == all[done.len() + j - i]);
                    assert(l.asked.is_prefix_of(l.asked));
                    lemma_source_arrived(l, l, from, at, c.sources[j], c.name, dest);
                }
            }
        }
    } else {
        assert(done.is_prefix_of(done)) by {
            assert(done.subrange(0, done.len() as int) =~= done);
        }
    }
}

/// From position `at` on, the live boot environment was brought up to date: the EFI system
/// partition of the configuration was mounted, and the hooks did their work.
pub open spec fn live_updated(
    l: Log,
    at: int,
    c: Setup,
    boot: LiveBoot,
    mount: Seq<char>,
) -> bool {
    exists|m: Log, k: int, esp: Mounted|
        {
            &&& at <= k
            &&& extends(m, l)
            &&& #[trigger] reached(m, k, boot.esp_location, None, esp)
            &&& hooks_done(
                l,
                at,
                joined_path(mount, c.target.live_root()),
                mount,
                esp.point,
                c.hooks,
                boot.boot_entry,
                c,
            )
        }
}

proof fn lemma_live_updated(
    before: Log,
    after: Log,
    at: int,
    from: int,
    c: Setup,
    boot: LiveBoot,
    mount: Seq<char>,
)
    requires
        live_updated(before, at, c, boot, mount),
        extends(before, after),
        0 <= from <= at,
    ensures
        live_updated(after, from, c, boot, mount),
{
    let live = joined_path(mount, c.target.live_root());
    let (m, k, esp) = choose|m: Log, k: int, esp: Mounted|
        {
            &&& at <= k
            &&& extends(m, before)
            &&& #[trigger] reached(m, k, boot.esp_location, None, esp)
            &&& hooks_done(
                before,
                at,
                live,
                mount,
                esp.point,
                c.hooks,
                boot.boot_entry,
                c,
            )
        };
    lemma_hooks_done(
        before,
        after,
        at,
        from,
        live,
        mount,
        esp.point,
        c.hooks,
        boot.boot_entry,
        c,
    );
    assert(extends(m, after)) by {
        assert(m.asked =~= after.asked.subrange(0, m.asked.len() as int));
    }
}

/// From position `at` on, everything that a backup is for was done on the mounted target: every
/// source arrived, and the live boot environment was brought up to date where there is one.
pub open spec fn all_done(l: Log, at: int, c: Setup, mount: Seq<char>) -> bool {
    &&& forall|i: int|
        0 <= i < c.sources.len() ==> source_arrived(
            l,
            at,
            #[trigger] c.sources[i],
            c.name,
            snapshots_dir(c.target, mount),
        )
    &&& c.target.enable_live_boot ==> (c.live_boot matches Some(boot) ==> live_updated(
        l,
        at,
        c,
        boot,
        mount,
    ))
}

proof fn lemma_all_done(before: Log, after: Log, at: int, from: int, c: Setup, mount: Seq<char>)
    requires
        all_done(before, at, c, mount),
        extends(before, after),
        0 <= from <= at,
    ensures
        all_done(after, from, c, mount),
{
    let dest = snapshots_dir(c.target, mount);
    assert forall|i: int| 0 <= i < c.sources.len() implies source_arrived(
        after,
        from,
        #[trigger] c.sources[i],
        c.name,
        dest,
    ) by {
        lemma_source_arrived(before, after, at, from, c.sources[i], c.name, dest);
    }
    if c.target.enable_live_boot {
        if let Some(boot) = c.live_boot {
            lemma_live_updated(before, after, at, from, c, boot, mount);
        }
    }
}

/// Where the backup on a mounted target succeeds, everything was done.
pub proof fn lemma_backup_on_target_done(c: Setup, mount: Seq<char>, log: Log)
    requires
        settled(log),
    ensures
        ({
            let (l, o) = drive(backing_up_all(c, mount), log);
            o matches Some(Ok(_)) ==> all_done(l, log.asked.len() as int, c, mount)
        }),
{
    broadcast use {group_plan, lemma_drive_extends};

    reveal(backing_up_all);
    let at = log.asked.len() as int;
    let dest = snapshots_dir(c.target, mount);
    let (l, o) = drive(backing_up_all(c, mount), log);
    if o matches Some(Ok(_)) {
        let (l1, o1) = drive(backing_up_each(c, mount, 0, Seq::empty()), log);
        let outcomes = o1->0->Ok_0;
        lemma_each_arrives(c, mount, 0, Seq::empty(), log);
        let (l2, o2) = drive(updating_after(c, mount, outcomes), l1);
        let live = o2->0->Ok_0;
        lemma_conclusion(outcomes, live);
        crate::course::lemma_complaints(outcomes);
        assert(conclusion(outcomes, live) is Ok);
        assert(extends(l2, l)) by {
            let p3 = say(
                Tone::Step,
                step_text(
                    crate::backup::last_step(c, outcomes),
                    crate::backup::steps_of(c),
                    "Summary"@,
                ),
            );
            let l3 = drive(p3, l2).0;
            let l4 = drive(summing_up(outcomes), l3).0;
            assert(extends(l3, l4));
            assert(extends(l4, l));
        }
        assert(extends(l1, l));
        assert forall|i: int| 0 <= i < c.sources.len() implies source_arrived(
            l,
            at,
            #[trigger] c.sources[i],
            c.name,
            dest,
        ) by {
            assert(outcomes[i].result is Ok);
            assert(outcomes[0 + i - 0].result is Ok);
            lemma_source_arrived(l1, l, at, at, c.sources[i], c.name, dest);
        }
        if c.target.enable_live_boot {
            if let Some(boot) = c.live_boot {
                reveal(updating_after);
                let p = say(
                    Tone::Step,
                    step_text(
                        c.sources.len() + 2,
                        crate::backup::steps_of(c),
                        "Updating live boot environment"@,
                    ),
                );
                let m = drive(p, l1).0;
                let (n, r) = drive(updating_live(c, mount), m);
                assert(r matches Some(Ok(_)));
                lemma_updating_live(c, boot, mount, m);
                assert(live_updated(n, m.asked.len() as int, c, boot, mount));
                assert(extends(n, l2));
                lemma_live_updated(n, l, m.asked.len() as int, at, c, boot, mount);
            }
        }
    }
}

/// A backup that is not a dry run succeeds only where the configured target was mounted and
/// everything was done on it: a snapshot of every source arrived where the snapshots are, and
/// the live boot environment was brought up to date where there is one.
pub proof fn lemma_backup_done(command: Commands, c: Setup, log: Log)
    requires
        settled(log),
        command matches Commands::Backup { dry_run, .. } && !dry_run,
    ensures
        ({
            let (l, o) = drive(command.executing(c), log);
            let at = log.asked.len() as int;
            o matches Some(Ok(_)) ==> exists|k: int, before: Log, m: Mounted|
                {
                    &&& at <= k
                    &&& extends(before, l)
                    &&& #[trigger] reached(
                        before,
                        k,
                        c.target.location,
                        c.target.encryption,
                        m,
                    )
                    &&& all_done(l, at, c, m.point)
                }
        }),
{
    broadcast use {group_plan, lemma_drive_extends};

    reveal(running);
    reveal(working);
    reveal(backing_up_to_target);
    let at = log.asked.len() as int;
    let (l, o) = drive(command.executing(c), log);
    assert(command.executing(c) == running(c, false));
    if o matches Some(Ok(_)) {
        let l1 = drive(validating(c), log).0;
        let (l2, o2) = drive(acquiring(c.name), l1);
        let lock = o2->0->Ok_0;
        let (w, ow) = drive(working(c, false), l2);
        let l3 = drive(announcing(c), l2).0;
        let l4 = drive(ignoring(perform(Ask::StartClock)), l3).0;
        let l5 = drive(
            say(Tone::Step, step_text(1, crate::backup::steps_of(c), "Mounting target"@)),
            l4,
        ).0;
        let (l6, o6) = drive(mounting_target(c.target), l5);
        let m = o6->0->Ok_0;
        let l7 = drive(say(Tone::Success, "Target mounted"@), l6).0;
        let (l8, o8) = drive(backing_up_all(c, m.point), l7);
        assert(extends(l8, w));
        assert(extends(w, l));
        assert(o8 matches Some(Ok(_)));
        lemma_backup_on_target_done(c, m.point, l7);
        assert(extends(l8, l));
        lemma_all_done(l8, l, l7.asked.len() as int, at, c, m.point);
        lemma_mounted_as_configured(
            c.target.location,
            c.target.encryption,
            Seq::empty(),
            c.target,
            arbitrary(),
            l5,
        );
        assert(extends(l6, l));
        assert(reached(
            l6,
            l5.asked.len() as int,
            c.target.location,
            c.target.encryption,
            m,
        ));
    }
}

/// From position `at` on, the subvolume was made where nothing stood at its place.
pub open spec fn provided(l: Log, at: int, path: Seq<char>) -> bool {
    exists|there: Answer| #[trigger]
        answered(l, at, Ask::Exists(path), there) && (!flag_in(there) ==> succeeded(
            l,
            at,
            words("btrfs"@, seq!["subvolume"@, "create"@, path]),
        ))
}

proof fn lemma_provided(before: Log, after: Log, at: int, from: int, path: Seq<char>)
    requires
        provided(before, at, path),
        extends(before, after),
        0 <= from <= at,
    ensures
        provided(after, from, path),
{
    let create = words("btrfs"@, seq!["subvolume"@, "create"@, path]);
    let there = choose|there: Answer| #[trigger]
        answered(before, at, Ask::Exists(path), there) && (!flag_in(there) ==> succeeded(
            before,
            at,
            words("btrfs"@, seq!["subvolume"@, "create"@, path]),
        ));
    lemma_answered(before, after, at, from, Ask::Exists(path), there);
    if !flag_in(there) {
        lemma_succeeded(before, after, at, from, create);
    }
}

proof fn lemma_providing(path: Seq<char>, msg: Seq<char>, log: Log)
    requires
        settled(log),
    ensures
        ({
            let (l, o) = drive(providing_subvolume(path, msg), log);
            o matches Some(Ok(_)) ==> provided(l, log.asked.len() as int, path)
        }),
{
    broadcast use {group_plan, lemma_drive_extends};

    reveal(providing_subvolume);
    let at = log.asked.len() as int;
    let (l, o) = drive(providing_subvolume(path, msg), log);
    if o matches Some(Ok(_)) {
        let (l1, o1) = drive(present(path), log);
        assert(l1.asked[at] == Ask::Exists(path));
        assert(extends(l1, l));
        assert(l.asked[at] == l1.asked[at]);
        let there = l.answers[at];
        assert(answered(l, at, Ask::Exists(path), there));
        if !flag_in(there) {
            let l2 = drive(say(Tone::Substep, msg), l1).0;
            let create = words("btrfs"@, seq!["subvolume"@, "create"@, path]);
            lemma_subvolume_commands(path, path, l2);
            assert(l.asked.is_prefix_of(l.asked));
            lemma_succeeded(l, l, l2.asked.len() as int, at, create);
        }
    }
}

/// The words of the command that installs the bootloader.
pub open spec fn bootctl(esp: Seq<char>) -> Call {
    words("bootctl"@, seq!["--esp-path"@, esp, "install"@])
}

/// From position `at` on, the boot entry was written, and it boots the live boot environment.
pub open spec fn entry_written(
    l: Log,
    at: int,
    mount: Seq<char>,
    esp: Seq<char>,
    entry: BootEntry,
    target: Target,
    live_root: Seq<char>,
) -> bool {
    let place = joined_path(
        joined_path(esp, "loader/entries"@),
        with_char(entry.title, ' ', '_') + ".conf"@,
    );
    exists|i: int|
        {
            &&& at <= i < l.asked.len()
            &&& #[trigger] l.asked[i] matches Ask::WriteFile { path, text } && path == place
                && boots(l, at, mount, entry, target, live_root, text)
            &&& failure_in(l.answers[i]) is None
        }
}

/// From position `at` on, both subvolumes of the live boot environment were provided, and the
/// bootloader was installed and its entry written where there is an EFI system partition.
pub open spec fn boot_set_up(
    l: Log,
    at: int,
    mount: Seq<char>,
    esp: Seq<char>,
    entry: BootEntry,
    target: Target,
) -> bool {
    &&& provided(l, at, joined_path(mount, target.snapshots()))
    &&& provided(l, at, joined_path(mount, target.live_root()))
    &&& exists|there: Answer| #[trigger]
        answered(l, at, Ask::Exists(esp), there) && (flag_in(there) ==> succeeded(
            l,
            at,
            bootctl(esp),
        ) && exists|m: Log, k: int|
            at <= k && extends(m, l) && #[trigger] entry_written(
                m,
                k,
                mount,
                esp,
                entry,
                target,
                target.live_root(),
            ))
}

/// Setting up live boot on a mounted target and a mounted EFI system partition.
pub proof fn lemma_boot_set_up(
    mount: Seq<char>,
    boot: LiveBoot,
    target: Target,
    esp: Seq<char>,
    log: Log,
)
    requires
        settled(log),
    ensures
        ({
            let plan = preparing_live_boot(
                mount,
                boot,
                target,
                esp,
                target.live_root(),
                target.snapshots(),
            );
            let (l, o) = drive(plan, log);
            o matches Some(Ok(_)) ==> boot_set_up(
                l,
                log.asked.len() as int,
                mount,
                esp,
                boot.boot_entry,
                target,
            )
        }),
{
    broadcast use {group_plan, lemma_drive_extends};

    reveal(preparing_live_boot);
    let live = target.live_root();
    let snapshots = target.snapshots();
    let plan = preparing_live_boot(mount, boot, target, esp, live, snapshots);
    let at = log.asked.len() as int;
    let (l, o) = drive(plan, log);
    if o matches Some(Ok(_)) {
        let a = joined_path(mount, snapshots);
        let b = joined_path(mount, live);
        let p1 = providing_subvolume(a, "Creating snapshots subvolume: "@ + snapshots);
        let p2 = providing_subvolume(b, "Creating live boot subvolume: "@ + live);
        let l1 = drive(p1, log).0;
        let l2 = drive(p2, l1).0;
        lemma_providing(a, "Creating snapshots subvolume: "@ + snapshots, log);
        lemma_providing(b, "Creating live boot subvolume: "@ + live, l1);
        assert(extends(l2, l));
        assert(extends(l1, l));
        lemma_provided(l1, l, at, at, a);
        lemma_provided(l2, l, l1.asked.len() as int, at, b);
        let l3 = drive(present(esp), l2).0;
        let i = l2.asked.len() as int;
        assert(l3.asked[i] == Ask::Exists(esp));
        assert(extends(l3, l));
        assert(l.asked[i] == l3.asked[i]);
        let there = l.answers[i];
        assert(answered(l, at, Ask::Exists(esp), there));
        if flag_in(there) {
            let l4 = drive(say(Tone::Substep, "Initializing systemd-boot"@), l3).0;
            let l5 = drive(installing_bootloader(esp), l4).0;
            reveal(installing_bootloader);
            assert(call("bootctl"@).arg("--esp-path"@).arg(esp).arg("install"@).args =~= bootctl(
                esp,
            ).args);
            lemma_commanding(
                Area::Bootloader,
                bootctl(esp),
                "Failed to install systemd-boot to "@ + esp + ": "@,
                l4,
            );
            let l6 = drive(say(Tone::Substep, "Creating boot entry"@), l5).0;
            let entry = boot.boot_entry;
            let p7 = creating_entry(mount, esp, entry, target, live);
            assert(l == drive(p7, l6).0);
            assert(extends(l5, l));
            lemma_succeeded(l5, l, l4.asked.len() as int, at, bootctl(esp));
            lemma_boot_entry(mount, esp, entry, target, live, l6);
            let k = l6.asked.len() as int;
            let j = choose|j: int|
                k <= j < l.asked.len() && #[trigger] l.asked[j] is WriteFile && failure_in(
                    l.answers[j],
                ) is None;
            assert(l.asked[j] is WriteFile);
            assert(entry_written(l, k, mount, esp, entry, target, live));
            assert(l.asked.is_prefix_of(l.asked));
            assert(extends(l, l));
        }
    }
}

/// Preparing live boot succeeds only where it is enabled and configured, the configured target
/// and EFI system partition were mounted, and live boot was set up on them.
pub proof fn lemma_preparation_done(command: Commands, c: Setup, log: Log)
    requires
        settled(log),
        command is PrepareLive,
    ensures
        ({
            let (l, o) = drive(command.executing(c), log);
            let at = log.asked.len() as int;
            o matches Some(Ok(_)) ==> {
                &&& c.target.enable_live_boot
                &&& c.live_boot matches Some(boot) && exists|
                    k: int,
                    n: int,
                    p: int,
                    a: Log,
                    b: Log,
                    d: Log,
                    m: Mounted,
                    esp: Mounted,
                |
                    {
                        &&& at <= k <= n <= p
                        &&& extends(a, b)
                        &&& extends(b, d)
                        &&& extends(d, l)
                        &&& #[trigger] reached(
                            a,
                            k,
                            c.target.location,
                            c.target.encryption,
                            m,
                        )
                        &&& #[trigger] reached(b, n, boot.esp_location, None, esp)
                        &&& #[trigger] boot_set_up(
                            d,
                            p,
                            m.point,
                            esp.point,
                            boot.boot_entry,
                            c.target,
                        )
                    }
            }
        }),
{
    broadcast use {group_plan, lemma_drive_extends};

    reveal(preparing);
    reveal(preparing_on_target);
    reveal(preparing_mounted);
    let at = log.asked.len() as int;
    let (l, o) = drive(command.executing(c), log);
    assert(command.executing(c) == preparing(c));
    if o matches Some(Ok(_)) {
        let l1 = drive(validating(c), log).0;
        let boot = c.live_boot->0;
        let l2 = drive(say(Tone::Header, "Prepare Live Boot Environment"@), l1).0;
        let l3 = drive(say(Tone::Step, step_text(1, 2, "Mounting target"@)), l2).0;
        let (l4, o4) = drive(mounting_target(c.target), l3);
        let m = o4->0->Ok_0;
        lemma_mounted_as_configured(
            c.target.location,
            c.target.encryption,
            Seq::empty(),
            c.target,
            boot,
            l3,
        );
        let w = drive(preparing_on_target(c, boot, m.point), l4).0;
        assert(extends(w, l));
        let l5 = drive(say(Tone::Success, "Target mounted"@), l4).0;
        let l6 = drive(say(Tone::Step, step_text(2, 2, "Setting up live boot"@)), l5).0;
        let (l7, o7) = drive(mounting_esp(boot), l6);
        let esp = o7->0->Ok_0;
        lemma_mounted_as_configured(
            c.target.location,
            c.target.encryption,
            Seq::empty(),
            c.target,
            boot,
            l6,
        );
        let v = drive(preparing_mounted(c, boot, m.point, esp.point), l7).0;
        assert(extends(v, w));
        let p8 = preparing_live_boot(
            m.point,
            boot,
            c.target,
            esp.point,
            c.target.live_root(),
            c.target.snapshots(),
        );
        let l8 = drive(p8, l7).0;
        lemma_boot_set_up(m.point, boot, c.target, esp.point, l7);
        assert(extends(l8, v));
        assert(extends(l8, l));
        assert(extends(l4, l7)) by {
            assert(extends(l4, l6));
            assert(extends(l6, l7));
        }
        assert(extends(l7, l8));
        assert(reached(
            l4,
            l3.asked.len() as int,
            c.target.location,
            c.target.encryption,
            m,
        ));
        assert(reached(l7, l6.asked.len() as int, boot.esp_location, None, esp));
        assert(boot_set_up(
            l8,
            l7.asked.len() as int,
            m.point,
            esp.point,
            boot.boot_entry,
            c.target,
        ));
    }
}

} // verus!
