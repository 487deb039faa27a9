//! How a backup goes: every source has its turn, whatever happens to the others; the live boot
//! environment is touched only where nothing went wrong; and the result tells the truth.

use crate::backup::{
    acquiring, announcing, backing_up, backing_up_all, backing_up_each, backing_up_one,
    backing_up_to_target, complaints, conclusion, mounting_target, running, steps_of,
    updating_after, updating_live, working, Outcome,
};
use crate::command_runner::ignoring;
use crate::config::{validating, BootEntry, HookConfig, Setup};
use crate::device::Mounted;
use crate::error::Fault;
use crate::hooks::running_hooks;
#[allow(unused_imports)]
use crate::journal::{drive, group_plan, ok, perform, say, Ask, Log, Tone};
use crate::trace::{extends, lemma_drive_extends, settled};
use crate::ui::step_text;
use vstd::prelude::*;

verus! {

/// The outcome is that of a backup of the source, begun somewhere after `log`.
pub open spec fn is_turn_of(c: Setup, mount: Seq<char>, i: int, log: Log, o: Outcome) -> bool {
    &&& o.path == c.sources[i].path
    &&& exists|start: Log|
        extends(log, start) && (#[trigger] drive(
            backing_up(c.sources[i], c.target, mount, c.name),
            start,
        )).1 == Some(o.result)
}

proof fn lemma_turn(c: Setup, mount: Seq<char>, i: int, log: Log)
    requires
        log.asked.len() <= log.answers.len(),
    ensures
        ({
            let (l, o) = drive(backing_up_one(c, mount, i), log);
            &&& extends(log, l)
            &&& o matches Some(r) ==> r is Ok
            &&& o matches Some(Ok(out)) ==> is_turn_of(c, mount, i, log, out)
        }),
{
    broadcast use group_plan;

    reveal(backing_up_one);
    lemma_drive_extends(backing_up_one(c, mount, i), log);
    let source = c.sources[i];
    let p1 = say(
        Tone::Step,
        step_text((i + 2) as nat, steps_of(c), "Backing up "@ + source.path),
    );
    lemma_drive_extends(p1, log);
    let (l1, o1) = drive(p1, log);
    if o1 is Some {
        let (l2, o2) = drive(backing_up(source, c.target, mount, c.name), l1);
    }
}

/// Every source has its turn, in order, whatever comes of the others, and the procedure itself
/// does not fail.
pub(crate) proof fn lemma_turns(c: Setup, mount: Seq<char>, i: int, done: Seq<Outcome>, log: Log)
    requires
        log.asked.len() <= log.answers.len(),
        0 <= i <= c.sources.len(),
    ensures
        ({
            let (l, o) = drive(backing_up_each(c, mount, i, done), log);
            o matches Some(r) ==> {
                &&& r matches Ok(all) && all.len() == done.len() + c.sources.len() - i
                &&& done.is_prefix_of(r->Ok_0)
                &&& forall|j: int|
                    i <= j < c.sources.len() ==> is_turn_of(
                        c,
                        mount,
                        j,
                        log,
                        #[trigger] (r->Ok_0)[done.len() + j - i],
                    )
            }
        }),
    decreases c.sources.len() - i,
{
    broadcast use group_plan;

    if i < c.sources.len() {
        lemma_turn(c, mount, i, log);
        let (l1, o1) = drive(backing_up_one(c, mount, i), log);
        if let Some(Ok(out)) = o1 {
            lemma_turns(c, mount, i + 1, done.push(out), l1);
            let (l, o) = drive(backing_up_each(c, mount, i, done), log);
            if let Some(Ok(all)) = o {
                assert(done.push(out).is_prefix_of(all));
                assert(all[done.len() as int] == done.push(out)[done.len() as int]);
                assert(done.is_prefix_of(all)) by {
                    assert(done.push(out).take(done.len() as int) =~= done);
                    assert(all.take(done.len() as int) =~= done);
                }
                assert forall|j: int| i <= j < c.sources.len() implies is_turn_of(
                    c,
                    mount,
                    j,
                    log,
                    #[trigger] all[done.len() + j - i],
                ) by {
                    if j > i {
                        let k = done.push(out).len() + j - (i + 1);
                        assert(all[k] == all[done.len() + j - i]);
                        assert(is_turn_of(c, mount, j, l1, all[k]));
                        let start = choose|start: Log|
                            extends(l1, start) && (#[trigger] drive(
                                backing_up(c.sources[j], c.target, mount, c.name),
                                start,
                            )).1 == Some(all[k].result);
                        assert(extends(log, start));
                    }
                }
            }
        }
    }
}

/// Every source has its turn, in order, whatever comes of the others.
pub proof fn lemma_every_source_has_its_turn(c: Setup, mount: Seq<char>, log: Log)
    requires
        settled(log),
    ensures
        ({
            let (l, o) = drive(backing_up_each(c, mount, 0, Seq::empty()), log);
            o matches Some(r) ==> {
                &&& r matches Ok(all) && all.len() == c.sources.len()
                &&& forall|i: int|
                    0 <= i < c.sources.len() ==> is_turn_of(
                        c,
                        mount,
                        i,
                        log,
                        #[trigger] (r->Ok_0)[i],
                    )
            }
        }),
{
    lemma_turns(c, mount, 0, Seq::empty(), log);
    let o = drive(backing_up_each(c, mount, 0, Seq::empty()), log).1;
    if let Some(Ok(all)) = o {
        assert forall|i: int| 0 <= i < c.sources.len() implies is_turn_of(
            c,
            mount,
            i,
            log,
            #[trigger] all[i],
        ) by {
            assert(all[Seq::<Outcome>::empty().len() + i - 0] == all[i]);
        }
    }
}

/// There is nothing to complain of exactly where every source was backed up.
pub proof fn lemma_complaints(outcomes: Seq<Outcome>)
    ensures
        complaints(outcomes).len() == 0 <==> forall|i: int|
            0 <= i < outcomes.len() ==> (#[trigger] outcomes[i]).result is Ok,
    decreases outcomes.len(),
{
    if outcomes.len() > 0 {
        let rest = outcomes.drop_last();
        lemma_complaints(rest);
        assert forall|i: int| 0 <= i < rest.len() implies rest[i] == outcomes[i] by {}
        assert(outcomes.last() == outcomes[outcomes.len() - 1]);
        if complaints(outcomes).len() == 0 {
            assert forall|i: int| 0 <= i < outcomes.len() implies (
            #[trigger] outcomes[i]).result is Ok by {
                if i < rest.len() {
                    assert(rest[i] == outcomes[i]);
                }
            }
        } else if outcomes.last().result is Ok {
            let i = choose|i: int| 0 <= i < rest.len() && !((#[trigger] rest[i]).result is Ok);
            assert(!(outcomes[i].result is Ok));
        }
    }
}

/// A backup succeeds exactly where every source was backed up and the live boot environment
/// could be brought up to date.
pub proof fn lemma_conclusion(outcomes: Seq<Outcome>, live: Option<Fault>)
    ensures
        conclusion(outcomes, live) is Ok <==> (live is None && forall|i: int|
            0 <= i < outcomes.len() ==> (#[trigger] outcomes[i]).result is Ok),
{
    lemma_complaints(outcomes);
}

/// Where a backup succeeds, the backup of every source did.
pub proof fn lemma_success_means_all(c: Setup, mount: Seq<char>, log: Log)
    requires
        settled(log),
        drive(backing_up_all(c, mount), log).1 == Some(Ok::<(), Fault>(())),
    ensures
        forall|i: int|
            0 <= i < c.sources.len() ==> exists|start: Log|
                extends(log, start) && (drive(
                    backing_up(#[trigger] c.sources[i], c.target, mount, c.name),
                    start,
                ).1 matches Some(Ok(_))),
{
    broadcast use group_plan;

    reveal(backing_up_all);
    lemma_every_source_has_its_turn(c, mount, log);
    let (l1, o1) = drive(backing_up_each(c, mount, 0, Seq::empty()), log);
    if let Some(Ok(outcomes)) = o1 {
        let (l2, o2) = drive(updating_after(c, mount, outcomes), l1);
        if let Some(Ok(live)) = o2 {
            lemma_conclusion(outcomes, live);
            assert(conclusion(outcomes, live) is Ok);
            assert forall|i: int| 0 <= i < c.sources.len() implies exists|start: Log|
                extends(log, start) && (drive(
                    backing_up(#[trigger] c.sources[i], c.target, mount, c.name),
                    start,
                ).1 matches Some(Ok(_))) by {
                let out = outcomes[i];
                assert(is_turn_of(c, mount, i, log, out));
                assert(out.result is Ok);
                let start = choose|start: Log|
                    extends(log, start) && (#[trigger] drive(
                        backing_up(c.sources[i], c.target, mount, c.name),
                        start,
                    )).1 == Some(out.result);
                assert(extends(log, start));
            }
        }
    }
}

/// Where a run succeeds, the configuration was found usable, the target was mounted, and the
/// backup on it succeeded.
pub proof fn lemma_success_means_backup(c: Setup, log: Log)
    requires
        settled(log),
        drive(running(c, false), log).1 == Some(Ok::<(), Fault>(())),
    ensures
        drive(validating(c), log).1 == Some(Ok::<(), Fault>(())),
        exists|m: Mounted, before: Log, start: Log|
            {
                &&& extends(log, before)
                &&& extends(before, start)
                &&& (#[trigger] drive(mounting_target(c.target), before)).1 == Some(
                    Ok::<Mounted, Fault>(m),
                )
                &&& (#[trigger] drive(backing_up_all(c, m.point), start)).1 == Some(
                    Ok::<(), Fault>(()),
                )
            },
{
    broadcast use group_plan;

    reveal(running);
    reveal(working);
    reveal(backing_up_to_target);
    let (l1, o1) = drive(validating(c), log);
    lemma_drive_extends(validating(c), log);
    let (l2, o2) = drive(acquiring(c.name), l1);
    lemma_drive_extends(acquiring(c.name), l1);
    let (l3, o3) = drive(announcing(c), l2);
    lemma_drive_extends(announcing(c), l2);
    let clock = ignoring(perform(Ask::StartClock));
    let (l4, o4) = drive(clock, l3);
    lemma_drive_extends(clock, l3);
    let told = say(Tone::Step, step_text(1, steps_of(c), "Mounting target"@));
    let (l5, o5) = drive(told, l4);
    lemma_drive_extends(told, l4);
    let (l6, o6) = drive(mounting_target(c.target), l5);
    lemma_drive_extends(mounting_target(c.target), l5);
    if let Some(Ok(m)) = o6 {
        let mounted = say(Tone::Success, "Target mounted"@);
        let (l7, o7) = drive(mounted, l6);
        lemma_drive_extends(mounted, l6);
        let (l8, o8) = drive(backing_up_all(c, m.point), l7);
        assert(extends(log, l5));
        assert(extends(l5, l7));
    }
}

/// Nothing is done to the live boot environment where it is not enabled, where its
/// configuration is missing, or where the backup of a source failed.
pub proof fn lemma_live_boot_only_after_success(c: Setup, mount: Seq<char>, outcomes: Seq<Outcome>)
    ensures
        c.live_boot is None ==> updating_live(c, mount) == ok::<()>(()),
        !c.target.enable_live_boot ==> updating_after(c, mount, outcomes) == ok(None::<Fault>),
        (exists|i: int| 0 <= i < outcomes.len() && (#[trigger] outcomes[i]).result is Err)
            ==> updating_after(c, mount, outcomes) == ok(None::<Fault>),
{
    reveal(updating_live);
    reveal(updating_after);
    lemma_complaints(outcomes);
    if exists|i: int| 0 <= i < outcomes.len() && (#[trigger] outcomes[i]).result is Err {
        let i = choose|i: int| 0 <= i < outcomes.len() && (#[trigger] outcomes[i]).result is Err;
        assert(!(outcomes[i].result is Ok));
    }
}

/// With all hooks off, nothing is asked for.
pub proof fn lemma_hooks_off(
    live_boot_path: Seq<char>,
    target_mount: Seq<char>,
    esp: Seq<char>,
    entry: BootEntry,
    c: Setup,
    log: Log,
)
    ensures
        ({
            let off = HookConfig {
                copy_kernel: false,
                regenerate_fstab: false,
                remove_snapper_config: false,
            };
            drive(running_hooks(live_boot_path, target_mount, esp, off, entry, c), log) == (
                log,
                Some(Ok::<(), Fault>(())),
            )
        }),
{
    broadcast use group_plan;

    reveal(running_hooks);
}

}
