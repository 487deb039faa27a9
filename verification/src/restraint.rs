//! What procedures do not ask for: neither validation nor a dry run changes anything, a run
//! without the lock ends, and the newest snapshot is never deleted.

use crate::backup::{
    acquiring, announcing, locking_step, locks_dir, running, telling_sources, working,
};
use crate::btrfs::{checking_filesystem, checking_subvolume, filesystem_call, show_call};
use crate::cli::{checking, Commands};
use crate::command_runner::querying;
use crate::config::{
    judging, validating, validating_encryption, validating_live_boot, validating_rest,
    validating_source, validating_sources, validating_target, Location, Setup, Source,
};
use crate::error::Fault;
#[allow(unused_imports)]
use crate::journal::{ask, drive, group_plan, ok, say, then, Answer, Ask, Call, Log, Tone};
use crate::snapshot::{delete_call, deleting_listed, newest_first};
use crate::text::{decimal, lemma_number_round_trip, lossy_text};
use crate::trace::{group_only, lemma_drive_extends, lemma_only_weaker, only};
use vstd::prelude::*;

verus! {

/// The command only looks at something.
pub open spec fn looks(c: Call) -> bool {
    ||| exists|path: Seq<char>| c == #[trigger] show_call(path)
    ||| exists|path: Seq<char>| c == #[trigger] filesystem_call(path)
}

/// The request changes nothing: it shows a message or asks a question.
pub open spec fn changes_nothing(q: Ask) -> bool {
    match q {
        Ask::Say { .. }
        | Ask::Exists(_)
        | Ask::IsFile(_)
        | Ask::ModifiedAt(_)
        | Ask::ReadDir(_)
        | Ask::EnvVar(_)
        | Ask::TempRoot
        | Ask::StartClock
        | Ask::ReadClock => true,
        Ask::Run(c) => looks(c),
        _ => false,
    }
}

/// The request is about the lock that keeps other runs out.
pub open spec fn about_lock(q: Ask) -> bool {
    match q {
        Ask::OpenLock(_) | Ask::TryLock(_) | Ask::Unlock(_) => true,
        Ask::CreateDirAll(dir) => exists|temp: Seq<char>| dir == #[trigger] locks_dir(temp),
        _ => false,
    }
}

/// `changes_nothing` as a predicate on requests.
pub open spec fn harmless() -> spec_fn(Ask) -> bool {
    |q: Ask| changes_nothing(q)
}

/// Changes nothing but the lock.
pub open spec fn harmless_but_locking() -> spec_fn(Ask) -> bool {
    |q: Ask| changes_nothing(q) || about_lock(q)
}

broadcast proof fn lemma_checks_subvolume(path: Seq<char>)
    ensures
        #[trigger] only(checking_subvolume(path), harmless()),
{
    broadcast use group_only;

    reveal(checking_subvolume);
    reveal(querying);
}

broadcast proof fn lemma_checks_filesystem(path: Seq<char>)
    ensures
        #[trigger] only(checking_filesystem(path), harmless()),
{
    broadcast use group_only;

    reveal(checking_filesystem);
    reveal(querying);
}

broadcast proof fn lemma_checks_source(source: Source)
    ensures
        #[trigger] only(validating_source(source), harmless()),
{
    broadcast use {group_only, lemma_checks_subvolume};

    reveal(validating_source);
    reveal(judging);
}

broadcast proof fn lemma_checks_sources(sources: Seq<Source>, i: int)
    ensures
        #[trigger] only(validating_sources(sources, i), harmless()),
    decreases sources.len() - i,
{
    broadcast use {group_only, lemma_checks_source};

    if 0 <= i < sources.len() {
        lemma_checks_sources(sources, i + 1);
    }
}

broadcast proof fn lemma_checks_target(location: Location)
    ensures
        #[trigger] only(validating_target(location), harmless()),
{
    broadcast use {group_only, lemma_checks_filesystem};

    reveal(validating_target);
    reveal(judging);
}

broadcast proof fn lemma_checks_rest(c: Setup)
    ensures
        #[trigger] only(validating_rest(c), harmless()),
{
    broadcast use group_only;

    reveal(validating_live_boot);
    reveal(validating_encryption);
}

/// Checking a configuration changes nothing.
pub proof fn lemma_validation_changes_nothing(c: Setup)
    ensures
        only(validating(c), harmless()),
        only(checking(c), harmless()),
{
    broadcast use {group_only, lemma_checks_sources, lemma_checks_target, lemma_checks_rest};

    reveal(validating);
}

broadcast proof fn lemma_tells_sources(sources: Seq<Source>, i: int)
    ensures
        #[trigger] only(telling_sources(sources, i), harmless_but_locking()),
    decreases sources.len() - i,
{
    broadcast use group_only;

    if 0 <= i < sources.len() {
        lemma_tells_sources(sources, i + 1);
    }
}

broadcast proof fn lemma_locks(name: Seq<char>)
    ensures
        #[trigger] only(acquiring(name), harmless_but_locking()),
{
    broadcast use group_only;

    reveal(acquiring);
    reveal(locking_step);
}

/// A dry run changes nothing. Like every run, it takes the lock of its configuration while it
/// lasts.
pub proof fn lemma_dry_run_changes_nothing(c: Setup)
    ensures
        only(running(c, true), harmless_but_locking()),
{
    broadcast use {group_only, lemma_tells_sources, lemma_locks};

    lemma_validation_changes_nothing(c);
    lemma_only_weaker(validating(c), harmless(), harmless_but_locking());
    reveal(running);
    reveal(working);
    reveal(announcing);
}

/// A run that does not get the lock of its configuration ends there, with nothing changed.
pub proof fn lemma_no_lock_no_run(c: Setup, dry_run: bool, log: Log)
    ensures
        ({
            let start = then(validating(c), |u: ()| acquiring(c.name));
            &&& only(start, harmless_but_locking())
            &&& drive(start, log) matches (l, Some(Err(e))) ==> drive(running(c, dry_run), log) == (
                l,
                Some(Err::<(), Fault>(e)),
            )
        }),
{
    broadcast use {group_plan, group_only, lemma_locks};

    lemma_validation_changes_nothing(c);
    lemma_only_weaker(validating(c), harmless(), harmless_but_locking());
    reveal(running);
}

/// The request deletes one of the snapshots from `i` on, if any.
pub open spec fn deletes_only(config: Seq<char>, ids: Seq<u64>, i: int) -> spec_fn(Ask) -> bool {
    |q: Ask|
        q matches Ask::Run(c) ==> exists|j: int|
            i <= j < ids.len() && c == delete_call(config, #[trigger] ids[j])
}

pub(crate) proof fn lemma_deletes_only(config: Seq<char>, ids: Seq<u64>, first: int, i: int)
    requires
        0 <= first <= i,
    ensures
        only(deleting_listed(config, ids, i), deletes_only(config, ids, first)),
    decreases ids.len() - i,
{
    broadcast use group_only;

    if i < ids.len() {
        lemma_deletes_only(config, ids, first, i + 1);
        assert(deletes_only(config, ids, first)(Ask::Run(delete_call(config, ids[i]))));
    }
}

/// Sorted with the newest first, the list holds the same numbers, from the largest down.
pub proof fn lemma_newest_first(listed: Seq<u64>)
    ensures
        ({
            let sorted = listed.sort_by(newest_first());
            &&& sorted.to_multiset() == listed.to_multiset()
            &&& sorted.len() == listed.len()
            &&& forall|i: int, j: int| 0 <= i < j < sorted.len() ==> sorted[i] >= sorted[j]
        }),
{
    broadcast use vstd::seq_lib::group_to_multiset_ensures;

    listed.lemma_sort_by_ensures(newest_first());
    let sorted = listed.sort_by(newest_first());
    assert(sorted.to_multiset().len() == sorted.len());
    assert(listed.to_multiset().len() == listed.len());
    assert forall|i: int, j: int| 0 <= i < j < sorted.len() implies sorted[i] >= sorted[j] by {
        assert(newest_first()(sorted[i], sorted[j]));
    }
}

/// Cleaning up never deletes the newest snapshot of a backup.
pub proof fn lemma_newest_is_kept(config: Seq<char>, listed: Seq<u64>, newest: u64)
    requires
        listed.no_duplicates(),
        listed.contains(newest),
        forall|i: int| 0 <= i < listed.len() ==> #[trigger] listed[i] <= newest,
    ensures
        only(
            deleting_listed(config, listed.sort_by(newest_first()), 1),
            |q: Ask| q != Ask::Run(delete_call(config, newest)),
        ),
{
    broadcast use vstd::seq_lib::group_to_multiset_ensures;

    let ids = listed.sort_by(newest_first());
    lemma_newest_first(listed);
    listed.lemma_multiset_has_no_duplicates();
    ids.lemma_multiset_has_no_duplicates_conv();
    assert(listed.to_multiset().contains(newest));
    assert(ids.contains(newest));
    let k = choose|k: int| 0 <= k < ids.len() && ids[k] == newest;
    assert(ids.to_multiset().contains(ids[0]));
    assert(listed.contains(ids[0]));
    let m = choose|m: int| 0 <= m < listed.len() && listed[m] == ids[0];
    assert(ids[0] == newest);
    lemma_deletes_only(config, ids, 1, 1);
    assert forall|q: Ask| #[trigger] deletes_only(config, ids, 1)(q) implies q != Ask::Run(
        delete_call(config, newest),
    ) by {
        if q == Ask::Run(delete_call(config, newest)) {
            let j = choose|j: int|
                1 <= j < ids.len() && delete_call(config, newest) == delete_call(
                    config,
                    #[trigger] ids[j],
                );
            lemma_delete_call(config, newest, ids[j]);
            assert(ids[0] != ids[j]);
        }
    }
    lemma_only_weaker(
        deleting_listed(config, ids, 1),
        deletes_only(config, ids, 1),
        |q: Ask| q != Ask::Run(delete_call(config, newest)),
    );
}

/// The commands that delete different snapshots are different.
proof fn lemma_delete_call(config: Seq<char>, a: u64, b: u64)
    requires
        delete_call(config, a) == delete_call(config, b),
    ensures
        a == b,
{
    let x = delete_call(config, a);
    let y = delete_call(config, b);
    assert(x.args.last() == decimal(a as nat));
    assert(y.args.last() == decimal(b as nat));
    lemma_number_round_trip(a);
    lemma_number_round_trip(b);
}

/// Cleaning up asks for the deletion of every snapshot from `i` on, unless it fails.
pub proof fn lemma_older_are_deleted(
    config: Seq<char>,
    ids: Seq<u64>,
    i: int,
    log: Log,
)
    requires
        log.asked.len() <= log.answers.len(),
        0 <= i,
        drive(deleting_listed(config, ids, i), log).1 == Some(Ok::<(), Fault>(())),
    ensures
        ({
            let l = drive(deleting_listed(config, ids, i), log).0;
            forall|j: int|
                i <= j < ids.len() ==> l.asked.contains(
                    Ask::Run(delete_call(config, #[trigger] ids[j])),
                )
        }),
    decreases ids.len() - i,
{
    broadcast use group_plan;

    if i < ids.len() {
        let q = Ask::Run(delete_call(config, ids[i]));
        let p1 = say(
            Tone::Detail,
            "Deleting old snapper snapshot #"@ + decimal(ids[i] as nat),
        );
        let (l1, o1) = drive(p1, log);
        lemma_drive_extends(p1, log);
        let (l2, o2) = drive(ask(q), l1);
        assert(l2.asked == l1.asked.push(q));
        assert(l2.asked[l1.asked.len() as int] == q);
        if let Some(Answer::Ran(o)) = o2 {
            let p3 = if o.success {
                ok(())
            } else {
                say(
                    Tone::Warning,
                    "Failed to delete snapper snapshot #"@ + decimal(ids[i] as nat) + ": "@
                        + lossy_text(o.stderr),
                )
            };
            let (l3, o3) = drive(p3, l2);
            lemma_drive_extends(p3, l2);
            lemma_older_are_deleted(config, ids, i + 1, l3);
            lemma_drive_extends(deleting_listed(config, ids, i + 1), l3);
            let l = drive(deleting_listed(config, ids, i), log).0;
            assert(l3.asked[l1.asked.len() as int] == q);
            assert(l.asked[l1.asked.len() as int] == q);
        }
    }
}

/// Validating and backing up with `dry_run`, as commands: whatever the configuration is, the
/// first asks for nothing that changes anything, and the second for nothing that changes
/// anything but the lock.
pub proof fn lemma_harmless_commands(command: Commands, c: Setup)
    ensures
        command is Validate ==> only(command.executing(c), harmless()),
        command matches Commands::Backup { dry_run, .. } ==> (dry_run ==> only(
            command.executing(c),
            harmless_but_locking(),
        )),
{
    lemma_validation_changes_nothing(c);
    lemma_dry_run_changes_nothing(c);
}

/// What only looks: these commands, and no others.
pub proof fn lemma_looking_commands(c: Call)
    ensures
        looks(c) <==> {
            &&& c.program == "btrfs"@
            &&& c.input is None
            &&& c.args.len() == 3
            &&& c.args[0] == "subvolume"@ || c.args[0] == "filesystem"@
            &&& c.args[1] == "show"@
        },
{
    if c.args.len() == 3 {
        let path = c.args[2];
        if c.program == "btrfs"@ && c.input is None && c.args[1] == "show"@ {
            if c.args[0] == "subvolume"@ {
                assert(c.args =~= show_call(path).args);
                assert(c == show_call(path));
            }
            if c.args[0] == "filesystem"@ {
                assert(c.args =~= filesystem_call(path).args);
                assert(c == filesystem_call(path));
            }
        }
    }
}

}
