//! What is sent against what: the parent of every transfer is the snapshot that the last run
//! left.

use crate::backup::{backing_up, mode_text, sending, snapshots_dir};
use crate::btrfs::{
    checking_subvolume, clearing_up, creating_snapshot, deleting_subvolume, discarding,
    ensuring_dir, judging_transfer, making_room, naming, receiving_as, renaming, replacing_by_send,
    restoring, settling, show_call, subvolume_name, swap_places, transferring, Swap,
};
use crate::command_runner::{commanding, complaining, launching, querying, Area};
use crate::config::{Source, Target};
use crate::disk::{follows, lemma_follows_then, lemma_looking, now, Disk, Thing};
use crate::journal::{
    ask, drive, group_plan, ok, run, say, then, Answer, Ask, Call, Log, Plan, Printed, Tone,
    TransferStats,
};
use crate::orders::{
    answered, arrived, asked_for, lemma_answered, lemma_arrived, lemma_asked_for, lemma_succeeded,
    lemma_transfer_request, sends_nothing, sends_only, succeeded, words,
};
use crate::path::joined_path;
use crate::restraint::{lemma_deletes_only, lemma_newest_first};
use crate::rotation::{
    arranged, lemma_creating_local, lemma_told_earlier, local_dir, previous_path, snapshot_path,
    tells,
};
use crate::snapshot::{
    cleaning, cleaning_by_snapper, creating_by_snapper, creating_local, creating_manual,
    creating_with_parent, deleting_if_there, deleting_listed, finding_previous, finding_subvolume,
    list_call, listed_ids, listing, newest_first, snapper_place, Owned,
};
use crate::text::{decimal, lemma_number_round_trip, lines_of, lossy_text, parsed, trimmed};
use crate::trace::{
    extends, group_only, lemma_drive_extends, lemma_only, lemma_only_weaker, only, settled,
};
use vstd::prelude::*;

verus! {

broadcast proof fn lemma_checking_sends_nothing(path: Seq<char>)
    ensures
        #[trigger] only(checking_subvolume(path), sends_nothing()),
{
    broadcast use group_only;

    reveal(checking_subvolume);
    reveal(querying);
}

broadcast proof fn lemma_command_sends_nothing(area: Area, c: Call, msg: Seq<char>)
    ensures
        #[trigger] only(commanding(area, c, msg), sends_nothing()),
{
    broadcast use group_only;

    reveal(commanding);
    reveal(launching);
    reveal(complaining);
}

broadcast proof fn lemma_renaming_sends_nothing(from: Seq<char>, to: Seq<char>)
    ensures
        #[trigger] only(renaming(from, to), sends_nothing()),
{
    broadcast use {group_only, lemma_checking_sends_nothing};

    reveal(renaming);
}

broadcast proof fn lemma_deleting_sends_nothing(path: Seq<char>)
    ensures
        #[trigger] only(deleting_subvolume(path), sends_nothing()),
{
    broadcast use {group_only, lemma_command_sends_nothing};

    reveal(deleting_subvolume);
}

broadcast proof fn lemma_ensuring_sends_nothing(dir: Seq<char>)
    ensures
        #[trigger] only(ensuring_dir(dir), sends_nothing()),
{
    broadcast use group_only;

    reveal(ensuring_dir);
}

broadcast group group_still {
    lemma_checking_sends_nothing,
    lemma_command_sends_nothing,
    lemma_renaming_sends_nothing,
    lemma_deleting_sends_nothing,
    lemma_ensuring_sends_nothing,
}

broadcast proof fn lemma_restoring_sends_nothing(w: Swap)
    ensures
        #[trigger] only(restoring(w), sends_nothing()),
{
    broadcast use {group_only, group_still};

    reveal(restoring);
}

broadcast proof fn lemma_making_room_sends_nothing(w: Swap)
    ensures
        #[trigger] only(making_room(w), sends_nothing()),
{
    broadcast use {group_only, group_still};

    reveal(making_room);
}

broadcast proof fn lemma_settling_sends_nothing(w: Swap, rename: bool, stats: TransferStats)
    ensures
        #[trigger] only(settling(w, rename, stats), sends_nothing()),
{
    broadcast use {group_only, group_still, lemma_restoring_sends_nothing};

    reveal(settling);
    reveal(clearing_up);
    reveal(discarding);
}

broadcast proof fn lemma_if_there_sends_nothing(path: Seq<char>, msg: Seq<char>)
    ensures
        #[trigger] only(deleting_if_there(path, msg), sends_nothing()),
{
    broadcast use {group_only, group_still};

    reveal(deleting_if_there);
    reveal(finding_subvolume);
}

broadcast proof fn lemma_listing_sends_nothing(w: Owned)
    ensures
        #[trigger] only(listing(w), sends_nothing()),
{
    broadcast use group_only;

    reveal(listing);
}

broadcast proof fn lemma_deleting_listed_sends_nothing(config: Seq<char>, ids: Seq<u64>, i: int)
    ensures
        #[trigger] only(deleting_listed(config, ids, i), sends_nothing()),
    decreases ids.len() - i,
{
    broadcast use group_only;

    if 0 <= i < ids.len() {
        lemma_deleting_listed_sends_nothing(config, ids, i + 1);
    }
}

broadcast proof fn lemma_creating_sends_nothing(w: Owned)
    ensures
        #[trigger] only(creating_local(w), sends_nothing()),
{
    broadcast use {
        group_only,
        group_still,
        lemma_if_there_sends_nothing,
        lemma_listing_sends_nothing,
    };

    reveal(creating_local);
    reveal(creating_with_parent);
    reveal(creating_by_snapper);
    reveal(finding_previous);
    reveal(creating_manual);
    reveal(finding_subvolume);
    reveal(creating_snapshot);
    reveal(launching);
    reveal(complaining);
}

broadcast proof fn lemma_cleaning_sends_nothing(w: Owned, parent: Option<Seq<char>>)
    ensures
        #[trigger] only(cleaning(w, parent), sends_nothing()),
{
    broadcast use {
        group_only,
        lemma_if_there_sends_nothing,
        lemma_listing_sends_nothing,
        lemma_deleting_listed_sends_nothing,
    };

    reveal(cleaning);
    reveal(cleaning_by_snapper);
}

/// What sends nothing sends nothing else either.
proof fn lemma_still<T>(
    p: Plan<T>,
    source: Seq<char>,
    parent: Option<Seq<char>>,
    dest: Seq<char>,
)
    requires
        only(p, sends_nothing()),
    ensures
        only(p, sends_only(source, parent, dest)),
{
    lemma_only_weaker(p, sends_nothing(), sends_only(source, parent, dest));
}

/// Replacing a subvolume by one that is sent: every transfer that is asked for has the source,
/// the parent and the directory that are given, whatever the answers are. The procedure
/// succeeds only where that transfer arrived, and its outcome is what was measured.
pub proof fn lemma_replacement_transfers(
    source: Seq<char>,
    parent: Option<Seq<char>>,
    dest: Seq<char>,
    suffix: Seq<char>,
    target_name: Option<Seq<char>>,
    log: Log,
)
    requires
        settled(log),
    ensures
        ({
            let plan = replacing_by_send(source, parent, dest, suffix, target_name);
            let (l, o) = drive(plan, log);
            &&& only(plan, sends_only(source, parent, dest))
            &&& o matches Some(Ok(stats)) ==> arrived(
                l,
                log.asked.len() as int,
                source,
                parent,
                dest,
                stats,
            )
        }),
{
    broadcast use {group_plan, group_only, lemma_drive_extends};

    reveal(replacing_by_send);
    reveal(receiving_as);
    let plan = replacing_by_send(source, parent, dest, suffix, target_name);
    let pred = sends_only(source, parent, dest);
    lemma_ensuring_sends_nothing(dest);
    lemma_still(ensuring_dir(dest), source, parent, dest);
    assert forall|p: Seq<char>| only(#[trigger] checking_subvolume(p), pred) by {
        lemma_checking_sends_nothing(p);
        lemma_still(checking_subvolume(p), source, parent, dest);
    }
    assert forall|w: Swap| only(#[trigger] making_room(w), pred) by {
        lemma_making_room_sends_nothing(w);
        lemma_still(making_room(w), source, parent, dest);
    }
    assert forall|w: Swap| only(#[trigger] restoring(w), pred) by {
        lemma_restoring_sends_nothing(w);
        lemma_still(restoring(w), source, parent, dest);
    }
    assert forall|w: Swap, rename: bool, stats: TransferStats| only(
        #[trigger] settling(w, rename, stats),
        pred,
    ) by {
        lemma_settling_sends_nothing(w, rename, stats);
        lemma_still(settling(w, rename, stats), source, parent, dest);
    }
    lemma_transfer_request(source, parent, dest, log);
    assert(only(plan, pred));
    let (l, o) = drive(plan, log);
    let at = log.asked.len() as int;
    if let Some(Ok(stats)) = o {
        let base = naming(source)->Ok_0;
        let name = match target_name {
            Some(name) => name,
            None => base,
        };
        let l1 = drive(ensuring_dir(dest), log).0;
        let (l2, o2) = drive(checking_subvolume(joined_path(dest, name)), l1);
        let p3 = if base != name {
            checking_subvolume(joined_path(dest, base))
        } else {
            ok(false)
        };
        let (l3, o3) = drive(p3, l2);
        let aside = o2->0->Ok_0;
        let conflict = o3->0->Ok_0;
        let w = swap_places(dest, name, base, suffix, aside, conflict);
        let l4 = drive(making_room(w), l3).0;
        let (l5, o5) = drive(transferring(source, parent, dest), l4);
        lemma_transfer_request(source, parent, dest, l4);
        let sent = o5->0->Ok_0;
        reveal(settling);
        lemma_settling_keeps_stats(w, base != name, sent, l5);
        lemma_arrived(l5, l, l4.asked.len() as int, at, source, parent, dest, stats);
    }
}

/// Putting a received subvolume in its place passes on what was measured.
proof fn lemma_settling_keeps_stats(w: Swap, rename: bool, stats: TransferStats, log: Log)
    ensures
        drive(settling(w, rename, stats), log).1 matches Some(Ok(s)) ==> s == stats,
{
    broadcast use group_plan;

    reveal(settling);
    reveal(clearing_up);
}

/// Sending a snapshot to the target: every transfer that is asked for has that snapshot as its
/// source and the parent that is given, and goes to where the snapshots are. The procedure
/// succeeds only where that transfer arrived, and its outcome is what was measured.
pub proof fn lemma_sending_transfers(
    source: Source,
    target: Target,
    snapshot: Seq<char>,
    parent: Option<Seq<char>>,
    mount: Seq<char>,
    log: Log,
)
    requires
        settled(log),
    ensures
        ({
            let plan = sending(source, target, snapshot, parent, mount);
            let dir = snapshots_dir(target, mount);
            let (l, o) = drive(plan, log);
            &&& only(plan, sends_only(snapshot, parent, dir))
            &&& o matches Some(Ok(stats)) ==> arrived(
                l,
                log.asked.len() as int,
                snapshot,
                parent,
                dir,
                stats,
            )
        }),
{
    broadcast use {group_plan, group_only, lemma_drive_extends};

    reveal(sending);
    let dir = snapshots_dir(target, mount);
    let name = subvolume_name(source.path);
    let plan = sending(source, target, snapshot, parent, mount);
    let replace = replacing_by_send(snapshot, parent, dir, "old"@, Some(name));
    lemma_ensuring_sends_nothing(dir);
    lemma_still(ensuring_dir(dir), snapshot, parent, dir);
    lemma_replacement_transfers(snapshot, parent, dir, "old"@, Some(name), log);
    assert(only(plan, sends_only(snapshot, parent, dir)));
    let (l, o) = drive(plan, log);
    if let Some(Ok(stats)) = o {
        let l1 = drive(ensuring_dir(dir), log).0;
        let l2 = drive(replace, l1).0;
        lemma_replacement_transfers(snapshot, parent, dir, "old"@, Some(name), l1);
        lemma_arrived(
            l2,
            l,
            l1.asked.len() as int,
            log.asked.len() as int,
            snapshot,
            parent,
            dir,
            stats,
        );
    }
}

/// The log as it was when it held `k` requests.
pub open spec fn early(l: Log, k: int) -> Log {
    Log { asked: l.asked.take(k), ..l }
}

/// A backup of a source transfers the snapshot that it made, against the parent that it found,
/// once the snapshot is made; nothing else is transferred.
pub(crate) proof fn lemma_backup_transfers(
    source: Source,
    target: Target,
    mount: Seq<char>,
    config: Seq<char>,
    log: Log,
)
    requires
        settled(log),
    ensures
        ({
            let (l, o) = drive(backing_up(source, target, mount, config), log);
            let l1 = drive(say(Tone::Substep, "Creating local snapshot"@), log).0;
            let (l2, o2) = drive(creating_local(Owned { source, config }), l1);
            let at = log.asked.len() as int;
            &&& forall|i: int|
                at <= i < l.asked.len() && (#[trigger] l.asked[i]) is Transfer ==> {
                    &&& o2 matches Some(Ok(made)) && l.asked[i] == (Ask::Transfer {
                        source: made.0,
                        parent: made.1,
                        dest: snapshots_dir(target, mount),
                    })
                    &&& extends(l2, early(l, i))
                }
            &&& o matches Some(Ok(stats)) ==> (o2 matches Some(Ok(made)) && arrived(
                l,
                at,
                made.0,
                made.1,
                snapshots_dir(target, mount),
                stats,
            ))
        }),
{
    broadcast use {group_plan, lemma_drive_extends};

    reveal(backing_up);
    let w = Owned { source, config };
    let plan = backing_up(source, target, mount, config);
    let dir = snapshots_dir(target, mount);
    let at = log.asked.len() as int;
    let (l, o) = drive(plan, log);
    let p1 = say(Tone::Substep, "Creating local snapshot"@);
    let (l1, o1) = drive(p1, log);
    let (l2, o2) = drive(creating_local(w), l1);
    lemma_say_sends_nothing(Tone::Substep, "Creating local snapshot"@);
    lemma_only(p1, sends_nothing(), log);
    if o1 is Some {
        lemma_creating_sends_nothing(w);
        lemma_only(creating_local(w), sends_nothing(), l1);
        assert forall|i: int| at <= i < l2.asked.len() implies !(#[trigger] l2.asked[i] is Transfer)
        by {
            if i < l1.asked.len() {
                assert(l2.asked[i] == l1.asked[i]);
            }
        }
        if let Some(Ok(made)) = o2 {
            let text = "Sending snapshot to target ("@ + mode_text(made.1) + ")"@;
            let p3 = say(Tone::Substep, text);
            let (l3, o3) = drive(p3, l2);
            lemma_say_sends_nothing(Tone::Substep, text);
            lemma_only(p3, sends_nothing(), l2);
            if o3 is Some {
                let p4 = sending(source, target, made.0, made.1, mount);
                let (l4, o4) = drive(p4, l3);
                lemma_sending_transfers(source, target, made.0, made.1, mount, l3);
                lemma_only(p4, sends_only(made.0, made.1, dir), l3);
                if let Some(Ok(stats)) = o4 {
                    let p5 = say(Tone::Substep, "Cleaning up old snapshots"@);
                    let (l5, o5) = drive(p5, l4);
                    lemma_say_sends_nothing(Tone::Substep, "Cleaning up old snapshots"@);
                    lemma_only(p5, sends_nothing(), l4);
                    let p6 = cleaning(w, made.1);
                    if o5 is Some {
                        lemma_cleaning_sends_nothing(w, made.1);
                        lemma_only(p6, sends_nothing(), l5);
                        if o is Some {
                            assert(extends(l4, l));
                            if o matches Some(Ok(_)) {
                                lemma_arrived(
                                    l4,
                                    l,
                                    l3.asked.len() as int,
                                    at,
                                    made.0,
                                    made.1,
                                    dir,
                                    stats,
                                );
                            }
                        }
                        assert(l.asked == drive(p6, l5).0.asked);
                        assert forall|i: int|
                            l4.asked.len() <= i < l.asked.len() implies !(
                            #[trigger] l.asked[i] is Transfer) by {
                            if i < l5.asked.len() {
                                assert(l.asked[i] == l5.asked[i]);
                            }
                        }
                    } else {
                        assert(l.asked == l5.asked);
                    }
                    assert(extends(l4, l));
                }
                assert(extends(l4, l));
                assert forall|i: int|
                    at <= i < l.asked.len() && (#[trigger] l.asked[i]) is Transfer implies i
                    >= l2.asked.len() && l.asked[i] == (Ask::Transfer {
                    source: made.0,
                    parent: made.1,
                    dest: dir,
                }) by {
                    if i < l2.asked.len() {
                        assert(extends(l2, l));
                        assert(l.asked[i] == l2.asked[i]);
                    } else if i < l3.asked.len() {
                        assert(extends(l3, l));
                        assert(l.asked[i] == l3.asked[i]);
                    } else if i < l4.asked.len() {
                        assert(l.asked[i] == l4.asked[i]);
                    }
                }
                assert(extends(l2, l));
                assert forall|i: int|
                    l2.asked.len() <= i <= l.asked.len() implies #[trigger] extends(
                    l2,
                    early(l, i),
                ) by {
                    assert(l2.asked =~= l.asked.take(i).subrange(0, l2.asked.len() as int));
                }
            } else {
                assert(l.asked == l3.asked);
            }
        }
    }
}

broadcast proof fn lemma_say_sends_nothing(tone: Tone, text: Seq<char>)
    ensures
        #[trigger] only(say(tone, text), sends_nothing()),
{
    broadcast use group_only;

}

/// The backup of a source without snapper: where the snapshot of the last run is there, every
/// transfer that is asked for names that snapshot, in the place where it is kept meanwhile, as
/// its parent; where it is not, no parent is named. What is sent is the new snapshot, and it
/// goes to where the snapshots are on the target. The backup succeeds only where that transfer
/// arrived, and its outcome is what was measured.
pub proof fn lemma_parent_is_last_snapshot(
    source: Source,
    target: Target,
    mount: Seq<char>,
    config: Seq<char>,
    log: Log,
    ds: spec_fn(int) -> Disk,
)
    requires
        settled(log),
        follows(backing_up(source, target, mount, config), log, ds),
        tells(backing_up(source, target, mount, config), log),
        !source.use_snapper,
        arranged(source, target, mount, config),
        now(log, ds).on(snapshot_path(source, local_dir(source), config)) != Some(Thing::Other),
    ensures
        ({
            let (l, o) = drive(backing_up(source, target, mount, config), log);
            let at = log.asked.len() as int;
            let path = snapshot_path(source, local_dir(source), config);
            let parent = if now(log, ds).has_subvolume(path) {
                Some(previous_path(source, local_dir(source), config))
            } else {
                None
            };
            let dest = snapshots_dir(target, mount);
            &&& forall|i: int|
                at <= i < l.asked.len() && (#[trigger] l.asked[i]) is Transfer ==> l.asked[i] == (
                Ask::Transfer { source: path, parent, dest })
            &&& o matches Some(Ok(stats)) ==> arrived(l, at, path, parent, dest, stats)
        }),
{
    broadcast use {group_plan, group_only, lemma_drive_extends};

    lemma_backup_transfers(source, target, mount, config, log);
    let plan = backing_up(source, target, mount, config);
    let w = Owned { source, config };
    let whole = drive(plan, log).0;
    let p1 = say(Tone::Substep, "Creating local snapshot"@);
    let rest2 = |made: (Seq<char>, Option<Seq<char>>)|
        then(
            say(Tone::Substep, "Sending snapshot to target ("@ + mode_text(made.1) + ")"@),
            |u: ()|
                then(
                    sending(source, target, made.0, made.1, mount),
                    |stats: TransferStats|
                        then(
                            say(Tone::Substep, "Cleaning up old snapshots"@),
                            |u: ()| then(cleaning(w, made.1), |u: ()| ok(stats)),
                        ),
                ),
        );
    assert(plan == then(p1, |u: ()| then(creating_local(w), rest2))) by {
        reveal(backing_up);
    }
    lemma_follows_then(p1, |u: ()| then(creating_local(w), rest2), log, ds);
    lemma_looking(p1, log, ds);
    let (l1, o1) = drive(p1, log);
    if o1 is Some {
        lemma_follows_then(creating_local(w), rest2, l1, ds);
        let (l2, o2) = drive(creating_local(w), l1);
        assert(extends(l2, whole));
        lemma_told_earlier(l2, whole);
        lemma_creating_local(source, config, l1, ds);
    }
}

/// The words of the command with which snapper lists its snapshots.
pub open spec fn snapper_list(config: Seq<char>) -> Call {
    words(
        "snapper"@,
        seq!["-c"@, config, "list"@, "--columns"@, "number,description,type"@],
    )
}

/// The words of the command with which snapper makes a snapshot.
pub open spec fn snapper_create(config: Seq<char>, description: Seq<char>) -> Call {
    words(
        "snapper"@,
        seq![
            "-c"@,
            config,
            "create"@,
            "-t"@,
            "single"@,
            "-d"@,
            description,
            "--read-only"@,
            "--print-number"@,
        ],
    )
}

/// The words of the command with which snapper deletes a snapshot.
pub open spec fn snapper_delete(config: Seq<char>, number: u64) -> Call {
    words("snapper"@, seq!["-c"@, config, "delete"@, decimal(number as nat)])
}

/// The largest of several numbers.
pub open spec fn largest(all: Seq<u64>, m: u64) -> bool {
    all.contains(m) && forall|x: u64| all.contains(x) ==> x <= m
}

/// The number before the largest one: it is among the numbers, and none of them lies between
/// the two. Where no number comes twice, it is smaller than the largest.
pub open spec fn before_largest(all: Seq<u64>, n: u64) -> bool {
    &&& all.len() >= 2
    &&& all.contains(n)
    &&& forall|m: u64| #[trigger]
        largest(all, m) ==> {
            &&& n <= m
            &&& all.no_duplicates() ==> n < m
            &&& forall|x: u64| all.contains(x) ==> !(n < x < m)
        }
}

/// The numbers that a printed list gives for the backup `config`.
pub open spec fn numbers_in(printed: Printed, config: Seq<char>) -> Seq<u64> {
    listed_ids(lines_of(lossy_text(printed.stdout)), "btrbak_"@ + config)
}

/// Where snapper keeps a snapshot.
pub open spec fn kept_at(dir: Seq<char>, number: u64) -> Seq<char> {
    joined_path(dir, decimal(number as nat) + "/snapshot"@)
}

/// The words of the command that shows a subvolume.
pub open spec fn showing(path: Seq<char>) -> Call {
    words("btrfs"@, seq!["subvolume"@, "show"@, path])
}

/// A parent that goes with a printed list: the snapshot before the newest, where it is a
/// subvolume. There is none where it is not, or where fewer than two are listed.
pub open spec fn goes_with(
    l: Log,
    at: int,
    printed: Printed,
    config: Seq<char>,
    dir: Seq<char>,
    parent: Option<Seq<char>>,
) -> bool {
    let ids = numbers_in(printed, config);
    match parent {
        Some(path) => exists|n: u64| #[trigger]
            before_largest(ids, n) && path == kept_at(dir, n) && succeeded(
                l,
                at,
                showing(kept_at(dir, n)),
            ),
        None => ids.len() < 2 || exists|n: u64, shown: Printed|
            before_largest(ids, n) && !shown.success && #[trigger] answered(
                l,
                at,
                Ask::Run(showing(kept_at(dir, n))),
                Answer::Ran(shown),
            ),
    }
}

/// From position `at` on, snapper was asked for its list, and the parent goes with that list.
pub open spec fn by_list(
    l: Log,
    at: int,
    snapper: Seq<char>,
    config: Seq<char>,
    dir: Seq<char>,
    parent: Option<Seq<char>>,
) -> bool {
    exists|printed: Printed|
        printed.success && #[trigger] answered(
            l,
            at,
            Ask::Run(snapper_list(snapper)),
            Answer::Ran(printed),
        ) && goes_with(l, at, printed, config, dir, parent)
}

/// From position `at` on, snapper made a snapshot, and `path` is where it keeps the one whose
/// number it printed.
pub open spec fn by_number(
    l: Log,
    at: int,
    snapper: Seq<char>,
    config: Seq<char>,
    dir: Seq<char>,
    path: Seq<char>,
) -> bool {
    exists|printed: Printed|
        printed.success && #[trigger] answered(
            l,
            at,
            Ask::Run(snapper_create(snapper, "btrbak_"@ + config)),
            Answer::Ran(printed),
        ) && (parsed(trimmed(lossy_text(printed.stdout))) matches Ok(n) && path == kept_at(dir, n))
}

proof fn lemma_by_list(
    before: Log,
    after: Log,
    at: int,
    from: int,
    snapper: Seq<char>,
    config: Seq<char>,
    dir: Seq<char>,
    parent: Option<Seq<char>>,
)
    requires
        by_list(before, at, snapper, config, dir, parent),
        extends(before, after),
        0 <= from <= at,
    ensures
        by_list(after, from, snapper, config, dir, parent),
{
    let q = Ask::Run(snapper_list(snapper));
    let printed = choose|printed: Printed|
        printed.success && #[trigger] answered(before, at, q, Answer::Ran(printed)) && goes_with(
            before,
            at,
            printed,
            config,
            dir,
            parent,
        );
    lemma_answered(before, after, at, from, q, Answer::Ran(printed));
    let ids = numbers_in(printed, config);
    match parent {
        Some(path) => {
            let n = choose|n: u64| #[trigger]
                before_largest(ids, n) && path == kept_at(dir, n) && succeeded(
                    before,
                    at,
                    showing(kept_at(dir, n)),
                );
            lemma_succeeded(
                before,
                after,
                at,
                from,
                showing(kept_at(dir, n)),
            );
        },
        None => {
            if ids.len() >= 2 {
                let (n, shown) = choose|n: u64, shown: Printed|
                    before_largest(ids, n) && !shown.success && #[trigger] answered(
                        before,
                        at,
                        Ask::Run(showing(kept_at(dir, n))),
                        Answer::Ran(shown),
                    );
                lemma_answered(
                    before,
                    after,
                    at,
                    from,
                    Ask::Run(showing(kept_at(dir, n))),
                    Answer::Ran(shown),
                );
            }
        },
    }
}

/// The second of the numbers, newest first, is the one before the largest; the first is the
/// largest.
proof fn lemma_before_largest(listed: Seq<u64>)
    ensures
        ({
            let sorted = listed.sort_by(newest_first());
            &&& sorted.len() == listed.len()
            &&& sorted.len() >= 1 ==> largest(listed, sorted[0])
            &&& sorted.len() >= 2 ==> before_largest(listed, sorted[1])
            &&& forall|x: u64| sorted.contains(x) <==> listed.contains(x)
            &&& listed.no_duplicates() ==> sorted.no_duplicates()
        }),
{
    broadcast use vstd::seq_lib::group_to_multiset_ensures;

    let sorted = listed.sort_by(newest_first());
    lemma_newest_first(listed);
    assert forall|x: u64| sorted.contains(x) <==> listed.contains(x) by {
        assert(sorted.to_multiset().contains(x) == listed.to_multiset().contains(x));
    }
    if listed.no_duplicates() {
        listed.lemma_multiset_has_no_duplicates();
        sorted.lemma_multiset_has_no_duplicates_conv();
    }
    if sorted.len() >= 1 {
        assert(sorted.contains(sorted[0]));
        assert forall|x: u64| listed.contains(x) implies x <= sorted[0] by {
            assert(sorted.contains(x));
        }
    }
    if sorted.len() >= 2 {
        assert(sorted.contains(sorted[1]));
        assert forall|m: u64| #[trigger] largest(listed, m) implies m == sorted[0] by {
            assert(sorted.contains(m));
        }
        assert forall|x: u64| listed.contains(x) implies !(sorted[1] < x < sorted[0]) by {
            assert(sorted.contains(x));
        }
    }
}

/// Looking for the snapshot before the newest one: snapper is asked for its list, and where a
/// snapshot is given, its number is in that list, it is smaller than the largest, and no listed
/// number lies between the two. Where none is given, fewer than two are listed or that snapshot
/// is no subvolume.
pub proof fn lemma_previous_is_next_to_newest(
    w: Owned,
    snapper: Seq<char>,
    dir: Seq<char>,
    log: Log,
)
    requires
        settled(log),
        w.source.snapper_config == Some(snapper),
    ensures
        ({
            let (l, o) = drive(finding_previous(w, dir), log);
            o matches Some(Ok(parent)) ==> by_list(
                l,
                log.asked.len() as int,
                snapper,
                w.config,
                dir,
                parent,
            )
        }),
{
    broadcast use {group_plan, lemma_drive_extends};

    reveal(finding_previous);
    reveal(listing);
    let at = log.asked.len() as int;
    let (l, o) = drive(finding_previous(w, dir), log);
    assert(list_call(snapper).args =~= snapper_list(snapper).args);
    if let Some(Ok(parent)) = o {
        let (l1, o1) = drive(listing(w), log);
        assert(l1.asked[at] == Ask::Run(snapper_list(snapper)));
        assert(extends(l1, l));
        assert(l.asked[at] == l1.asked[at]);
        let a = l.answers[at];
        let printed = a->Ran_0;
        assert(a == Answer::Ran(printed));
        assert(answered(l, at, Ask::Run(snapper_list(snapper)), Answer::Ran(printed)));
        let listed = numbers_in(printed, w.config);
        let ids = listed.sort_by(newest_first());
        lemma_before_largest(listed);
        if ids.len() >= 2 {
            let n = ids[1];
            let path = kept_at(dir, n);
            let show = showing(path);
            assert(snapper_place(n) == decimal(n as nat) + "/snapshot"@);
            let (l2, o2) = drive(checking_subvolume(path), l1);
            reveal(checking_subvolume);
            reveal(querying);
            assert(show_call(path).args =~= show.args);
            let k = l1.asked.len() as int + 1;
            assert(l2.asked[k] == Ask::Run(show));
            assert(extends(l2, l));
            assert(l.asked[k] == l2.asked[k]);
            let shown = l.answers[k]->Ran_0;
            assert(l.answers[k] == Answer::Ran(shown));
            assert(answered(l, at, Ask::Run(show), Answer::Ran(shown)));
            assert(before_largest(listed, n));
            if shown.success {
                assert(succeeded(l, at, show));
            }
        }
        assert(goes_with(l, at, printed, w.config, dir, parent));
    }
}

proof fn lemma_number_printed(w: Owned, snapper: Seq<char>, dir: Seq<char>, log: Log)
    requires
        settled(log),
        w.source.snapper_config == Some(snapper),
    ensures
        ({
            let (l, o) = drive(creating_by_snapper(w), log);
            o matches Some(Ok(place)) ==> by_number(
                l,
                log.asked.len() as int,
                snapper,
                w.config,
                dir,
                joined_path(dir, place),
            )
        }),
{
    broadcast use group_plan;

    reveal(creating_by_snapper);
    reveal(launching);
    reveal(complaining);
    let at = log.asked.len() as int;
    let description = "btrbak_"@ + w.config;
    let create = snapper_create(snapper, description);
    assert(w.description() == description);
    assert(crate::snapshot::create_call(snapper, description).args =~= create.args);
    assert(crate::snapshot::create_call(snapper, description) == create);
    let (l, o) = drive(creating_by_snapper(w), log);
    if let Some(Ok(place)) = o {
        assert(l.asked[at + 1] == Ask::Run(create));
        let printed = l.answers[at + 1]->Ran_0;
        assert(answered(l, at, Ask::Run(create), Answer::Ran(printed)));
        let n = parsed(trimmed(lossy_text(printed.stdout)))->Ok_0;
        assert(place == snapper_place(n));
    }
}

proof fn lemma_by_number(
    before: Log,
    after: Log,
    at: int,
    from: int,
    snapper: Seq<char>,
    config: Seq<char>,
    dir: Seq<char>,
    path: Seq<char>,
)
    requires
        by_number(before, at, snapper, config, dir, path),
        extends(before, after),
        0 <= from <= at,
    ensures
        by_number(after, from, snapper, config, dir, path),
{
    let q = Ask::Run(snapper_create(snapper, "btrbak_"@ + config));
    let printed = choose|printed: Printed|
        printed.success && #[trigger] answered(before, at, q, Answer::Ran(printed)) && (parsed(
            trimmed(lossy_text(printed.stdout)),
        ) matches Ok(n) && path == kept_at(dir, n));
    lemma_answered(before, after, at, from, q, Answer::Ran(printed));
}

/// Making a snapshot with snapper: the outcome is where snapper keeps the snapshot whose number
/// it printed, and the parent is the one before the newest in its list.
pub proof fn lemma_snapper_makes(w: Owned, snapper: Seq<char>, log: Log)
    requires
        settled(log),
        w.source.use_snapper,
        w.source.snapper_config == Some(snapper),
    ensures
        ({
            let (l, o) = drive(creating_local(w), log);
            let dir = local_dir(w.source);
            let at = log.asked.len() as int;
            o matches Some(Ok(made)) ==> {
                &&& by_number(l, at, snapper, w.config, dir, made.0)
                &&& by_list(l, at, snapper, w.config, dir, made.1)
            }
        }),
{
    broadcast use {group_plan, lemma_drive_extends};

    reveal(creating_local);
    reveal(creating_with_parent);
    let dir = local_dir(w.source);
    let at = log.asked.len() as int;
    let (l, o) = drive(creating_local(w), log);
    if let Some(Ok(made)) = o {
        let l1 = drive(checking_subvolume(w.source.path), log).0;
        let l2 = drive(ensuring_dir(dir), l1).0;
        let (l3, o3) = drive(creating_by_snapper(w), l2);
        let place = o3->0->Ok_0;
        lemma_number_printed(w, snapper, dir, l2);
        let l4 = drive(checking_subvolume(joined_path(dir, place)), l3).0;
        let l5 = drive(
            say(Tone::Detail, "Using snapper snapshot at: "@ + joined_path(dir, place)),
            l4,
        ).0;
        assert(l == drive(finding_previous(w, dir), l5).0);
        lemma_previous_is_next_to_newest(w, snapper, dir, l5);
        assert(l.asked.is_prefix_of(l.asked));
        lemma_by_list(l, l, l5.asked.len() as int, at, snapper, w.config, dir, made.1);
        lemma_by_number(l3, l, l2.asked.len() as int, at, snapper, w.config, dir, made.0);
    }
}

/// The backup of a source with snapper: every transfer that is asked for sends the snapshot
/// whose number snapper printed before, against the one before the newest in the list that it
/// gave before, and goes to where the snapshots are on the target. The backup succeeds only
/// where a transfer arrived.
pub proof fn lemma_parent_by_snapper(
    source: Source,
    snapper: Seq<char>,
    target: Target,
    mount: Seq<char>,
    config: Seq<char>,
    log: Log,
)
    requires
        settled(log),
        source.use_snapper,
        source.snapper_config == Some(snapper),
    ensures
        ({
            let (l, o) = drive(backing_up(source, target, mount, config), log);
            let at = log.asked.len() as int;
            let dir = local_dir(source);
            &&& forall|i: int|
                at <= i < l.asked.len() ==> (#[trigger] l.asked[i] matches Ask::Transfer {
                    source: path,
                    parent,
                    dest,
                } ==> {
                    &&& by_number(early(l, i), at, snapper, config, dir, path)
                    &&& by_list(early(l, i), at, snapper, config, dir, parent)
                    &&& dest == snapshots_dir(target, mount)
                })
            &&& o matches Some(Ok(stats)) ==> exists|path: Seq<char>, parent: Option<Seq<char>>|
                #[trigger] arrived(l, at, path, parent, snapshots_dir(target, mount), stats)
        }),
{
    broadcast use lemma_drive_extends;

    lemma_backup_transfers(source, target, mount, config, log);
    let (l, o) = drive(backing_up(source, target, mount, config), log);
    let at = log.asked.len() as int;
    let dir = local_dir(source);
    let w = Owned { source, config };
    let p1 = say(Tone::Substep, "Creating local snapshot"@);
    let (l1, o1) = drive(p1, log);
    let (l2, o2) = drive(creating_local(w), l1);
    if let (Some(_), Some(Ok(made))) = (o1, o2) {
        lemma_snapper_makes(w, snapper, l1);
        assert forall|i: int| at <= i < l.asked.len() implies (
        #[trigger] l.asked[i] matches Ask::Transfer { source: path, parent, dest } ==> {
            &&& by_number(early(l, i), at, snapper, config, dir, path)
            &&& by_list(early(l, i), at, snapper, config, dir, parent)
            &&& dest == snapshots_dir(target, mount)
        }) by {
            if l.asked[i] is Transfer {
                let e = early(l, i);
                let from = l1.asked.len() as int;
                lemma_by_list(l2, e, from, at, snapper, config, dir, made.1);
                lemma_by_number(l2, e, from, at, snapper, config, dir, made.0);
            }
        }
    } else if o1 is None {
        broadcast use group_plan;

        reveal(backing_up);
        assert(l == l1);
        assert(l.asked == log.asked);
    }
}

/// The deletions that are asked for, from the place where they begin.
proof fn lemma_deletions(config: Seq<char>, ids: Seq<u64>, i: int, log: Log)
    requires
        settled(log),
        0 <= i,
    ensures
        ({
            let (l, o) = drive(deleting_listed(config, ids, i), log);
            o matches Some(Ok(_)) ==> forall|j: int|
                i <= j < ids.len() ==> asked_for(
                    l,
                    log.asked.len() as int,
                    Ask::Run(snapper_delete(config, #[trigger] ids[j])),
                )
        }),
    decreases ids.len() - i,
{
    broadcast use {group_plan, lemma_drive_extends};

    let (l, o) = drive(deleting_listed(config, ids, i), log);
    if i < ids.len() && o matches Some(Ok(_)) {
        let at = log.asked.len() as int;
        let q = Ask::Run(snapper_delete(config, ids[i]));
        assert(crate::snapshot::delete_call(config, ids[i]).args =~= snapper_delete(
            config,
            ids[i],
        ).args);
        let p1 = say(
            Tone::Detail,
            "Deleting old snapper snapshot #"@ + decimal(ids[i] as nat),
        );
        let (l1, o1) = drive(p1, log);
        let (l2, o2) = drive(ask(q), l1);
        assert(l2.asked[at + 1] == q);
        assert(asked_for(l2, at, q));
        let printed = o2->0->Ran_0;
        let p3 = if printed.success {
            ok(())
        } else {
            say(
                Tone::Warning,
                "Failed to delete snapper snapshot #"@ + decimal(ids[i] as nat) + ": "@
                    + lossy_text(printed.stderr),
            )
        };
        let (l3, o3) = drive(p3, l2);
        assert(l == drive(deleting_listed(config, ids, i + 1), l3).0);
        lemma_deletions(config, ids, i + 1, l3);
        assert(extends(l2, l)) by {
            assert(extends(l3, l));
        }
        lemma_asked_for(l2, l, at, at, q);
        assert forall|j: int| i <= j < ids.len() implies asked_for(
            l,
            at,
            Ask::Run(snapper_delete(config, #[trigger] ids[j])),
        ) by {
            if j > i {
                let d = Ask::Run(snapper_delete(config, ids[j]));
                assert(l.asked.is_prefix_of(l.asked));
                lemma_asked_for(l, l, l3.asked.len() as int, at, d);
            }
        }
    }
}

/// The request that snapper deletes a snapshot.
pub open spec fn deletion(snapper: Seq<char>, number: u64) -> Ask {
    Ask::Run(snapper_delete(snapper, number))
}

/// From position `from` on, all listed snapshots but the newest were deleted, and no others.
pub open spec fn all_but_newest(l: Log, from: int, snapper: Seq<char>, listed: Seq<u64>) -> bool {
    &&& forall|n: u64|
        listed.contains(n) && !largest(listed, n) ==> asked_for(
            l,
            from,
            #[trigger] deletion(snapper, n),
        )
    &&& forall|n: u64|
        listed.no_duplicates() && largest(listed, n) ==> !asked_for(
            l,
            from,
            #[trigger] deletion(snapper, n),
        )
    &&& forall|i: int|
        from <= i < l.asked.len() && (#[trigger] l.asked[i]) !is Say ==> exists|n: u64|
            listed.contains(n) && l.asked[i] == #[trigger] deletion(snapper, n)
}

proof fn lemma_deletes_all_but_newest(snapper: Seq<char>, listed: Seq<u64>, log: Log)
    requires
        settled(log),
    ensures
        ({
            let (l, o) = drive(
                deleting_listed(snapper, listed.sort_by(newest_first()), 1),
                log,
            );
            o matches Some(Ok(_)) ==> all_but_newest(l, log.asked.len() as int, snapper, listed)
        }),
{
    let ids = listed.sort_by(newest_first());
    let plan = deleting_listed(snapper, ids, 1);
    let (l, o) = drive(plan, log);
    let from = log.asked.len() as int;
    if o matches Some(Ok(_)) {
        lemma_before_largest(listed);
        lemma_deletions(snapper, ids, 1, log);
        lemma_deletes_only(snapper, ids, 1, 1);
        lemma_only(plan, crate::restraint::deletes_only(snapper, ids, 1), log);
        lemma_only_says_and_runs(snapper, ids, 1);
        lemma_only(plan, says_and_runs(), log);
        assert forall|i: int| from <= i < l.asked.len() && (#[trigger] l.asked[i]) !is Say implies
            exists|j: int|
            1 <= j < ids.len() && l.asked[i] == deletion(snapper, #[trigger] ids[j])
                && listed.contains(ids[j]) by {
            assert(says_and_runs()(l.asked[i]));
            assert(crate::restraint::deletes_only(snapper, ids, 1)(l.asked[i]));
            let j = choose|j: int|
                1 <= j < ids.len() && l.asked[i]->Run_0 == crate::snapshot::delete_call(
                    snapper,
                    #[trigger] ids[j],
                );
            assert(crate::snapshot::delete_call(snapper, ids[j]).args =~= snapper_delete(
                snapper,
                ids[j],
            ).args);
            assert(ids.contains(ids[j]));
        }
        assert forall|n: u64| listed.contains(n) && !largest(listed, n) implies asked_for(
            l,
            from,
            #[trigger] deletion(snapper, n),
        ) by {
            assert(ids.contains(n));
            let j = choose|j: int| 0 <= j < ids.len() && ids[j] == n;
            assert(j != 0);
            assert(deletion(snapper, n) == Ask::Run(snapper_delete(snapper, ids[j])));
        }
        assert forall|n: u64| listed.no_duplicates() && largest(listed, n) implies !asked_for(
            l,
            from,
            #[trigger] deletion(snapper, n),
        ) by {
            let q = deletion(snapper, n);
            if asked_for(l, from, q) {
                let i = choose|i: int| from <= i < l.asked.len() && #[trigger] l.asked[i] == q;
                let j = choose|j: int|
                    1 <= j < ids.len() && l.asked[i] == deletion(snapper, #[trigger] ids[j])
                        && listed.contains(ids[j]);
                lemma_delete_words(snapper, n, ids[j]);
                assert(largest(listed, ids[0]));
                assert(ids[0] != ids[j]);
            }
        }
    }
}

/// Cleaning up with snapper: it is asked for its list, and then for the deletion of every
/// listed snapshot of the backup but the newest, and for nothing else. Where the list cannot be
/// had, nothing is deleted.
pub proof fn lemma_cleaning_by_snapper(
    w: Owned,
    parent: Option<Seq<char>>,
    snapper: Seq<char>,
    log: Log,
)
    requires
        settled(log),
        w.source.use_snapper,
        w.source.snapper_config == Some(snapper),
    ensures
        ({
            let (l, o) = drive(cleaning(w, parent), log);
            let at = log.asked.len() as int;
            o matches Some(Ok(_)) ==> {
                &&& at < l.asked.len()
                &&& l.asked[at] == Ask::Run(snapper_list(snapper))
                &&& match l.answers[at] {
                    Answer::Ran(printed) if printed.success => all_but_newest(
                        l,
                        at + 1,
                        snapper,
                        numbers_in(printed, w.config),
                    ),
                    _ => forall|i: int| at < i < l.asked.len() ==> (#[trigger] l.asked[i]) is Say,
                }
            }
        }),
{
    broadcast use {group_plan, lemma_drive_extends};

    reveal(cleaning);
    reveal(cleaning_by_snapper);
    reveal(listing);
    let (l, o) = drive(cleaning(w, parent), log);
    let at = log.asked.len() as int;
    assert(list_call(snapper).args =~= snapper_list(snapper).args);
    if o matches Some(Ok(_)) {
        let (l1, o1) = drive(listing(w), log);
        assert(l1.asked[at] == Ask::Run(snapper_list(snapper)));
        assert(extends(l1, l));
        assert(l.asked[at] == l1.asked[at]);
        assert(l1.asked.len() == at + 1);
        if let Some(Ok(ids)) = o1 {
            let printed = l.answers[at]->Ran_0;
            let listed = numbers_in(printed, w.config);
            assert(ids == listed.sort_by(newest_first()));
            lemma_deletes_all_but_newest(snapper, listed, l1);
        } else {
            assert(l.asked.len() == at + 2);
        }
    }
}

/// The request shows a message or runs a program.
spec fn says_and_runs() -> spec_fn(Ask) -> bool {
    |q: Ask| q is Say || q is Run
}

proof fn lemma_only_says_and_runs(config: Seq<char>, ids: Seq<u64>, i: int)
    ensures
        only(deleting_listed(config, ids, i), says_and_runs()),
    decreases ids.len() - i,
{
    broadcast use group_only;

    if 0 <= i < ids.len() {
        lemma_only_says_and_runs(config, ids, i + 1);
    }
}

/// The commands that delete different snapshots are different.
proof fn lemma_delete_words(config: Seq<char>, a: u64, b: u64)
    requires
        snapper_delete(config, a) == snapper_delete(config, b),
    ensures
        a == b,
{
    assert(snapper_delete(config, a).args[3] == decimal(a as nat));
    assert(snapper_delete(config, b).args[3] == decimal(b as nat));
    lemma_number_round_trip(a);
    lemma_number_round_trip(b);
}

/// The request has snapper delete nothing.
pub open spec fn keeps_all() -> spec_fn(Ask) -> bool {
    |q: Ask| q matches Ask::Run(c) ==> !(c.program == "snapper"@ && c.args.len() == 4)
}

broadcast proof fn lemma_btrfs_keeps_all(area: Area, c: Call, msg: Seq<char>)
    requires
        c.program == "btrfs"@,
    ensures
        #[trigger] only(commanding(area, c, msg), keeps_all()),
{
    broadcast use group_only;

    reveal(commanding);
    reveal(launching);
    reveal(complaining);
    lemma_btrfs_is_not_snapper();
}

proof fn lemma_btrfs_is_not_snapper()
    ensures
        "btrfs"@ != "snapper"@,
{
    reveal_strlit("btrfs");
    reveal_strlit("snapper");
    assert("btrfs"@.len() == 5);
}

broadcast proof fn lemma_checking_keeps_all(path: Seq<char>)
    ensures
        #[trigger] only(checking_subvolume(path), keeps_all()),
{
    broadcast use group_only;

    reveal(checking_subvolume);
    reveal(querying);
    lemma_btrfs_is_not_snapper();
}

broadcast proof fn lemma_renaming_keeps_all(from: Seq<char>, to: Seq<char>)
    ensures
        #[trigger] only(renaming(from, to), keeps_all()),
{
    broadcast use {group_only, lemma_checking_keeps_all};

    reveal(renaming);
}

broadcast proof fn lemma_deleting_keeps_all(path: Seq<char>)
    ensures
        #[trigger] only(deleting_subvolume(path), keeps_all()),
{
    broadcast use {group_only, lemma_btrfs_keeps_all};

    reveal(deleting_subvolume);
}

proof fn lemma_creating_keeps_all(w: Owned)
    ensures
        only(creating_local(w), keeps_all()),
{
    broadcast use {
        group_only,
        lemma_btrfs_keeps_all,
        lemma_checking_keeps_all,
        lemma_renaming_keeps_all,
        lemma_deleting_keeps_all,
    };

    reveal(creating_local);
    reveal(ensuring_dir);
    reveal(creating_with_parent);
    reveal(creating_by_snapper);
    reveal(finding_previous);
    reveal(listing);
    reveal(creating_manual);
    reveal(deleting_if_there);
    reveal(finding_subvolume);
    reveal(creating_snapshot);
    reveal(launching);
    reveal(complaining);
    if let Some(snapper) = w.source.snapper_config {
        assert(crate::snapshot::create_call(snapper, w.description()).args.len() == 9);
        assert(list_call(snapper).args.len() == 5);
    }
}

proof fn lemma_sending_keeps_all(
    source: Source,
    target: Target,
    snapshot: Seq<char>,
    parent: Option<Seq<char>>,
    mount: Seq<char>,
)
    ensures
        only(sending(source, target, snapshot, parent, mount), keeps_all()),
{
    broadcast use {
        group_only,
        lemma_checking_keeps_all,
        lemma_renaming_keeps_all,
        lemma_deleting_keeps_all,
    };

    reveal(sending);
    reveal(ensuring_dir);
    reveal(replacing_by_send);
    reveal(receiving_as);
    reveal(making_room);
    reveal(transferring);
    reveal(judging_transfer);
    reveal(complaining);
    assert forall|w: Swap| only(#[trigger] restoring(w), keeps_all()) by {
        reveal(restoring);
    }
    assert forall|w: Swap, rename: bool, stats: TransferStats| only(
        #[trigger] settling(w, rename, stats),
        keeps_all(),
    ) by {
        reveal(settling);
        reveal(clearing_up);
        reveal(discarding);
    }
}

/// The request is one of the requests in the backup of a source that come after the transfer:
/// a snapshot arrived before.
pub open spec fn after_arrival(l: Log, at: int, i: int, dest: Seq<char>) -> bool {
    exists|path: Seq<char>, parent: Option<Seq<char>>, stats: TransferStats| #[trigger]
        arrived(early(l, i), at, path, parent, dest, stats)
}

/// Snapper deletes nothing before the new snapshot has arrived: where the transfer fails, all
/// snapshots are kept.
pub proof fn lemma_cleanup_after_arrival(
    source: Source,
    target: Target,
    mount: Seq<char>,
    config: Seq<char>,
    log: Log,
)
    requires
        settled(log),
    ensures
        ({
            let (l, o) = drive(backing_up(source, target, mount, config), log);
            let at = log.asked.len() as int;
            forall|i: int|
                at <= i < l.asked.len() ==> (#[trigger] l.asked[i] matches Ask::Run(c) ==> (
                c.program == "snapper"@ && c.args.len() == 4 ==> after_arrival(
                    l,
                    at,
                    i,
                    snapshots_dir(target, mount),
                )))
        }),
{
    broadcast use {group_plan, group_only, lemma_drive_extends};

    reveal(backing_up);
    let w = Owned { source, config };
    let dir = snapshots_dir(target, mount);
    let at = log.asked.len() as int;
    let keep = keeps_all();
    let (l, o) = drive(backing_up(source, target, mount, config), log);
    let p1 = say(Tone::Substep, "Creating local snapshot"@);
    let (l1, o1) = drive(p1, log);
    lemma_only(p1, keep, log);
    if o1 is Some {
        let (l2, o2) = drive(creating_local(w), l1);
        lemma_creating_keeps_all(w);
        lemma_only(creating_local(w), keep, l1);
        if let Some(Ok(made)) = o2 {
            let p3 = say(
                Tone::Substep,
                "Sending snapshot to target ("@ + mode_text(made.1) + ")"@,
            );
            let (l3, o3) = drive(p3, l2);
            lemma_only(p3, keep, l2);
            if o3 is Some {
                let p4 = sending(source, target, made.0, made.1, mount);
                let (l4, o4) = drive(p4, l3);
                lemma_sending_keeps_all(source, target, made.0, made.1, mount);
                lemma_only(p4, keep, l3);
                lemma_sending_transfers(source, target, made.0, made.1, mount, l3);
                assert(extends(l4, l));
                assert(extends(l3, l));
                assert(extends(l2, l));
                assert(extends(l1, l));
                assert forall|i: int| at <= i < l4.asked.len() implies keep(#[trigger] l.asked[i])
                by {
                    if i < l1.asked.len() {
                        assert(l.asked[i] == l1.asked[i]);
                        assert(keep(l1.asked[i]));
                    } else if i < l2.asked.len() {
                        assert(l.asked[i] == l2.asked[i]);
                        assert(keep(l2.asked[i]));
                    } else if i < l3.asked.len() {
                        assert(l.asked[i] == l3.asked[i]);
                        assert(keep(l3.asked[i]));
                    } else {
                        assert(l.asked[i] == l4.asked[i]);
                        assert(keep(l4.asked[i]));
                    }
                }
                if let Some(Ok(stats)) = o4 {
                    assert forall|i: int| l4.asked.len() <= i < l.asked.len() implies #[trigger]
                        after_arrival(l, at, i, dir) by {
                        let from = l3.asked.len() as int;
                        assert(extends(l4, early(l, i))) by {
                            assert(l4.asked =~= l.asked.take(i).subrange(
                                0,
                                l4.asked.len() as int,
                            ));
                        }
                        lemma_arrived(l4, early(l, i), from, at, made.0, made.1, dir, stats);
                    }
                } else {
                    assert(l == l4);
                }
                assert forall|i: int|
                    at <= i < l.asked.len() && !keep(#[trigger] l.asked[i]) implies after_arrival(
                    l,
                    at,
                    i,
                    dir,
                ) by {
                    assert(i >= l4.asked.len());
                }
            } else {
                assert(l.asked == l3.asked);
                assert forall|i: int| at <= i < l.asked.len() implies keep(#[trigger] l.asked[i])
                by {
                    if i < l1.asked.len() {
                        assert(l2.asked[i] == l1.asked[i]);
                        assert(l.asked[i] == l2.asked[i]);
                        assert(keep(l1.asked[i]));
                    } else if i < l2.asked.len() {
                        assert(l.asked[i] == l2.asked[i]);
                        assert(keep(l2.asked[i]));
                    } else {
                        assert(keep(l3.asked[i]));
                    }
                }
            }
        } else {
            assert(l.asked == l2.asked);
            assert forall|i: int| at <= i < l.asked.len() implies keep(#[trigger] l.asked[i]) by {
                if i < l1.asked.len() {
                    assert(l2.asked[i] == l1.asked[i]);
                    assert(keep(l1.asked[i]));
                } else {
                    assert(keep(l2.asked[i]));
                }
            }
        }
    } else {
        assert(l.asked == l1.asked);
        assert forall|i: int| at <= i < l.asked.len() implies keep(#[trigger] l.asked[i]) by {
            assert(keep(l1.asked[i]));
        }
    }
}

/// How a snapshot is sent is told before: incrementally exactly where the transfer has a parent.
pub proof fn lemma_mode_told(
    source: Source,
    target: Target,
    mount: Seq<char>,
    config: Seq<char>,
    log: Log,
)
    requires
        settled(log),
    ensures
        ({
            let (l, o) = drive(backing_up(source, target, mount, config), log);
            let at = log.asked.len() as int;
            forall|i: int|
                at <= i < l.asked.len() ==> (#[trigger] l.asked[i] matches Ask::Transfer {
                    parent,
                    ..
                } ==> asked_for(
                    early(l, i),
                    at,
                    Ask::Say {
                        tone: Tone::Substep,
                        text: "Sending snapshot to target ("@ + (if parent is Some {
                            "incremental"@
                        } else {
                            "full"@
                        }) + ")"@,
                    },
                ))
        }),
{
    broadcast use {group_plan, lemma_drive_extends};

    lemma_backup_transfers(source, target, mount, config, log);
    let w = Owned { source, config };
    let at = log.asked.len() as int;
    let (l, o) = drive(backing_up(source, target, mount, config), log);
    let (l1, o1) = drive(say(Tone::Substep, "Creating local snapshot"@), log);
    let (l2, o2) = drive(creating_local(w), l1);
    assert forall|i: int| at <= i < l.asked.len() implies (
    #[trigger] l.asked[i] matches Ask::Transfer { parent, .. } ==> asked_for(
        early(l, i),
        at,
        Ask::Say {
            tone: Tone::Substep,
            text: "Sending snapshot to target ("@ + (if parent is Some {
                "incremental"@
            } else {
                "full"@
            }) + ")"@,
        },
    )) by {
        if l.asked[i] is Transfer {
            reveal(backing_up);
            let made = o2->0->Ok_0;
            let text = "Sending snapshot to target ("@ + mode_text(made.1) + ")"@;
            let q = Ask::Say { tone: Tone::Substep, text };
            let (l3, o3) = drive(say(Tone::Substep, text), l2);
            let k = l2.asked.len() as int;
            if o1 is None {
                assert(l.asked == log.asked);
            } else if o3 is None {
                assert(l.asked == l2.asked);
                assert(early(l, i).asked.len() == i);
                assert(l2.asked.len() <= i);
            } else {
                assert(l3.asked[k] == q);
                let p4 = sending(source, target, made.0, made.1, mount);
                let l4 = drive(p4, l3).0;
                assert(extends(l4, l));
                assert(extends(l3, l));
                assert(l.asked[k] == l3.asked[k]);
                assert(i != k);
                assert(early(l, i).asked[k] == q);
            }
        }
    }
}

} // verus!
