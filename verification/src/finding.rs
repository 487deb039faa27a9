//! What is found among what the system reports: the latest snapshot in a directory, and the ID
//! of a subvolume.

use crate::btrfs::{
    checking_subvolume, choosing_latest, collecting_subvolumes, dating, finding_id, finding_latest,
    first_id, later, latest, lemma_latest, stamp_in,
};
use crate::command_runner::querying;
use crate::error::{Fault, IoFault};
use crate::journal::{ask, drive, flag_in, group_plan, present, Answer, Ask, Log, Printed};
use crate::lineage::showing;
use crate::orders::{answered, lemma_answered, lemma_querying, lemma_succeeded, succeeded};
use crate::spelling::entry_paths;
use crate::text::{lines_of, lossy_text};
use crate::trace::{extends, lemma_drive_extends, settled};
use vstd::prelude::*;

verus! {

/// From position `at` on, the path was found to be no subvolume.
pub open spec fn not_shown(l: Log, at: int, path: Seq<char>) -> bool {
    exists|o: Printed|
        !o.success && #[trigger] answered(l, at, Ask::Run(showing(path)), Answer::Ran(o))
}

pub(crate) proof fn lemma_not_shown(before: Log, after: Log, at: int, from: int, path: Seq<char>)
    requires
        not_shown(before, at, path),
        extends(before, after),
        0 <= from <= at,
    ensures
        not_shown(after, from, path),
{
    let q = Ask::Run(showing(path));
    let o = choose|o: Printed| !o.success && #[trigger] answered(before, at, q, Answer::Ran(o));
    lemma_answered(before, after, at, from, q, Answer::Ran(o));
}

pub(crate) proof fn lemma_checking(path: Seq<char>, log: Log)
    requires
        settled(log),
    ensures
        ({
            let (l, o) = drive(checking_subvolume(path), log);
            let at = log.asked.len() as int;
            o matches Some(Ok(yes)) ==> {
                &&& yes ==> succeeded(l, at, showing(path))
                &&& !yes ==> not_shown(l, at, path)
            }
        }),
{
    broadcast use group_plan;

    reveal(checking_subvolume);
    assert(crate::btrfs::show_call(path).args =~= showing(path).args);
    lemma_querying(showing(path), log);
}

/// The subvolumes among the paths: each of `found` is one of the paths and can be shown as a
/// subvolume, and every path that is left out cannot.
pub open spec fn are_subvolumes(
    l: Log,
    at: int,
    paths: Seq<Seq<char>>,
    found: Seq<Seq<char>>,
) -> bool {
    &&& forall|p: Seq<char>| #[trigger]
        found.contains(p) ==> paths.contains(p) && succeeded(l, at, showing(p))
    &&& forall|i: int|
        0 <= i < paths.len() ==> found.contains(#[trigger] paths[i]) || not_shown(l, at, paths[i])
}

proof fn lemma_collecting(paths: Seq<Seq<char>>, i: int, found: Seq<Seq<char>>, log: Log)
    requires
        settled(log),
        0 <= i <= paths.len(),
    ensures
        ({
            let (l, o) = drive(collecting_subvolumes(paths, i, found), log);
            let at = log.asked.len() as int;
            o matches Some(Ok(all)) ==> {
                &&& forall|p: Seq<char>| found.contains(p) ==> #[trigger] all.contains(p)
                &&& forall|p: Seq<char>| #[trigger]
                    all.contains(p) ==> found.contains(p) || paths.contains(p) && succeeded(
                        l,
                        at,
                        showing(p),
                    )
                &&& forall|j: int|
                    i <= j < paths.len() ==> all.contains(#[trigger] paths[j]) || not_shown(
                        l,
                        at,
                        paths[j],
                    )
            }
        }),
    decreases paths.len() - i,
{
    broadcast use {group_plan, lemma_drive_extends};

    let at = log.asked.len() as int;
    let (l, o) = drive(collecting_subvolumes(paths, i, found), log);
    if i < paths.len() {
        if let Some(Ok(all)) = o {
            let (l1, o1) = drive(checking_subvolume(paths[i]), log);
            let yes = o1->0->Ok_0;
            lemma_checking(paths[i], log);
            let next = if yes {
                found.push(paths[i])
            } else {
                found
            };
            lemma_collecting(paths, i + 1, next, l1);
            let from = l1.asked.len() as int;
            assert(extends(l1, l));
            assert(l.asked.is_prefix_of(l.asked));
            if yes {
                lemma_succeeded(l1, l, at, at, showing(paths[i]));
                assert(next[found.len() as int] == paths[i]);
                assert(next.contains(paths[i]));
            } else {
                lemma_not_shown(l1, l, at, at, paths[i]);
            }
            assert forall|p: Seq<char>| found.contains(p) implies #[trigger] all.contains(p) by {
                let k = choose|k: int| 0 <= k < found.len() && found[k] == p;
                assert(next[k] == p);
                assert(next.contains(p));
            }
            assert forall|p: Seq<char>| #[trigger] all.contains(p) implies found.contains(p)
                || paths.contains(p) && succeeded(l, at, showing(p)) by {
                if next.contains(p) {
                    let k = choose|k: int| 0 <= k < next.len() && next[k] == p;
                    if k < found.len() {
                        assert(found[k] == p);
                    }
                } else {
                    lemma_succeeded(l, l, from, at, showing(p));
                }
            }
            assert forall|j: int| i <= j < paths.len() implies all.contains(#[trigger] paths[j])
                || not_shown(l, at, paths[j]) by {
                if j > i && !all.contains(paths[j]) {
                    lemma_not_shown(l, l, from, at, paths[j]);
                }
            }
        }
    }
}

/// From position `at` on, `time` was answered as the modification time of the path.
pub open spec fn dated(l: Log, at: int, path: Seq<char>, time: Option<i128>) -> bool {
    exists|a: Answer| #[trigger]
        answered(l, at, Ask::ModifiedAt(path), a) && time == (match a {
            Answer::Stamp(t) => t,
            _ => None,
        })
}

proof fn lemma_dated(
    before: Log,
    after: Log,
    at: int,
    from: int,
    path: Seq<char>,
    time: Option<i128>,
)
    requires
        dated(before, at, path, time),
        extends(before, after),
        0 <= from <= at,
    ensures
        dated(after, from, path, time),
{
    let q = Ask::ModifiedAt(path);
    let a = choose|a: Answer| #[trigger]
        answered(before, at, q, a) && time == (match a {
            Answer::Stamp(t) => t,
            _ => None,
        });
    lemma_answered(before, after, at, from, q, a);
}

proof fn lemma_dating(paths: Seq<Seq<char>>, i: int, times: Seq<Option<i128>>, log: Log)
    requires
        settled(log),
        0 <= i <= paths.len(),
        times.len() == i,
    ensures
        ({
            let (l, o) = drive(dating(paths, i, times), log);
            o matches Some(r) ==> r matches Ok(all) && {
                &&& all.len() == paths.len()
                &&& forall|j: int| 0 <= j < i ==> #[trigger] all[j] == times[j]
                &&& forall|j: int|
                    i <= j < paths.len() ==> dated(
                        l,
                        log.asked.len() as int,
                        #[trigger] paths[j],
                        all[j],
                    )
            }
        }),
    decreases paths.len() - i,
{
    broadcast use {group_plan, lemma_drive_extends};

    let at = log.asked.len() as int;
    let (l, o) = drive(dating(paths, i, times), log);
    if i < paths.len() {
        if o is Some {
            let q = Ask::ModifiedAt(paths[i]);
            let (l1, o1) = drive(ask(q), log);
            let a = o1->0;
            assert(l1.asked[at] == q);
            lemma_dating(paths, i + 1, times.push(stamp_in(a)), l1);
            assert(extends(l1, l));
            assert(l.asked[at] == l1.asked[at]);
            assert(answered(l, at, q, a));
            let all = o->0->Ok_0;
            assert(all[i] == times.push(stamp_in(a))[i]);
            assert(dated(l, at, paths[i], all[i]));
            assert forall|j: int| 0 <= j < i implies #[trigger] all[j] == times[j] by {
                assert(all[j] == times.push(stamp_in(a))[j]);
            }
            assert forall|j: int| i <= j < paths.len() implies dated(
                l,
                at,
                #[trigger] paths[j],
                all[j],
            ) by {
                if j > i {
                    assert(l.asked.is_prefix_of(l.asked));
                    lemma_dated(l, l, l1.asked.len() as int, at, paths[j], all[j]);
                }
            }
        }
    }
}

/// A time that is not after another; an unknown time is after none.
pub open spec fn not_after(a: Option<i128>, b: Option<i128>) -> bool {
    match (a, b) {
        (None, _) => true,
        (Some(x), Some(y)) => x <= y,
        (Some(_), None) => false,
    }
}

/// One of the snapshots that no other is later than, by the times that were answered; a single
/// one needs no time.
pub open spec fn newest_of(
    l: Log,
    at: int,
    snapshots: Seq<Seq<char>>,
    path: Seq<char>,
) -> bool {
    &&& snapshots.contains(path)
    &&& snapshots.len() > 1 ==> exists|time: Option<i128>| #[trigger]
        dated(l, at, path, time) && forall|j: int|
            0 <= j < snapshots.len() ==> exists|other: Option<i128>|
                dated(l, at, #[trigger] snapshots[j], other) && not_after(other, time)
}

proof fn lemma_choosing(snapshots: Seq<Seq<char>>, log: Log)
    requires
        settled(log),
    ensures
        ({
            let (l, o) = drive(choosing_latest(snapshots), log);
            o matches Some(r) ==> r matches Ok(best) && match best {
                None => snapshots.len() == 0,
                Some(path) => newest_of(l, log.asked.len() as int, snapshots, path),
            }
        }),
{
    broadcast use {group_plan, lemma_drive_extends};

    reveal(choosing_latest);
    let at = log.asked.len() as int;
    let (l, o) = drive(choosing_latest(snapshots), log);
    if o is Some && snapshots.len() > 1 {
        lemma_dating(snapshots, 0, Seq::empty(), log);
        let times = drive(dating(snapshots, 0, Seq::empty()), log).1->0->Ok_0;
        lemma_latest(times);
        let k = latest(times);
        let path = snapshots[k];
        assert(dated(l, at, path, times[k]));
        assert forall|j: int| 0 <= j < snapshots.len() implies exists|other: Option<i128>|
            dated(l, at, #[trigger] snapshots[j], other) && not_after(other, times[k]) by {
            assert(dated(l, at, snapshots[j], times[j]));
            assert(!later(times[j], times[k]));
            assert(not_after(times[j], times[k]));
        }
    }
}

/// Looking for the latest snapshot in a directory: where there is no such directory, there is
/// none. Else the subvolumes among its entries are the snapshots; none is given exactly where
/// there are none, and the one that is given is one that no other is later than.
pub proof fn lemma_finding_latest(dir: Seq<char>, log: Log)
    requires
        settled(log),
    ensures
        ({
            let (l, o) = drive(finding_latest(dir), log);
            let at = log.asked.len() as int;
            o matches Some(Ok(best)) ==> {
                &&& at < l.asked.len()
                &&& l.asked[at] == Ask::Exists(dir)
                &&& !flag_in(l.answers[at]) ==> best is None
                &&& flag_in(l.answers[at]) ==> exists|
                    names: Seq<Seq<u8>>,
                    snapshots: Seq<Seq<char>>,
                |
                    {
                        &&& answered(
                            l,
                            at,
                            Ask::ReadDir(dir),
                            Answer::Entries { names, failure: None },
                        )
                        &&& #[trigger] are_subvolumes(l, at, entry_paths(dir, names), snapshots)
                        &&& match best {
                            None => snapshots.len() == 0,
                            Some(path) => newest_of(l, at, snapshots, path),
                        }
                    }
            }
        }),
{
    broadcast use {group_plan, lemma_drive_extends};

    reveal(finding_latest);
    let at = log.asked.len() as int;
    let (l, o) = drive(finding_latest(dir), log);
    if let Some(Ok(best)) = o {
        let l1 = drive(present(dir), log).0;
        assert(l1.asked[at] == Ask::Exists(dir));
        assert(extends(l1, l));
        assert(l.asked[at] == l1.asked[at]);
        if flag_in(l.answers[at]) {
            let q = Ask::ReadDir(dir);
            let (l2, o2) = drive(ask(q), l1);
            let a = o2->0;
            assert(l2.asked[at + 1] == q);
            assert(extends(l2, l));
            assert(l.asked[at + 1] == l2.asked[at + 1]);
            let names = a->names;
            let failure = a->failure;
            assert(a == Answer::Entries { names, failure });
            let paths = entry_paths(dir, names);
            let (l3, o3) = drive(collecting_subvolumes(paths, 0, Seq::empty()), l2);
            let snapshots = o3->0->Ok_0;
            assert(failure is None);
            assert(answered(l, at, q, Answer::Entries { names, failure: None::<IoFault> }));
            lemma_collecting(paths, 0, Seq::empty(), l2);
            assert(l == drive(choosing_latest(snapshots), l3).0);
            lemma_choosing(snapshots, l3);
            let from = l2.asked.len() as int;
            assert(extends(l3, l));
            assert(l.asked.is_prefix_of(l.asked));
            assert(are_subvolumes(l, at, paths, snapshots)) by {
                assert forall|p: Seq<char>| #[trigger] snapshots.contains(p) implies paths.contains(
                    p,
                ) && succeeded(l, at, showing(p)) by {
                    assert(!Seq::<Seq<char>>::empty().contains(p));
                    lemma_succeeded(l3, l, from, at, showing(p));
                }
                assert forall|i: int| 0 <= i < paths.len() implies snapshots.contains(
                    #[trigger] paths[i],
                ) || not_shown(l, at, paths[i]) by {
                    if !snapshots.contains(paths[i]) {
                        lemma_not_shown(l3, l, from, at, paths[i]);
                    }
                }
            }
            if let Some(path) = best {
                lemma_newest_of(l, l3.asked.len() as int, at, snapshots, path);
            }
        }
    }
}

proof fn lemma_newest_of(l: Log, at: int, from: int, snapshots: Seq<Seq<char>>, path: Seq<char>)
    requires
        newest_of(l, at, snapshots, path),
        0 <= from <= at,
        l.asked.len() <= l.answers.len(),
    ensures
        newest_of(l, from, snapshots, path),
{
    if snapshots.len() > 1 {
        assert(l.asked.is_prefix_of(l.asked));
        let time = choose|time: Option<i128>| #[trigger]
            dated(l, at, path, time) && forall|j: int|
                0 <= j < snapshots.len() ==> exists|other: Option<i128>|
                    dated(l, at, #[trigger] snapshots[j], other) && not_after(other, time);
        lemma_dated(l, l, at, from, path, time);
        assert forall|j: int| 0 <= j < snapshots.len() implies exists|other: Option<i128>|
            dated(l, from, #[trigger] snapshots[j], other) && not_after(other, time) by {
            let other = choose|other: Option<i128>|
                dated(l, at, snapshots[j], other) && not_after(other, time);
            lemma_dated(l, l, at, from, snapshots[j], other);
        }
    }
}

/// The ID of a subvolume: it is given exactly where the subvolume can be shown and one of the
/// lines that are printed gives it.
pub proof fn lemma_finding_id(path: Seq<char>, log: Log)
    requires
        settled(log),
    ensures
        ({
            let (l, o) = drive(finding_id(path), log);
            let at = log.asked.len() as int;
            o is Some ==> {
                &&& at + 1 < l.asked.len()
                &&& l.asked[at + 1] == Ask::Run(showing(path))
                &&& forall|id: u64|
                    o == Some(Ok::<u64, Fault>(id)) <==> #[trigger] gives_id(l.answers[at + 1], id)
            }
        }),
{
    broadcast use group_plan;

    reveal(finding_id);
    reveal(querying);
    assert(crate::btrfs::show_call(path).args =~= showing(path).args);
}

/// The subvolume was shown, and the first of the lines that gives an ID gives this one.
pub open spec fn gives_id(a: Answer, id: u64) -> bool {
    a matches Answer::Ran(p) && p.success && first_id(lines_of(lossy_text(p.stdout)), 0) == Some(id)
}

} // verus!
