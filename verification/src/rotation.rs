//! What the backup of a source does to the disks, where snapper is not involved: how the local
//! snapshots follow each other, and what stands on the target in the end.

use crate::backup::{
    backing_up, backing_up_all, backing_up_each, backing_up_one, complaints, conclusion,
    ending_line, last_step, mode_text, sending, snapshots_dir, steps_of, summing_up,
    telling_outcomes, updating_after, updating_live, Outcome,
};
use crate::btrfs::{
    checking_subvolume, creating_snapshot, deleting_subvolume, ensuring_dir, naming, renaming,
    replacing_by_send, subvolume_name,
};
use crate::config::{Setup, Source, Target};
use crate::course::{lemma_conclusion, lemma_turns};
use crate::delivery::{
    distinct_names, lemma_ensuring_dir, lemma_longer_name, lemma_replacing_by_send, lossless,
};
use crate::disk::{
    apart, deleted, follows, grown, hopped, lemma_apart_siblings, lemma_checking, lemma_deleting,
    lemma_follows_ask, lemma_follows_bind, lemma_follows_then, lemma_looking, lemma_present,
    lemma_renaming, lemma_snapping, looking, moved, now, place, same_beside, snapped, throughout,
    within, Disk, Place, Thing,
};
use crate::error::{fault_text, Fault};
#[allow(unused_imports)]
use crate::journal::{
    ask, bind, drive, fail, flag_in, group_plan, ok, present, say, then, Answer, Ask, Log, Plan,
    Tone, TransferStats, Try,
};
use crate::path::{is_plain, joined_path, lemma_join_adds_component, lemma_joined_name, quoted_path};
use crate::snapper::{lemma_backing_up_by_snapper, lemma_obedient_earlier, obedient};
use crate::snapshot::{
    cleaning, creating_local, creating_manual, creating_with_parent, deleting_if_there,
    finding_subvolume, keeping_previous, Owned,
};
use crate::sparing::{
    any, believed, lemma_looking_spares, lemma_spares, lemma_spares_bind, lemma_spares_live,
    lemma_spares_then, lemma_spares_weaker, live_apart, spares, succeeding,
};
use crate::trace::{extends, group_only, lemma_drive_extends, only};
use crate::ui::step_text;
use vstd::prelude::*;

verus! {

/// Whether something exists is always told.
pub open spec fn told(log: Log) -> bool {
    forall|i: int|
        #![trigger log.asked[i]]
        0 <= i < log.asked.len() && log.asked[i] is Exists ==> log.answers[i] is Flag
}

/// A plan in whose run it is always told whether something exists.
pub open spec fn tells<T>(p: Plan<T>, log: Log) -> bool {
    told(drive(p, log).0)
}

pub(crate) proof fn lemma_told_earlier(l: Log, m: Log)
    requires
        extends(l, m),
        told(m),
    ensures
        told(l),
{
    assert forall|i: int|
        0 <= i < l.asked.len() && (#[trigger] l.asked[i]) is Exists implies
        l.answers[i] is Flag
    by {
        assert(m.asked[i] == l.asked[i]);
    }
}

/// Whether a subvolume stands at a path is found out.
proof fn lemma_finding(path: Seq<char>, log: Log, ds: spec_fn(int) -> Disk)
    requires
        follows(finding_subvolume(path), log, ds),
        tells(finding_subvolume(path), log),
    ensures
        ({
            let (l, o) = drive(finding_subvolume(path), log);
            &&& extends(log, l)
            &&& throughout(finding_subvolume(path), log, ds, |e: Disk| e == now(log, ds))
            &&& now(l, ds) == now(log, ds)
            &&& o matches Some(Ok(b)) ==> b == now(log, ds).has_subvolume(path)
        }),
{
    broadcast use group_plan;

    reveal(finding_subvolume);
    let k = |there: bool|
        if there {
            checking_subvolume(path)
        } else {
            ok(false)
        };
    lemma_follows_then(present(path), k, log, ds);
    lemma_present(path, log, ds);
    let (l1, o1) = drive(present(path), log);
    let whole = drive(finding_subvolume(path), log).0;
    if o1 == Some(Ok::<bool, Fault>(true)) {
        lemma_checking(path, l1, ds);
    } else if o1 is Some {
        let q = Ask::Exists(path);
        lemma_follows_bind(ask(q), |a: Answer| ok(flag_in(a)), log, ds);
        lemma_follows_ask(q, log, ds);
        let n = log.asked.len() as int;
        assert(whole == l1);
        assert(l1.asked[n] == q);
        assert(l1.answers[n] is Flag);
    }
}

/// A subvolume is deleted where there is one.
proof fn lemma_deleting_if_there(
    path: Seq<char>,
    msg: Seq<char>,
    log: Log,
    ds: spec_fn(int) -> Disk,
)
    requires
        follows(deleting_if_there(path, msg), log, ds),
        tells(deleting_if_there(path, msg), log),
    ensures
        ({
            let (l, o) = drive(deleting_if_there(path, msg), log);
            let d = now(log, ds);
            let e = now(l, ds);
            &&& extends(log, l)
            &&& throughout(
                deleting_if_there(path, msg),
                log,
                ds,
                |x: Disk| same_beside(d, x, place(path)),
            )
            &&& o matches Some(Ok(_)) ==> if d.has_subvolume(path) {
                deleted(d, place(path), e)
            } else {
                e == d
            }
        }),
{
    broadcast use {group_plan, group_only};

    reveal(deleting_if_there);
    let d = now(log, ds);
    let k = |there: bool|
        if there {
            then(say(Tone::Detail, msg + path), |u: ()| deleting_subvolume(path))
        } else {
            ok(())
        };
    lemma_follows_then(finding_subvolume(path), k, log, ds);
    let (l1, o1) = drive(finding_subvolume(path), log);
    let whole = drive(deleting_if_there(path, msg), log).0;
    lemma_drive_extends(finding_subvolume(path), log);
    lemma_told_earlier(l1, whole);
    lemma_finding(path, log, ds);
    if o1 == Some(Ok::<bool, Fault>(true)) {
        let p2 = say(Tone::Detail, msg + path);
        lemma_follows_then(p2, |u: ()| deleting_subvolume(path), l1, ds);
        lemma_looking(p2, l1, ds);
        let (l2, o2) = drive(p2, l1);
        if o2 is Some {
            lemma_deleting(path, l2, ds);
            assert forall|i: int|
                #![trigger ds(i)]
                l2.asked.len() <= i <= whole.asked.len() implies same_beside(
                d,
                ds(i),
                place(path),
            ) by {
                assert(ds(i) == d || deleted(d, place(path), ds(i)));
            }
        }
    }
}

/// The snapshot of the last run becomes the previous one.
proof fn lemma_keeping(path: Seq<char>, prev: Seq<char>, log: Log, ds: spec_fn(int) -> Disk)
    requires
        follows(keeping_previous(path, prev), log, ds),
        tells(keeping_previous(path, prev), log),
        apart(place(path), place(prev)),
    ensures
        ({
            let (l, o) = drive(keeping_previous(path, prev), log);
            let d = now(log, ds);
            let e = now(l, ds);
            &&& extends(log, l)
            &&& throughout(
                keeping_previous(path, prev),
                log,
                ds,
                |x: Disk| hopped(d, place(path), place(prev), x),
            )
            &&& o matches Some(Ok(parent)) ==> if d.has_subvolume(path) {
                parent == Some(prev) && moved(d, place(path), place(prev), e)
            } else {
                parent is None && e == d
            }
        }),
{
    broadcast use {group_plan, group_only};

    let d = now(log, ds);
    let move_it = |u: ()| then(renaming(path, prev), |u: ()| ok(Some(prev)));
    let msg = say(Tone::Detail, "Preserving previous snapshot for incremental backup"@);
    let k = |there: bool|
        if there {
            then(msg, move_it)
        } else {
            ok(None)
        };
    lemma_follows_then(finding_subvolume(path), k, log, ds);
    let (l1, o1) = drive(finding_subvolume(path), log);
    let whole = drive(keeping_previous(path, prev), log).0;
    lemma_drive_extends(finding_subvolume(path), log);
    lemma_told_earlier(l1, whole);
    lemma_finding(path, log, ds);
    if o1 == Some(Ok::<bool, Fault>(true)) {
        lemma_follows_then(msg, move_it, l1, ds);
        lemma_looking(msg, l1, ds);
        let (l2, o2) = drive(msg, l1);
        if o2 is Some {
            lemma_follows_then(renaming(path, prev), |u: ()| ok(Some(prev)), l2, ds);
            lemma_renaming(path, prev, l2, ds);
        }
    }
}

/// Where the snapshot of a source goes.
pub open spec fn snapshot_path(source: Source, dir: Seq<char>, config: Seq<char>) -> Seq<char> {
    joined_path(dir, Owned { source, config }.base_name())
}

/// Where the snapshot before is kept.
pub open spec fn previous_path(source: Source, dir: Seq<char>, config: Seq<char>) -> Seq<char> {
    joined_path(dir, Owned { source, config }.base_name() + "_prev"@)
}

/// Making a snapshot without snapper: the new snapshot is read-only and has the content of the
/// source. The snapshot of the last run, where there is one, becomes the parent: it is the same
/// subvolume as before, in another place. Without one there is no parent. At no moment is the
/// snapshot of the last run lost.
///
/// Nothing but a subvolume must stand where the snapshot goes.
pub proof fn lemma_creating_manual(
    source: Source,
    source_path: Seq<char>,
    dir: Seq<char>,
    config: Seq<char>,
    log: Log,
    ds: spec_fn(int) -> Disk,
)
    requires
        follows(creating_manual(source, source_path, dir, config), log, ds),
        tells(creating_manual(source, source_path, dir, config), log),
        is_plain(Owned { source, config }.base_name()),
        !within(place(source_path), place(snapshot_path(source, dir, config))),
        !within(place(source_path), place(previous_path(source, dir, config))),
        now(log, ds).on(snapshot_path(source, dir, config)) != Some(Thing::Other),
    ensures
        ({
            let plan = creating_manual(source, source_path, dir, config);
            let (l, o) = drive(plan, log);
            let d = now(log, ds);
            let e = now(l, ds);
            let path = snapshot_path(source, dir, config);
            let prev = previous_path(source, dir, config);
            &&& extends(log, l)
            &&& apart(place(path), place(prev))
            &&& throughout(
                plan,
                log,
                ds,
                |x: Disk|
                    {
                        &&& forall|y: Place|
                            !within(y, place(path)) && !within(y, place(prev)) ==> #[trigger] (
                            x.at)(y) == (d.at)(y)
                        &&& d.has_subvolume(path) ==> x.on(path) == d.on(path) || x.on(prev)
                            == d.on(path)
                    },
            )
            &&& o matches Some(Ok(made)) ==> {
                &&& made.0 == path
                &&& d.has_subvolume(source_path)
                &&& e.on(path) == d.on(source_path)
                &&& e.tag_on(path).read_only
                &&& d.has_subvolume(path) ==> {
                    &&& made.1 == Some(prev)
                    &&& e.on(prev) == d.on(path)
                    &&& e.tag_on(prev) == d.tag_on(path)
                    &&& e.tag_on(path).id != e.tag_on(prev).id
                }
                &&& !d.has_subvolume(path) ==> made.1 is None
                &&& made.1 is None ==> !e.has_subvolume(prev)
            }
        }),
{
    broadcast use {group_plan, group_only};

    reveal(creating_manual);
    let base = Owned { source, config }.base_name();
    let path = snapshot_path(source, dir, config);
    let prev = previous_path(source, dir, config);
    reveal_strlit("_prev");
    lemma_longer_name(base, "_prev"@);
    lemma_join_adds_component(dir, base);
    lemma_join_adds_component(dir, base + "_prev"@);
    lemma_apart_siblings(place(dir), base, base + "_prev"@);
    let plan = creating_manual(source, source_path, dir, config);
    let whole = drive(plan, log).0;
    let d = now(log, ds);
    let (p, v) = (place(path), place(prev));
    let inv = |x: Disk|
        {
            &&& forall|y: Place|
                !within(y, p) && !within(y, v) ==> #[trigger] (x.at)(y) == (d.at)(y)
            &&& d.has_subvolume(path) ==> x.on(path) == d.on(path) || x.on(prev) == d.on(path)
        };
    let last = |parent: Option<Seq<char>>|
        then(
            creating_snapshot(source_path, path),
            |u: ()|
                then(
                    say(Tone::Detail, "Created snapshot at: "@ + path),
                    |u: ()| ok((path, parent)),
                ),
        );
    let p1 = deleting_if_there(prev, "Cleaning up old previous snapshot: "@);
    lemma_follows_then(p1, |u: ()| then(keeping_previous(path, prev), last), log, ds);
    let (l1, o1) = drive(p1, log);
    lemma_drive_extends(p1, log);
    lemma_drive_extends(plan, log);
    lemma_told_earlier(l1, whole);
    lemma_deleting_if_there(prev, "Cleaning up old previous snapshot: "@, log, ds);
    assert forall|i: int| #![trigger ds(i)] log.asked.len() <= i <= l1.asked.len() implies inv(
        ds(i),
    ) by {
        assert(same_beside(d, ds(i), v));
    }
    if o1 matches Some(Ok(_)) {
        let d1 = now(l1, ds);
        assert(d1.on(path) == d.on(path));
        lemma_follows_then(keeping_previous(path, prev), last, l1, ds);
        let (l2, o2) = drive(keeping_previous(path, prev), l1);
        lemma_told_earlier(l2, whole);
        lemma_keeping(path, prev, l1, ds);
        assert forall|i: int| #![trigger ds(i)] l1.asked.len() <= i <= l2.asked.len() implies inv(
            ds(i),
        ) by {
            assert(hopped(d1, p, v, ds(i)));
        }
        if let Some(Ok(parent)) = o2 {
            let d2 = now(l2, ds);
            let tail = |u: ()|
                then(
                    say(Tone::Detail, "Created snapshot at: "@ + path),
                    |u: ()| ok((path, parent)),
                );
            lemma_follows_then(creating_snapshot(source_path, path), tail, l2, ds);
            lemma_snapping(source_path, path, l2, ds);
            let (l3, o3) = drive(creating_snapshot(source_path, path), l2);
            assert forall|i: int|
                #![trigger ds(i)]
                l2.asked.len() <= i <= l3.asked.len() implies inv(ds(i)) by {
                assert(ds(i) == d2 || snapped(d2, place(source_path), p, true, ds(i)));
            }
            if o3 matches Some(Ok(_)) {
                let msg = say(Tone::Detail, "Created snapshot at: "@ + path);
                lemma_follows_then(msg, |u: ()| ok((path, parent)), l3, ds);
                lemma_looking(msg, l3, ds);
            }
        }
    }
    assert(throughout(plan, log, ds, inv));
}

/// One call of a procedure: the log that it finds, and the disk at every moment.
pub struct Round {
    pub log: Log,
    pub ds: spec_fn(int) -> Disk,
}

impl Round {
    /// The disk before the call.
    pub open spec fn before(self) -> Disk {
        now(self.log, self.ds)
    }

    /// The disk after the plan has been followed.
    pub open spec fn after<T>(self, plan: Plan<T>) -> Disk {
        now(drive(plan, self.log).0, self.ds)
    }
}

/// What stands directly in the directory is the same.
pub open spec fn same_inside(dir: Place, d: Disk, e: Disk) -> bool {
    forall|name: Seq<char>|
        #![trigger dir.push(name)]
        (e.at)(dir.push(name)) == (d.at)(dir.push(name)) && (e.tag)(dir.push(name)) == (d.tag)(
            dir.push(name),
        )
}

/// The calls follow one another, with success, and nothing else works in the directory.
pub open spec fn in_succession<T>(plan: Try<T>, dir: Place, calls: Seq<Round>) -> bool {
    forall|k: int|
        0 <= k < calls.len() ==> {
            let c = #[trigger] calls[k];
            &&& follows(plan, c.log, c.ds)
            &&& tells(plan, c.log)
            &&& drive(plan, c.log).1 matches Some(Ok(_))
            &&& k > 0 ==> same_inside(dir, calls[k - 1].after(plan), c.before())
        }
}

/// What the call with the number `k` gives and leaves behind: the snapshot is read-only and has
/// the content of the source, its parent is the very subvolume that the call before it made,
/// and no other subvolume is in the directory.
pub open spec fn rotated(
    source: Source,
    source_path: Seq<char>,
    dir: Seq<char>,
    config: Seq<char>,
    calls: Seq<Round>,
    k: int,
) -> bool {
    let plan = creating_manual(source, source_path, dir, config);
    let base = Owned { source, config }.base_name();
    let path = snapshot_path(source, dir, config);
    let prev = previous_path(source, dir, config);
    let (d, e) = (calls[k].before(), calls[k].after(plan));
    &&& drive(plan, calls[k].log).1 == Some(
        Ok::<(Seq<char>, Option<Seq<char>>), Fault>(
            (
                path,
                if k == 0 {
                    None
                } else {
                    Some(prev)
                },
            ),
        ),
    )
    &&& d.has_subvolume(source_path)
    &&& e.on(path) == d.on(source_path)
    &&& e.tag_on(path).read_only
    &&& k > 0 ==> {
        let b = calls[k - 1].after(plan);
        &&& e.on(prev) == b.on(path)
        &&& e.tag_on(prev) == b.tag_on(path)
        &&& e.tag_on(path).id != e.tag_on(prev).id
    }
    &&& forall|name: Seq<char>|
        ((e.at)(#[trigger] place(dir).push(name)) matches Some(Thing::Subvolume(_))) ==> name
            == base || (k > 0 && name == base + "_prev"@)
}

/// Making snapshots without snapper, again and again, in a directory that was empty: the first
/// has no parent, and every later one has the snapshot of the call before it, which is the same
/// subvolume with the same content. All are read-only. The last snapshot and the one before it
/// are all that is left.
pub proof fn lemma_rotation(
    source: Source,
    source_path: Seq<char>,
    dir: Seq<char>,
    config: Seq<char>,
    calls: Seq<Round>,
    k: int,
)
    requires
        0 <= k < calls.len(),
        in_succession(creating_manual(source, source_path, dir, config), place(dir), calls),
        forall|name: Seq<char>| (calls[0].before().at)(#[trigger] place(dir).push(name)) is None,
        is_plain(Owned { source, config }.base_name()),
        !within(place(source_path), place(snapshot_path(source, dir, config))),
        !within(place(source_path), place(previous_path(source, dir, config))),
    ensures
        rotated(source, source_path, dir, config, calls, k),
    decreases k,
{
    let plan = creating_manual(source, source_path, dir, config);
    let base = Owned { source, config }.base_name();
    let path = snapshot_path(source, dir, config);
    let prev = previous_path(source, dir, config);
    let inside = place(dir);
    let c = calls[k];
    let (d, e) = (c.before(), c.after(plan));
    reveal_strlit("_prev");
    lemma_longer_name(base, "_prev"@);
    lemma_join_adds_component(dir, base);
    lemma_join_adds_component(dir, base + "_prev"@);
    if k > 0 {
        lemma_rotation(source, source_path, dir, config, calls, k - 1);
        let b = calls[k - 1].after(plan);
        assert(same_inside(inside, b, d));
        assert((d.at)(inside.push(base)) == (b.at)(inside.push(base)));
        assert(calls[k - 1].before().has_subvolume(source_path));
        assert(b.has_subvolume(path));
    } else {
        assert((d.at)(inside.push(base)) is None);
    }
    lemma_creating_manual(source, source_path, dir, config, c.log, c.ds);
    assert forall|name: Seq<char>|
        ((e.at)(#[trigger] inside.push(name)) matches Some(Thing::Subvolume(_))) implies name
        == base || (k > 0 && name == base + "_prev"@) by {
        if name != base && name != base + "_prev"@ {
            lemma_apart_siblings(inside, name, base);
            lemma_apart_siblings(inside, name, base + "_prev"@);
            assert((e.at)(inside.push(name)) == (d.at)(inside.push(name)));
        }
    }
}

/// Where the local snapshots of a source are.
pub open spec fn local_dir(source: Source) -> Seq<char> {
    joined_path(source.path, source.snapshot_dir)
}

/// `p` is at or below one of the places that a transfer to `dir` touches.
pub open spec fn touched(dir: Place, name: Seq<char>, base: Seq<char>, p: Place) -> bool {
    ||| within(p, dir.push(name))
    ||| within(p, dir.push(base))
    ||| within(p, dir.push(name + "."@ + "old"@))
    ||| within(p, dir.push(base + ".conflict"@))
}

/// The name under which a source is received.
pub open spec fn received_name(source: Source, config: Seq<char>) -> Seq<char> {
    if source.use_snapper {
        "snapshot"@
    } else {
        Owned { source, config }.base_name()
    }
}

/// A source whose backup does not get into its own way. Without snapper, the local snapshots
/// have plain names that do not collide with the one on the target, and neither they nor the
/// source lie where the transfer works. With snapper, its directory lies apart from the target,
/// and the source is not in it.
pub open spec fn arranged(
    source: Source,
    target: Target,
    mount: Seq<char>,
    config: Seq<char>,
) -> bool {
    let base = Owned { source, config }.base_name();
    let name = subvolume_name(source.path);
    let dir = place(snapshots_dir(target, mount));
    let path = snapshot_path(source, local_dir(source), config);
    let prev = previous_path(source, local_dir(source), config);
    if source.use_snapper {
        &&& apart(place(local_dir(source)), dir)
        &&& !within(place(source.path), place(local_dir(source)))
    } else {
        &&& is_plain(base)
        &&& base != ".."@
        &&& distinct_names(name, base, "old"@)
        &&& !touched(dir, name, base, place(path))
        &&& !touched(dir, name, base, place(prev))
        &&& !within(dir.push(name), place(path))
        &&& !within(dir.push(name), place(prev))
        &&& !within(place(source.path), place(path))
        &&& !within(place(source.path), place(prev))
    }
}

/// A place that the backup of a source leaves alone.
pub open spec fn elsewhere(
    source: Source,
    target: Target,
    mount: Seq<char>,
    config: Seq<char>,
    x: Place,
) -> bool {
    &&& if source.use_snapper {
        !within(x, place(local_dir(source)))
    } else {
        &&& !within(x, place(snapshot_path(source, local_dir(source), config)))
        &&& !within(x, place(previous_path(source, local_dir(source), config)))
    }
    &&& !touched(
        place(snapshots_dir(target, mount)),
        subvolume_name(source.path),
        received_name(source, config),
        x,
    )
}

/// Elsewhere everything is as it was, but that directories may have been created.
pub open spec fn left_alone(
    source: Source,
    target: Target,
    mount: Seq<char>,
    config: Seq<char>,
    d: Disk,
    e: Disk,
) -> bool {
    forall|x: Place|
        #![trigger (e.at)(x)]
        elsewhere(source, target, mount, config, x) ==> {
            &&& (d.at)(x) is Some ==> (e.at)(x) == (d.at)(x)
            &&& (d.at)(x) is None ==> !((e.at)(x) matches Some(Thing::Subvolume(_)))
            &&& (d.at)(x) is None && !within(place(local_dir(source)), x) && !within(
                place(snapshots_dir(target, mount)),
                x,
            ) ==> (e.at)(x) is None
        }
}

/// Backing up a source without snapper: where the procedure succeeds, the target holds the
/// content of the source. The local snapshot holds it too, as the parent for the next run, and
/// the snapshot before it is gone. What stands elsewhere stays as it is.
///
/// Nothing but a subvolume must stand where the local snapshot goes.
pub proof fn lemma_backing_up(
    source: Source,
    target: Target,
    mount: Seq<char>,
    config: Seq<char>,
    log: Log,
    ds: spec_fn(int) -> Disk,
)
    requires
        follows(backing_up(source, target, mount, config), log, ds),
        tells(backing_up(source, target, mount, config), log),
        !source.use_snapper,
        arranged(source, target, mount, config),
        now(log, ds).on(snapshot_path(source, local_dir(source), config)) != Some(Thing::Other),
    ensures
        ({
            let (l, o) = drive(backing_up(source, target, mount, config), log);
            let d = now(log, ds);
            let e = now(l, ds);
            let dir = place(snapshots_dir(target, mount));
            o matches Some(Ok(_)) ==> {
                &&& d.has_subvolume(source.path)
                &&& (e.at)(dir.push(subvolume_name(source.path))) == d.on(source.path)
                &&& e.on(snapshot_path(source, local_dir(source), config)) == d.on(source.path)
                &&& !e.has_subvolume(previous_path(source, local_dir(source), config))
                &&& left_alone(source, target, mount, config, d, e)
            }
        }),
{
    broadcast use {group_plan, group_only};

    reveal(backing_up);
    let plan = backing_up(source, target, mount, config);
    let whole = drive(plan, log).0;
    let w = Owned { source, config };
    let d = now(log, ds);
    let path = snapshot_path(source, local_dir(source), config);
    let prev = previous_path(source, local_dir(source), config);
    let p1 = say(Tone::Substep, "Creating local snapshot"@);
    let rest2 = |made: (Seq<char>, Option<Seq<char>>)|
        then(
            say(Tone::Substep, "Sending snapshot to target ("@ + mode_text(made.1) + ")"@),
            |u: ()|
                then(
                    sending(source, target, made.0, made.1, mount),
                    |stats: TransferStats|
                        then(
                            say(Tone::Substep, "Cleaning up old snapshots"@),
                            |u: ()| then(cleaning(w, made.1), |u: ()| ok(stats)),
                        ),
                ),
        );
    lemma_drive_extends(plan, log);
    lemma_follows_then(p1, |u: ()| then(creating_local(w), rest2), log, ds);
    lemma_looking(p1, log, ds);
    let (l1, o1) = drive(p1, log);
    if o1 is Some {
        lemma_follows_then(creating_local(w), rest2, l1, ds);
        let (l2, o2) = drive(creating_local(w), l1);
        lemma_told_earlier(l2, whole);
        lemma_creating_local(source, config, l1, ds);
        if let Some(Ok(made)) = o2 {
            let d2 = now(l2, ds);
            let p3 = say(
                Tone::Substep,
                "Sending snapshot to target ("@ + mode_text(made.1) + ")"@,
            );
            let send = sending(source, target, made.0, made.1, mount);
            let finish = |stats: TransferStats|
                then(
                    say(Tone::Substep, "Cleaning up old snapshots"@),
                    |u: ()| then(cleaning(w, made.1), |u: ()| ok(stats)),
                );
            lemma_follows_then(p3, |u: ()| then(send, finish), l2, ds);
            lemma_looking(p3, l2, ds);
            let (l3, o3) = drive(p3, l2);
            if o3 is Some {
                lemma_follows_then(send, finish, l3, ds);
                lemma_joined_name(local_dir(source), w.base_name());
                lemma_sending(source, target, mount, path, w.base_name(), made.1, l3, ds);
                let (l4, o4) = drive(send, l3);
                if let Some(Ok(stats)) = o4 {
                    let d4 = now(l4, ds);
                    let p5 = say(Tone::Substep, "Cleaning up old snapshots"@);
                    let clean = |u: ()| then(cleaning(w, made.1), |u: ()| ok(stats));
                    lemma_follows_then(p5, clean, l4, ds);
                    lemma_looking(p5, l4, ds);
                    let (l5, o5) = drive(p5, l4);
                    if o5 is Some {
                        lemma_follows_then(cleaning(w, made.1), |u: ()| ok(stats), l5, ds);
                        let (l6, o6) = drive(cleaning(w, made.1), l5);
                        lemma_told_earlier(l6, whole);
                        reveal(cleaning);
                        if let Some(p) = made.1 {
                            lemma_deleting_if_there(
                                p,
                                "Deleting old local snapshot: "@,
                                l5,
                                ds,
                            );
                        }
                    }
                }
            }
        }
    }
}

/// Creating a local snapshot without snapper.
pub(crate) proof fn lemma_creating_local(
    source: Source,
    config: Seq<char>,
    log: Log,
    ds: spec_fn(int) -> Disk,
)
    requires
        follows(creating_local(Owned { source, config }), log, ds),
        tells(creating_local(Owned { source, config }), log),
        !source.use_snapper,
        is_plain(Owned { source, config }.base_name()),
        !within(
            place(source.path),
            place(snapshot_path(source, local_dir(source), config)),
        ),
        !within(
            place(source.path),
            place(previous_path(source, local_dir(source), config)),
        ),
        now(log, ds).on(snapshot_path(source, local_dir(source), config)) != Some(Thing::Other),
    ensures
        ({
            let (l, o) = drive(creating_local(Owned { source, config }), log);
            let d = now(log, ds);
            let e = now(l, ds);
            let path = snapshot_path(source, local_dir(source), config);
            let prev = previous_path(source, local_dir(source), config);
            &&& extends(log, l)
            &&& apart(place(path), place(prev))
            &&& o matches Some(Ok(made)) ==> {
                &&& made.0 == path
                &&& made.1 == if d.has_subvolume(path) {
                    Some(prev)
                } else {
                    None
                }
                &&& d.has_subvolume(source.path)
                &&& e.on(path) == d.on(source.path)
                &&& made.1 is None ==> !e.has_subvolume(prev)
                &&& forall|x: Place|
                    #![trigger (e.at)(x)]
                    !within(x, place(path)) && !within(x, place(prev)) ==> {
                        &&& (d.at)(x) is Some ==> (e.at)(x) == (d.at)(x)
                        &&& (d.at)(x) is None ==> !((e.at)(x) matches Some(Thing::Subvolume(_)))
                        &&& (d.at)(x) is None && !within(place(local_dir(source)), x) ==> (e.at)(
                            x,
                        ) is None
                    }
            }
        }),
{
    broadcast use {group_plan, group_only};

    reveal(creating_local);
    let w = Owned { source, config };
    let dir = local_dir(source);
    let plan = creating_local(w);
    let whole = drive(plan, log).0;
    let d = now(log, ds);
    let base = w.base_name();
    reveal_strlit("_prev");
    lemma_longer_name(base, "_prev"@);
    lemma_join_adds_component(dir, base);
    lemma_join_adds_component(dir, base + "_prev"@);
    lemma_apart_siblings(place(dir), base, base + "_prev"@);
    let make = |u: ()|
        if w.source.use_snapper {
            creating_with_parent(w, dir)
        } else {
            creating_manual(w.source, w.source.path, dir, w.config)
        };
    let k = |there: bool|
        if !there {
            fail(
                Fault::Btrfs(
                    "Source path is not a btrfs subvolume: "@ + quoted_path(w.source.path),
                ),
            )
        } else {
            then(ensuring_dir(dir), make)
        };
    lemma_drive_extends(plan, log);
    lemma_follows_then(checking_subvolume(source.path), k, log, ds);
    lemma_checking(source.path, log, ds);
    let (l1, o1) = drive(checking_subvolume(source.path), log);
    if o1 == Some(Ok::<bool, Fault>(true)) {
        lemma_follows_then(ensuring_dir(dir), make, l1, ds);
        lemma_ensuring_dir(dir, l1, ds);
        let (l2, o2) = drive(ensuring_dir(dir), l1);
        if o2 matches Some(Ok(_)) {
            let m = now(l2, ds);
            assert(m == d || grown(d, place(dir), m));
            assert(!within(place(dir), place(dir).push(base)));
            assert(m.on(snapshot_path(source, dir, config)) == d.on(
                snapshot_path(source, dir, config),
            ));
            assert(m.on(source.path) == d.on(source.path));
            lemma_creating_manual(source, source.path, dir, config, l2, ds);
        }
    }
}

/// What stands beside the places that a transfer touches is as it was, but that directories
/// may have been created.
pub open spec fn untouched(dir: Place, name: Seq<char>, base: Seq<char>, d: Disk, e: Disk) -> bool {
    forall|x: Place|
        #![trigger (e.at)(x)]
        !touched(dir, name, base, x) ==> {
            &&& (d.at)(x) is Some ==> (e.at)(x) == (d.at)(x)
            &&& (d.at)(x) is None ==> !((e.at)(x) matches Some(Thing::Subvolume(_)))
            &&& (d.at)(x) is None && !within(dir, x) ==> (e.at)(x) is None
        }
}

/// Sending a snapshot: where it succeeds, its content stands on the target.
pub(crate) proof fn lemma_sending(
    source: Source,
    target: Target,
    mount: Seq<char>,
    path: Seq<char>,
    base: Seq<char>,
    parent: Option<Seq<char>>,
    log: Log,
    ds: spec_fn(int) -> Disk,
)
    requires
        follows(sending(source, target, path, parent, mount), log, ds),
        naming(path) == Ok::<Seq<char>, Fault>(base),
        distinct_names(subvolume_name(source.path), base, "old"@),
        !touched(
            place(snapshots_dir(target, mount)),
            subvolume_name(source.path),
            base,
            place(path),
        ),
        now(log, ds).has_subvolume(path),
    ensures
        ({
            let (l, o) = drive(sending(source, target, path, parent, mount), log);
            let d = now(log, ds);
            let e = now(l, ds);
            let dir = place(snapshots_dir(target, mount));
            let name = subvolume_name(source.path);
            &&& extends(log, l)
            &&& o matches Some(Ok(_)) ==> (e.at)(dir.push(name)) == d.on(path) && untouched(
                dir,
                name,
                base,
                d,
                e,
            )
        }),
{
    broadcast use {group_plan, group_only};

    reveal(sending);
    let dest = snapshots_dir(target, mount);
    let name = subvolume_name(source.path);
    let plan = sending(source, target, path, parent, mount);
    lemma_drive_extends(plan, log);
    let d = now(log, ds);
    let send = replacing_by_send(path, parent, dest, "old"@, Some(name));
    let tail = |stats: TransferStats|
        then(
            say(Tone::Detail, "Sent snapshot to: "@ + dest + "/"@ + name),
            |u: ()| ok(stats),
        );
    lemma_follows_then(ensuring_dir(dest), |u: ()| then(send, tail), log, ds);
    lemma_ensuring_dir(dest, log, ds);
    let (l1, o1) = drive(ensuring_dir(dest), log);
    if o1 matches Some(Ok(_)) {
        let m = now(l1, ds);
        assert(m == d || grown(d, place(dest), m));
        assert(m.on(path) == d.on(path));
        lemma_follows_then(send, tail, l1, ds);
        lemma_replacing_by_send(path, parent, dest, "old"@, Some(name), name, base, l1, ds);
        let (l2, o2) = drive(send, l1);
        if let Some(Ok(stats)) = o2 {
            let e = now(l2, ds);
            assert(lossless(m, m.on(path), dest, name, base, "old"@, e));
            let msg = say(Tone::Detail, "Sent snapshot to: "@ + dest + "/"@ + name);
            lemma_follows_then(msg, |u: ()| ok(stats), l2, ds);
            lemma_looking(msg, l2, ds);
        }
    }
}

/// Sources that do not get into each other's way: no backup of one touches another source, its
/// local snapshot, or where it stands on the target.
pub open spec fn all_arranged(c: Setup, mount: Seq<char>) -> bool {
    let dir = place(snapshots_dir(c.target, mount));
    &&& forall|i: int|
        0 <= i < c.sources.len() ==> arranged(#[trigger] c.sources[i], c.target, mount, c.name)
    &&& forall|i: int, j: int|
        0 <= i < c.sources.len() && 0 <= j < c.sources.len() && i != j ==> {
            let (a, b) = (#[trigger] c.sources[i], #[trigger] c.sources[j]);
            let path = place(snapshot_path(a, local_dir(a), c.name));
            &&& elsewhere(b, c.target, mount, c.name, dir.push(subvolume_name(a.path)))
            &&& elsewhere(b, c.target, mount, c.name, place(a.path))
            &&& !a.use_snapper ==> {
                &&& elsewhere(b, c.target, mount, c.name, path)
                &&& !within(place(local_dir(b)), path)
                &&& !within(dir, path)
            }
        }
}

/// Snapper does what the backups of the sources count on.
pub open spec fn all_obedient(c: Setup, log: Log, ds: spec_fn(int) -> Disk) -> bool {
    forall|i: int|
        0 <= i < c.sources.len() && c.sources[i].use_snapper ==> obedient(
            Owned { source: #[trigger] c.sources[i], config: c.name },
            log,
            ds,
        )
}

proof fn lemma_all_obedient_earlier(c: Setup, l: Log, m: Log, ds: spec_fn(int) -> Disk)
    requires
        extends(l, m),
        all_obedient(c, m, ds),
    ensures
        all_obedient(c, l, ds),
{
    assert forall|i: int| 0 <= i < c.sources.len() && c.sources[i].use_snapper implies obedient(
        Owned { source: #[trigger] c.sources[i], config: c.name },
        l,
        ds,
    ) by {
        lemma_obedient_earlier(Owned { source: c.sources[i], config: c.name }, l, m, ds);
    }
}

/// The sources from `i` on are subvolumes, or at least were, as on the disk `d`, and nothing
/// but a subvolume stands where their snapshots go.
pub open spec fn waiting(c: Setup, i: int, d: Disk, e: Disk) -> bool {
    forall|j: int|
        i <= j < c.sources.len() ==> {
            let s = #[trigger] c.sources[j];
            &&& d.has_subvolume(s.path) ==> e.on(s.path) == d.on(s.path)
            &&& !d.has_subvolume(s.path) ==> !e.has_subvolume(s.path)
            &&& !s.use_snapper ==> e.on(snapshot_path(s, local_dir(s), c.name)) != Some(
                Thing::Other,
            )
        }
}

/// The sources before `i` stand on the target.
pub open spec fn stored(c: Setup, mount: Seq<char>, i: int, d: Disk, e: Disk) -> bool {
    forall|j: int|
        0 <= j < i ==> {
            let s = #[trigger] c.sources[j];
            let place = place(snapshots_dir(c.target, mount)).push(subvolume_name(s.path));
            d.has_subvolume(s.path) && (e.at)(place) == d.on(s.path)
        }
}

/// Every outcome is a success.
pub open spec fn all_succeeded(outcomes: Seq<Outcome>) -> bool {
    forall|i: int| 0 <= i < outcomes.len() ==> (#[trigger] outcomes[i]).result is Ok
}

/// The turn of a source, where it succeeds, adds it to what is stored and spoils nothing.
proof fn lemma_storing_one(
    c: Setup,
    mount: Seq<char>,
    i: int,
    d: Disk,
    log: Log,
    ds: spec_fn(int) -> Disk,
)
    requires
        follows(backing_up_one(c, mount, i), log, ds),
        tells(backing_up_one(c, mount, i), log),
        all_obedient(c, drive(backing_up_one(c, mount, i), log).0, ds),
        0 <= i < c.sources.len(),
        all_arranged(c, mount),
        waiting(c, i, d, now(log, ds)),
        stored(c, mount, i, d, now(log, ds)),
    ensures
        ({
            let (l, o) = drive(backing_up_one(c, mount, i), log);
            &&& extends(log, l)
            &&& o matches Some(Ok(out)) ==> out.result is Ok ==> waiting(
                c,
                i + 1,
                d,
                now(l, ds),
            ) && stored(c, mount, i + 1, d, now(l, ds))
        }),
{
    broadcast use {group_plan, group_only};

    reveal(backing_up_one);
    let source = c.sources[i];
    let one = backing_up_one(c, mount, i);
    let whole = drive(one, log).0;
    lemma_drive_extends(one, log);
    let p1 = say(
        Tone::Step,
        step_text((i + 2) as nat, steps_of(c), "Backing up "@ + source.path),
    );
    let tell = |r: Result<TransferStats, Fault>|
        then(
            say(ending_line(source.path, r).0, ending_line(source.path, r).1),
            |u: ()| ok(Outcome { path: source.path, result: r }),
        );
    let work = backing_up(source, c.target, mount, c.name);
    lemma_follows_then(p1, |u: ()| bind(work, tell), log, ds);
    lemma_looking(p1, log, ds);
    let (l1, o1) = drive(p1, log);
    if o1 is Some {
        lemma_follows_bind(work, tell, l1, ds);
        let (l2, o2) = drive(work, l1);
        if let Some(r) = o2 {
            lemma_told_earlier(l2, whole);
            if source.use_snapper {
                lemma_all_obedient_earlier(c, l2, whole, ds);
                lemma_backing_up_by_snapper(source, c.target, mount, c.name, l1, ds);
            } else {
                lemma_backing_up(source, c.target, mount, c.name, l1, ds);
            }
            let msg = say(ending_line(source.path, r).0, ending_line(source.path, r).1);
            let out = Outcome { path: source.path, result: r };
            lemma_follows_then(msg, |u: ()| ok(out), l2, ds);
            lemma_looking(msg, l2, ds);
            if r is Ok {
                lemma_spoils_nothing(c, mount, i, d, now(l1, ds), now(l2, ds));
            }
        }
    }
}

/// The backup of one source spoils nothing of what the others need or have stored.
proof fn lemma_spoils_nothing(c: Setup, mount: Seq<char>, i: int, d: Disk, m: Disk, e: Disk)
    requires
        0 <= i < c.sources.len(),
        all_arranged(c, mount),
        waiting(c, i, d, m),
        stored(c, mount, i, d, m),
        left_alone(c.sources[i], c.target, mount, c.name, m, e),
        m.has_subvolume(c.sources[i].path),
        (e.at)(
            place(snapshots_dir(c.target, mount)).push(subvolume_name(c.sources[i].path)),
        ) == m.on(c.sources[i].path),
    ensures
        waiting(c, i + 1, d, e),
        stored(c, mount, i + 1, d, e),
{
    let source = c.sources[i];
    let dir = place(snapshots_dir(c.target, mount));
    assert forall|j: int| i + 1 <= j < c.sources.len() implies {
        let s = #[trigger] c.sources[j];
        &&& d.has_subvolume(s.path) ==> e.on(s.path) == d.on(s.path)
        &&& !d.has_subvolume(s.path) ==> !e.has_subvolume(s.path)
        &&& !s.use_snapper ==> e.on(snapshot_path(s, local_dir(s), c.name)) != Some(Thing::Other)
    } by {
        let s = c.sources[j];
        assert(elsewhere(source, c.target, mount, c.name, place(s.path)));
        let path = place(snapshot_path(s, local_dir(s), c.name));
        if !s.use_snapper {
            assert(elsewhere(source, c.target, mount, c.name, path));
            assert((e.at)(path) == (m.at)(path));
        }
    }
    assert forall|j: int| 0 <= j < i + 1 implies {
        let s = #[trigger] c.sources[j];
        let place = place(snapshots_dir(c.target, mount)).push(subvolume_name(s.path));
        d.has_subvolume(s.path) && (e.at)(place) == d.on(s.path)
    } by {
        let s = c.sources[j];
        if j < i {
            let x = dir.push(subvolume_name(s.path));
            assert(elsewhere(source, c.target, mount, c.name, x));
            assert((m.at)(x) is Some);
            assert((e.at)(x) == (m.at)(x));
        }
    }
}

proof fn lemma_storing(
    c: Setup,
    mount: Seq<char>,
    i: int,
    done: Seq<Outcome>,
    d: Disk,
    log: Log,
    ds: spec_fn(int) -> Disk,
)
    requires
        follows(backing_up_each(c, mount, i, done), log, ds),
        tells(backing_up_each(c, mount, i, done), log),
        all_obedient(c, drive(backing_up_each(c, mount, i, done), log).0, ds),
        0 <= i <= c.sources.len(),
        all_arranged(c, mount),
        waiting(c, i, d, now(log, ds)),
        stored(c, mount, i, d, now(log, ds)),
    ensures
        ({
            let (l, o) = drive(backing_up_each(c, mount, i, done), log);
            o matches Some(Ok(all)) ==> all_succeeded(all) ==> stored(
                c,
                mount,
                c.sources.len() as int,
                d,
                now(l, ds),
            )
        }),
    decreases c.sources.len() - i,
{
    broadcast use group_plan;

    let plan = backing_up_each(c, mount, i, done);
    let whole = drive(plan, log).0;
    lemma_drive_extends(plan, log);
    if i < c.sources.len() {
        let one = backing_up_one(c, mount, i);
        let next = |o: Outcome| backing_up_each(c, mount, i + 1, done.push(o));
        lemma_follows_then(one, next, log, ds);
        let (l1, o1) = drive(one, log);
        if let Some(Ok(out)) = o1 {
            lemma_told_earlier(l1, whole);
            lemma_all_obedient_earlier(c, l1, whole, ds);
            lemma_storing_one(c, mount, i, d, log, ds);
            let more = done.push(out);
            if out.result is Ok {
                lemma_storing(c, mount, i + 1, more, d, l1, ds);
            } else {
                lemma_turns(c, mount, i + 1, more, l1);
                if let Some(Ok(all)) = drive(plan, log).1 {
                    assert(more.is_prefix_of(all));
                    assert(more[done.len() as int] == out);
                    assert(all[done.len() as int] == more[done.len() as int]);
                }
            }
        }
    }
}

/// What comes after the sources changes nothing in the directory with the snapshots.
proof fn lemma_rest_spares(c: Setup, mount: Seq<char>, outcomes: Seq<Outcome>, dir: Place)
    requires
        c.target.enable_live_boot ==> live_apart(c, mount, dir),
    ensures
        spares(
            then(
                updating_after(c, mount, outcomes),
                |live: Option<Fault>|
                    then(
                        say(
                            Tone::Step,
                            step_text(last_step(c, outcomes), steps_of(c), "Summary"@),
                        ),
                        |u: ()|
                            then(
                                summing_up(outcomes),
                                |u: ()|
                                    then(
                                        say(Tone::SectionEnd, Seq::empty()),
                                        |u: ()| Plan::Done(conclusion(outcomes, live)),
                                    ),
                            ),
                    ),
            ),
            dir,
            any::<Result<(), Fault>>(),
        ),
{
    broadcast use group_only;

    let end = |live: Option<Fault>|
        then(
            say(Tone::Step, step_text(last_step(c, outcomes), steps_of(c), "Summary"@)),
            |u: ()|
                then(
                    summing_up(outcomes),
                    |u: ()|
                        then(
                            say(Tone::SectionEnd, Seq::empty()),
                            |u: ()| Plan::Done(conclusion(outcomes, live)),
                        ),
                ),
        );
    lemma_summing_looks(outcomes);
    assert forall|live: Option<Fault>| any::<Option<Fault>>()(live) implies spares(
        #[trigger] end(live),
        dir,
        any::<Result<(), Fault>>(),
    ) by {
        lemma_looking_spares(end(live), dir);
    }
    reveal(updating_after);
    let plan = updating_after(c, mount, outcomes);
    if c.target.enable_live_boot && complaints(outcomes).len() == 0 {
        let first = say(
            Tone::Step,
            step_text(c.sources.len() + 2, steps_of(c), "Updating live boot environment"@),
        );
        let judge = |r: Result<(), Fault>|
            match r {
                Ok(_) => then(
                    say(Tone::Success, "Live boot environment updated"@),
                    |u: ()| ok(None),
                ),
                Err(e) => then(
                    say(
                        Tone::Error,
                        "Failed to update live boot environment: "@ + fault_text(e),
                    ),
                    |u: ()| ok(Some(e)),
                ),
            };
        lemma_spares_live(c, mount, dir);
        assert forall|r: Result<(), Fault>| any::<Result<(), Fault>>()(r) implies spares(
            #[trigger] judge(r),
            dir,
            any::<Result<Option<Fault>, Fault>>(),
        ) by {
            lemma_looking_spares(judge(r), dir);
        }
        lemma_spares_bind(
            updating_live(c, mount),
            judge,
            dir,
            any::<Result<(), Fault>>(),
            any::<Result<Option<Fault>, Fault>>(),
        );
        lemma_looking_spares(first, dir);
        lemma_spares_weaker(
            first,
            dir,
            any::<Result<(), Fault>>(),
            succeeding(any::<()>()),
        );
        lemma_spares_then(
            first,
            |u: ()| bind(updating_live(c, mount), judge),
            dir,
            any::<()>(),
            any::<Result<Option<Fault>, Fault>>(),
        );
    } else {
        lemma_looking_spares(plan, dir);
    }
    lemma_spares_weaker(
        plan,
        dir,
        any::<Result<Option<Fault>, Fault>>(),
        succeeding(any::<Option<Fault>>()),
    );
    lemma_spares_then(
        plan,
        end,
        dir,
        any::<Option<Fault>>(),
        any::<Result<(), Fault>>(),
    );
}

/// Where a backup succeeds, every source stands on the target with the content that it had in
/// the beginning.
///
/// The sources must not get into each other's way, and nothing but a subvolume must stand
/// where a local snapshot goes. Snapper must do what it is asked for. A live boot environment
/// must be kept apart from the snapshots.
pub proof fn lemma_backup_stores_every_source(
    c: Setup,
    mount: Seq<char>,
    log: Log,
    ds: spec_fn(int) -> Disk,
)
    requires
        follows(backing_up_all(c, mount), log, ds),
        tells(backing_up_all(c, mount), log),
        all_obedient(c, drive(backing_up_all(c, mount), log).0, ds),
        all_arranged(c, mount),
        c.target.enable_live_boot ==> {
            let dir = place(snapshots_dir(c.target, mount));
            live_apart(c, mount, dir) && believed(drive(backing_up_all(c, mount), log).0, dir)
        },
        forall|i: int|
            0 <= i < c.sources.len() && !c.sources[i].use_snapper ==> now(log, ds).on(
                snapshot_path(#[trigger] c.sources[i], local_dir(c.sources[i]), c.name),
            ) != Some(Thing::Other),
        drive(backing_up_all(c, mount), log).1 == Some(Ok::<(), Fault>(())),
    ensures
        stored(
            c,
            mount,
            c.sources.len() as int,
            now(log, ds),
            now(drive(backing_up_all(c, mount), log).0, ds),
        ),
{
    broadcast use {group_plan, group_only};

    reveal(backing_up_all);
    let plan = backing_up_all(c, mount);
    let whole = drive(plan, log).0;
    let d = now(log, ds);
    let dir = place(snapshots_dir(c.target, mount));
    let p1 = backing_up_each(c, mount, 0, Seq::empty());
    let rest = |outcomes: Seq<Outcome>|
        then(
            updating_after(c, mount, outcomes),
            |live: Option<Fault>|
                then(
                    say(
                        Tone::Step,
                        step_text(last_step(c, outcomes), steps_of(c), "Summary"@),
                    ),
                    |u: ()|
                        then(
                            summing_up(outcomes),
                            |u: ()|
                                then(
                                    say(Tone::SectionEnd, Seq::empty()),
                                    |u: ()| Plan::Done(conclusion(outcomes, live)),
                                ),
                        ),
                ),
        );
    lemma_follows_then(p1, rest, log, ds);
    let (l1, o1) = drive(p1, log);
    lemma_drive_extends(p1, log);
    if let Some(Ok(outcomes)) = o1 {
        lemma_told_earlier(l1, whole);
        lemma_all_obedient_earlier(c, l1, whole, ds);
        lemma_storing(c, mount, 0, Seq::empty(), d, log, ds);
        if let Some(Ok(live)) = drive(updating_after(c, mount, outcomes), l1).1 {
            lemma_conclusion(outcomes, live);
        }
        let m = now(l1, ds);
        let e = now(whole, ds);
        if c.target.enable_live_boot {
            lemma_rest_spares(c, mount, outcomes, dir);
            lemma_spares(rest(outcomes), dir, any::<Result<(), Fault>>(), l1, ds);
            assert forall|j: int| 0 <= j < c.sources.len() implies {
                let s = #[trigger] c.sources[j];
                let place = dir.push(subvolume_name(s.path));
                d.has_subvolume(s.path) && (e.at)(place) == d.on(s.path)
            } by {
                let x = dir.push(subvolume_name(c.sources[j].path));
                assert(within(x, dir)) by {
                    assert(x.take(dir.len() as int) =~= dir);
                }
                assert((m.at)(x) is Some);
            }
        } else {
            reveal(updating_after);
            lemma_summing_looks(outcomes);
            lemma_looking(rest(outcomes), l1, ds);
        }
    }
}

proof fn lemma_summing_looks(outcomes: Seq<Outcome>)
    ensures
        only(summing_up(outcomes), looking()),
{
    broadcast use group_only;

    reveal(summing_up);
    lemma_telling_looks(outcomes, 0);
}

proof fn lemma_telling_looks(outcomes: Seq<Outcome>, i: int)
    ensures
        only(telling_outcomes(outcomes, i), looking()),
    decreases outcomes.len() - i,
{
    broadcast use group_only;

    if 0 <= i < outcomes.len() {
        lemma_telling_looks(outcomes, i + 1);
    }
}

}
