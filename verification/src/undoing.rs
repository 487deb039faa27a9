//! What a transfer that failed leaves behind.

use crate::btrfs::{
    checking_subvolume, ensuring_dir, judging_transfer, making_room, naming, receiving_as, renaming,
    replacing_by_send, restoring, sent_in, settling, show_call, swap_places, swapping,
    transfer_command_text, transferring, Swap,
};
use crate::command_runner::{complaining, ignoring, querying};
use crate::delivery::{
    distinct_names, lemma_ensuring_dir, lemma_making_room, lemma_well_placed, same_beside_swap,
    well_placed,
};
use crate::disk::{
    apart, arrived, follows, grown, lemma_checking, lemma_follows_ask, lemma_follows_bind,
    lemma_follows_then, lemma_looking, lemma_looking_complaining, lemma_perform_rename,
    lemma_renaming, looking, moved, now, place, received, same_beside, within, Disk, Thing,
};
use crate::error::Fault;
#[allow(unused_imports)]
use crate::journal::{
    ask, bind, drive, fail, group_plan, ok, perform, present, run, say, then, Answer, Ask, Call,
    Log, Tone, TransferStats,
};
use crate::path::{file_name_of, is_plain, joined_path, lemma_name_is_plain};
use crate::trace::{extends, group_only, lemma_drive_extends, only};
use crate::ui::command_text;
use vstd::prelude::*;

verus! {

/// From the request with the number `from` on, everything works but the transfer: what has to
/// be moved is moved, a directory that has to be made is made, and programs can be run.
pub open spec fn only_transfers_fail(log: Log, from: int) -> bool {
    forall|i: int|
        #![trigger log.asked[i]]
        from <= i < log.asked.len() ==> match log.asked[i] {
            Ask::Rename { .. } | Ask::CreateDirAll(_) => log.answers[i] is Done,
            Ask::Run(_) => log.answers[i] is Ran,
            Ask::Transfer { .. } => !arrived(log.answers[i]),
            _ => true,
        }
}

/// What holds of a part of a log.
proof fn lemma_part(l: Log, m: Log, from: int, later: int)
    requires
        extends(l, m),
        only_transfers_fail(m, from),
        0 <= from <= later,
    ensures
        only_transfers_fail(l, later),
{
    assert forall|i: int| later <= i < l.asked.len() implies match #[trigger] l.asked[i] {
        Ask::Rename { .. } | Ask::CreateDirAll(_) => l.answers[i] is Done,
        Ask::Run(_) => l.answers[i] is Ran,
        Ask::Transfer { .. } => !arrived(l.answers[i]),
        _ => true,
    } by {
        assert(m.asked[i] == l.asked[i]);
    }
}

/// Programs can be run.
proof fn lemma_run_works(c: Call, log: Log)
    requires
        log.asked.len() <= log.answers.len(),
        only_transfers_fail(drive(run(c), log).0, log.asked.len() as int),
    ensures
        drive(run(c), log).1 matches Some(r) ==> r is Ok,
{
    broadcast use group_plan;

    let n = log.asked.len() as int;
    let l = drive(run(c), log).0;
    if n < log.answers.len() {
        assert(l.asked[n] == Ask::Run(c));
    }
}

/// It can be found out whether a subvolume stands at a path.
proof fn lemma_checking_works(path: Seq<char>, log: Log)
    requires
        log.asked.len() <= log.answers.len(),
        only_transfers_fail(drive(checking_subvolume(path), log).0, log.asked.len() as int),
    ensures
        drive(checking_subvolume(path), log).1 matches Some(r) ==> r is Ok,
{
    broadcast use {group_plan, lemma_drive_extends};

    reveal(checking_subvolume);
    reveal(querying);
    let c = show_call(path);
    let announce = say(Tone::Detail, "$ "@ + command_text(c));
    let (l1, o1) = drive(announce, log);
    if o1 is Some {
        let l2 = drive(run(c), l1).0;
        lemma_part(l2, l2, log.asked.len() as int, l1.asked.len() as int);
        lemma_run_works(c, l1);
    }
}

/// What has to be moved is moved, and directories are made.
proof fn lemma_perform_works(q: Ask, log: Log)
    requires
        log.asked.len() <= log.answers.len(),
        only_transfers_fail(drive(perform(q), log).0, log.asked.len() as int),
        q is Rename || q is CreateDirAll,
    ensures
        drive(perform(q), log).1 matches Some(r) ==> r is Ok,
{
    broadcast use group_plan;

    let n = log.asked.len() as int;
    let l = drive(perform(q), log).0;
    if n < log.answers.len() {
        assert(l.asked[n] == q);
    }
}

/// Moving a subvolume works.
proof fn lemma_renaming_works(a: Seq<char>, b: Seq<char>, log: Log, ds: spec_fn(int) -> Disk)
    requires
        follows(renaming(a, b), log, ds),
        only_transfers_fail(drive(renaming(a, b), log).0, log.asked.len() as int),
        apart(place(a), place(b)),
        now(log, ds).has_subvolume(a),
    ensures
        ({
            let (l, o) = drive(renaming(a, b), log);
            &&& extends(log, l)
            &&& o matches Some(r) ==> r is Ok && moved(
                now(log, ds),
                place(a),
                place(b),
                now(l, ds),
            )
        }),
{
    broadcast use group_plan;

    lemma_renaming(a, b, log, ds);
    reveal(renaming);
    let n = log.asked.len() as int;
    let whole = drive(renaming(a, b), log).0;
    let q = Ask::Rename { from: a, to: b };
    let back = Ask::Rename { from: b, to: a };
    let judge = |found: bool|
        if found {
            ok(())
        } else {
            then(
                ignoring(perform(back)),
                |u: ()| fail::<()>(Fault::Btrfs("Renamed path is not a valid subvolume: "@ + b)),
            )
        };
    lemma_follows_then(perform(q), |u: ()| then(checking_subvolume(b), judge), log, ds);
    lemma_perform_rename(a, b, log, ds);
    let (l1, o1) = drive(perform(q), log);
    lemma_drive_extends(then(checking_subvolume(b), judge), l1);
    lemma_part(l1, whole, n, n);
    lemma_perform_works(q, log);
    if o1 is Some {
        lemma_follows_then(checking_subvolume(b), judge, l1, ds);
        lemma_checking(b, l1, ds);
        let (l2, o2) = drive(checking_subvolume(b), l1);
        if let Some(Ok(found)) = o2 {
            lemma_drive_extends(judge(found), l2);
        }
        lemma_part(l2, whole, n, l1.asked.len() as int);
        lemma_checking_works(b, l1);
    }
}

/// What moving back leaves, where it works: what was set aside and what was parked stand where
/// they stood.
pub open spec fn moved_back(w: Swap, d: Disk, e: Disk) -> bool {
    &&& same_beside_swap(w, d, e)
    &&& e.on(w.target) == (if w.aside {
        d.on(w.backup)
    } else {
        d.on(w.target)
    })
    &&& e.on(w.backup) == (if w.aside {
        None
    } else {
        d.on(w.backup)
    })
    &&& w.parked matches Some(p) ==> e.on(w.received) == d.on(p) && e.on(p) is None
    &&& w.parked is None && place(w.received) != place(w.target) ==> e.on(w.received) == d.on(
        w.received,
    )
}

proof fn lemma_restoring_works(w: Swap, rename: bool, log: Log, ds: spec_fn(int) -> Disk)
    requires
        follows(restoring(w), log, ds),
        only_transfers_fail(drive(restoring(w), log).0, log.asked.len() as int),
        well_placed(w, rename),
        w.aside ==> now(log, ds).has_subvolume(w.backup),
        w.parked matches Some(p) ==> now(log, ds).has_subvolume(p),
    ensures
        ({
            let (l, o) = drive(restoring(w), log);
            &&& extends(log, l)
            &&& o matches Some(r) ==> r is Ok && moved_back(w, now(log, ds), now(l, ds))
        }),
{
    broadcast use group_plan;

    reveal(restoring);
    let n = log.asked.len() as int;
    let d = now(log, ds);
    let whole = drive(restoring(w), log).0;
    lemma_drive_extends(restoring(w), log);
    let first = if w.aside {
        ignoring(renaming(w.backup, w.target))
    } else {
        ok(())
    };
    let second = |u: ()|
        match w.parked {
            Some(p) => ignoring(renaming(p, w.received)),
            None => ok(()),
        };
    lemma_follows_then(first, second, log, ds);
    let (l1, o1) = drive(first, log);
    if w.aside {
        let plan = renaming(w.backup, w.target);
        lemma_follows_bind(plan, |r: Result<(), Fault>| ok(()), log, ds);
        let l = drive(plan, log).0;
        assert(l == l1);
        lemma_part(l1, whole, n, n);
        lemma_renaming_works(w.backup, w.target, log, ds);
    }
    if o1 is Some {
        let m = now(l1, ds);
        if let Some(p) = w.parked {
            let plan = renaming(p, w.received);
            lemma_follows_bind(plan, |r: Result<(), Fault>| ok(()), l1, ds);
            lemma_part(whole, whole, n, l1.asked.len() as int);
            assert(m.on(p) == d.on(p));
            lemma_renaming_works(p, w.received, l1, ds);
        }
    }
}

/// A transfer that did not arrive: it fails, and where something stood already, nothing has
/// changed.
proof fn lemma_failed_transfer(
    source: Seq<char>,
    parent: Option<Seq<char>>,
    dest: Seq<char>,
    base: Seq<char>,
    log: Log,
    ds: spec_fn(int) -> Disk,
)
    requires
        follows(transferring(source, parent, dest), log, ds),
        only_transfers_fail(
            drive(transferring(source, parent, dest), log).0,
            log.asked.len() as int,
        ),
        file_name_of(source) == Some(base),
    ensures
        ({
            let (l, o) = drive(transferring(source, parent, dest), log);
            let (d, e) = (now(log, ds), now(l, ds));
            let r = place(dest).push(base);
            &&& extends(log, l)
            &&& o matches Some(x) ==> x is Err && same_beside(d, e, r) && ((d.at)(r) is Some ==> e
                == d)
        }),
{
    broadcast use {group_plan, group_only, lemma_looking_complaining};

    reveal(transferring);
    reveal(judging_transfer);
    reveal(complaining);
    let whole = drive(transferring(source, parent, dest), log).0;
    let p1 = say(Tone::CmdStart, transfer_command_text(source, parent, dest));
    let q = Ask::Transfer { source, parent, dest };
    let k = |a: Answer| judging_transfer(source, dest, sent_in(a));
    lemma_follows_then(p1, |u: ()| bind(ask(q), k), log, ds);
    lemma_looking(p1, log, ds);
    let (l1, o1) = drive(p1, log);
    if o1 is Some {
        lemma_follows_bind(ask(q), k, l1, ds);
        lemma_follows_ask(q, l1, ds);
        let (l2, o2) = drive(ask(q), l1);
        if let Some(a) = o2 {
            assert(only(k(a), looking()));
            lemma_looking(k(a), l2, ds);
            assert(received(now(log, ds), source, dest, a, now(l2, ds)));
            let n = l1.asked.len() as int;
            assert(l2.asked[n] == q);
            assert(whole.asked[n] == q);
            assert(whole.answers[n] == a);
            assert(!arrived(a));
        }
    }
}

/// What a transfer that failed leaves, where everything else works: the old subvolume and the
/// one with the name of the received stand where they stood, and nothing is left at the places
/// where they were kept meanwhile. Only where nothing stood before may the transfer have left
/// something.
pub open spec fn undone(
    d: Disk,
    dest: Seq<char>,
    name: Seq<char>,
    base: Seq<char>,
    suffix: Seq<char>,
    e: Disk,
) -> bool {
    let dir = place(dest);
    let target = dir.push(name);
    let landing = dir.push(base);
    let backup = dir.push(name + "."@ + suffix);
    let parked = dir.push(base + ".conflict"@);
    &&& base != name || (d.at)(target) is Some ==> (e.at)(target) == (d.at)(target)
    &&& (e.at)(backup) == (if (d.at)(target) matches Some(Thing::Subvolume(_)) {
        None
    } else {
        (d.at)(backup)
    })
    &&& (d.at)(landing) is Some ==> (e.at)(landing) == (d.at)(landing)
    &&& base != name ==> (e.at)(parked) == (if (d.at)(landing) matches Some(Thing::Subvolume(_)) {
        None
    } else {
        (d.at)(parked)
    })
}

proof fn lemma_receiving_undone(
    source: Seq<char>,
    parent: Option<Seq<char>>,
    dest: Seq<char>,
    suffix: Seq<char>,
    name: Seq<char>,
    base: Seq<char>,
    log: Log,
    ds: spec_fn(int) -> Disk,
)
    requires
        follows(receiving_as(source, parent, dest, suffix, name, base), log, ds),
        only_transfers_fail(
            drive(receiving_as(source, parent, dest, suffix, name, base), log).0,
            log.asked.len() as int,
        ),
        file_name_of(source) == Some(base),
        is_plain(base),
        distinct_names(name, base, suffix),
    ensures
        ({
            let (l, o) = drive(receiving_as(source, parent, dest, suffix, name, base), log);
            &&& extends(log, l)
            &&& o matches Some(r) ==> r is Err && undone(
                now(log, ds),
                dest,
                name,
                base,
                suffix,
                now(l, ds),
            )
        }),
{
    broadcast use group_plan;

    reveal(receiving_as);
    let n = log.asked.len() as int;
    let d = now(log, ds);
    let rename = base != name;
    let plan = receiving_as(source, parent, dest, suffix, name, base);
    let whole = drive(plan, log).0;
    lemma_drive_extends(plan, log);
    let (t, r) = (joined_path(dest, name), joined_path(dest, base));
    lemma_well_placed(dest, name, base, suffix, false, false);
    let second = |aside: bool|
        then(
            if base != name {
                checking_subvolume(joined_path(dest, base))
            } else {
                ok(false)
            },
            |conflict: bool|
                then(
                    making_room(swap_places(dest, name, base, suffix, aside, conflict)),
                    |u: ()|
                        swapping(
                            swap_places(dest, name, base, suffix, aside, conflict),
                            base != name,
                            source,
                            parent,
                            dest,
                        ),
                ),
        );
    lemma_follows_then(checking_subvolume(t), second, log, ds);
    lemma_checking(t, log, ds);
    let (l1, o1) = drive(checking_subvolume(t), log);
    if let Some(Ok(aside)) = o1 {
        lemma_drive_extends(second(aside), l1);
    }
    lemma_part(l1, whole, n, n);
    lemma_checking_works(t, log);
    if let Some(Ok(aside)) = o1 {
        let n1 = l1.asked.len() as int;
        let check = if base != name {
            checking_subvolume(r)
        } else {
            ok(false)
        };
        let third = |conflict: bool|
            then(
                making_room(swap_places(dest, name, base, suffix, aside, conflict)),
                |u: ()|
                    swapping(
                        swap_places(dest, name, base, suffix, aside, conflict),
                        base != name,
                        source,
                        parent,
                        dest,
                    ),
            );
        lemma_follows_then(check, third, l1, ds);
        let (l2, o2) = drive(check, l1);
        if let Some(Ok(conflict)) = o2 {
            lemma_drive_extends(third(conflict), l2);
        }
        lemma_part(l2, whole, n, n1);
        if rename {
            lemma_checking(r, l1, ds);
            lemma_checking_works(r, l1);
        }
        if let Some(Ok(conflict)) = o2 {
            let n2 = l2.asked.len() as int;
            let w = swap_places(dest, name, base, suffix, aside, conflict);
            lemma_well_placed(dest, name, base, suffix, aside, conflict);
            let go = |u: ()| swapping(w, base != name, source, parent, dest);
            lemma_follows_then(making_room(w), go, l2, ds);
            let (l3, o3) = drive(making_room(w), l2);
            if let Some(Ok(u)) = o3 {
                lemma_drive_extends(go(u), l3);
            }
            lemma_part(l3, whole, n, n2);
            lemma_making_room(w, rename, None, l2, ds);
            lemma_making_room_works(w, rename, l2, ds);
            if o3 is Some {
                let n3 = l3.asked.len() as int;
                let m = now(l3, ds);
                let k = |r: Result<TransferStats, Fault>|
                    match r {
                        Ok(stats) => settling(w, rename, stats),
                        Err(e) => then(restoring(w), |u: ()| fail(e)),
                    };
                lemma_follows_bind(transferring(source, parent, dest), k, l3, ds);
                let (l4, o4) = drive(transferring(source, parent, dest), l3);
                if let Some(x) = o4 {
                    lemma_drive_extends(k(x), l4);
                }
                lemma_part(l4, whole, n, n3);
                lemma_failed_transfer(source, parent, dest, base, l3, ds);
                if let Some(Err(e)) = o4 {
                    let n4 = l4.asked.len() as int;
                    let f = now(l4, ds);
                    lemma_follows_then(restoring(w), |u: ()| fail::<TransferStats>(e), l4, ds);
                    lemma_part(whole, whole, n, n4);
                    assert(same_beside(m, f, place(w.received)));
                    lemma_restoring_works(w, rename, l4, ds);
                    let (l5, o5) = drive(restoring(w), l4);
                    if o5 is Some {
                        let g = now(l5, ds);
                        assert(whole == l5);
                        if rename {
                            lemma_well_placed(dest, name, base, suffix, aside, true);
                            let side = place(dest).push(base + ".conflict"@);
                            assert(!conflict ==> (m.at)(side) == (d.at)(side));
                            assert(!conflict ==> (f.at)(side) == (m.at)(side));
                            assert(!conflict ==> (g.at)(side) == (f.at)(side));
                        }
                        assert(undone(d, dest, name, base, suffix, g));
                    }
                }
            }
        }
    }
}

/// What is in the way can be moved aside.
proof fn lemma_making_room_works(w: Swap, rename: bool, log: Log, ds: spec_fn(int) -> Disk)
    requires
        follows(making_room(w), log, ds),
        only_transfers_fail(drive(making_room(w), log).0, log.asked.len() as int),
        well_placed(w, rename),
        w.aside ==> now(log, ds).has_subvolume(w.target),
        w.parked is Some ==> now(log, ds).has_subvolume(w.received),
    ensures
        drive(making_room(w), log).1 matches Some(r) ==> r is Ok,
{
    broadcast use group_plan;

    reveal(making_room);
    let n = log.asked.len() as int;
    let d = now(log, ds);
    let whole = drive(making_room(w), log).0;
    lemma_drive_extends(making_room(w), log);
    let first = if w.aside {
        renaming(w.target, w.backup)
    } else {
        ok(())
    };
    let second = |u: ()|
        match w.parked {
            Some(p) => renaming(w.received, p),
            None => ok(()),
        };
    lemma_follows_then(first, second, log, ds);
    let (l1, o1) = drive(first, log);
    if let Some(Ok(u)) = o1 {
        lemma_drive_extends(second(u), l1);
    }
    lemma_part(l1, whole, n, n);
    if w.aside {
        lemma_renaming_works(w.target, w.backup, log, ds);
    }
    if o1 is Some {
        if let Some(p) = w.parked {
            lemma_part(whole, whole, n, l1.asked.len() as int);
            assert(now(l1, ds).on(w.received) == d.on(w.received));
            lemma_renaming_works(w.received, p, l1, ds);
        }
    }
}

/// A transfer that fails changes nothing in the end, where everything else works: the procedure
/// fails too, the target holds what it held, and so does the place where the subvolume was to
/// be received, if anything was there. Nothing is left of the moves.
pub proof fn lemma_failed_send_is_undone(
    source: Seq<char>,
    parent: Option<Seq<char>>,
    dest: Seq<char>,
    suffix: Seq<char>,
    target_name: Option<Seq<char>>,
    name: Seq<char>,
    base: Seq<char>,
    log: Log,
    ds: spec_fn(int) -> Disk,
)
    requires
        follows(replacing_by_send(source, parent, dest, suffix, target_name), log, ds),
        only_transfers_fail(
            drive(replacing_by_send(source, parent, dest, suffix, target_name), log).0,
            log.asked.len() as int,
        ),
        naming(source) == Ok::<Seq<char>, Fault>(base),
        name == (match target_name {
            Some(n) => n,
            None => base,
        }),
        distinct_names(name, base, suffix),
    ensures
        ({
            let (l, o) = drive(
                replacing_by_send(source, parent, dest, suffix, target_name),
                log,
            );
            o matches Some(r) ==> r is Err && undone(
                now(log, ds),
                dest,
                name,
                base,
                suffix,
                now(l, ds),
            )
        }),
{
    broadcast use group_plan;

    reveal(replacing_by_send);
    let n = log.asked.len() as int;
    let plan = replacing_by_send(source, parent, dest, suffix, target_name);
    let whole = drive(plan, log).0;
    let d = now(log, ds);
    lemma_name_is_plain(source);
    lemma_drive_extends(plan, log);
    let second = |u: ()|
        match naming(source) {
            Err(e) => fail(e),
            Ok(base) => receiving_as(
                source,
                parent,
                dest,
                suffix,
                match target_name {
                    Some(name) => name,
                    None => base,
                },
                base,
            ),
        };
    lemma_follows_then(ensuring_dir(dest), second, log, ds);
    lemma_ensuring_dir(dest, log, ds);
    let (l1, o1) = drive(ensuring_dir(dest), log);
    if let Some(Ok(u)) = o1 {
        lemma_drive_extends(second(u), l1);
    }
    lemma_part(l1, whole, n, n);
    lemma_ensuring_works(dest, log);
    let dir = place(dest);
    if o1 is Some {
        let m = now(l1, ds);
        assert forall|x: Seq<char>| (m.at)(#[trigger] dir.push(x)) == (d.at)(dir.push(x)) by {
            assert(m == d || grown(d, dir, m));
            assert(!within(dir, dir.push(x)));
        }
        lemma_part(whole, whole, n, l1.asked.len() as int);
        lemma_receiving_undone(source, parent, dest, suffix, name, base, l1, ds);
    }
}

/// A directory can be made.
proof fn lemma_ensuring_works(dest: Seq<char>, log: Log)
    requires
        log.asked.len() <= log.answers.len(),
        only_transfers_fail(drive(ensuring_dir(dest), log).0, log.asked.len() as int),
    ensures
        drive(ensuring_dir(dest), log).1 matches Some(r) ==> r is Ok,
{
    broadcast use {group_plan, lemma_drive_extends};

    reveal(ensuring_dir);
    let whole = drive(ensuring_dir(dest), log).0;
    let (l1, o1) = drive(present(dest), log);
    if o1 == Some(Ok::<bool, Fault>(false)) {
        lemma_part(whole, whole, log.asked.len() as int, l1.asked.len() as int);
        lemma_perform_works(Ask::CreateDirAll(dest), l1);
    }
}

}
