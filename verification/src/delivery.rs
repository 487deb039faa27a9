//! What a transfer does to the subvolumes on the target disk.

use crate::btrfs::{
    checking_subvolume, clearing_up, deleting_subvolume, discarding, ensuring_dir, judging_transfer,
    making_room, naming, receiving_as, renaming, replacing_by_send, restoring, sent_in, settling,
    swap_places, swapping, transfer_command_text, transferring, Swap,
};
use crate::command_runner::{complaining, ignoring};
use crate::disk::{
    apart, deleted, follows, grown, hopped, kept, lemma_apart_siblings, lemma_checking,
    lemma_deleting, lemma_discarding, lemma_follows_ask, lemma_follows_bind, lemma_follows_then,
    lemma_looking, lemma_looking_complaining, lemma_present, lemma_renaming, looking, now, place,
    received, same_beside, throughout, within, Disk, Place, Thing,
};
use crate::error::{Fault, IoFault};
#[allow(unused_imports)]
use crate::journal::{
    ask, attempt, bind, drive, fail, failure_in, group_plan, ok, perform, present, say, then,
    Answer, Ask, Log, Tone, TransferStats,
};
use crate::path::{
    file_name_of, is_plain, joined_path, lemma_join_adds_component, lemma_name_is_plain,
};
use crate::trace::{extends, group_only, lemma_drive_extends, only};
use vstd::prelude::*;

verus! {

/// A transfer: at most the place where the subvolume lands changes.
proof fn lemma_transferring(
    source: Seq<char>,
    parent: Option<Seq<char>>,
    dest: Seq<char>,
    base: Seq<char>,
    log: Log,
    ds: spec_fn(int) -> Disk,
)
    requires
        follows(transferring(source, parent, dest), log, ds),
        file_name_of(source) == Some(base),
    ensures
        ({
            let (l, o) = drive(transferring(source, parent, dest), log);
            let d = now(log, ds);
            let r = place(dest).push(base);
            &&& extends(log, l)
            &&& throughout(
                transferring(source, parent, dest),
                log,
                ds,
                |e: Disk| same_beside(d, e, r),
            )
            &&& o matches Some(Ok(_)) ==> d.has_subvolume(source) && (now(l, ds).at)(r)
                == d.on(source) && (d.at)(r) is None
        }),
{
    broadcast use {group_plan, group_only, lemma_looking_complaining};

    reveal(transferring);
    reveal(judging_transfer);
    reveal(complaining);
    let d = now(log, ds);
    let r = place(dest).push(base);
    let whole = drive(transferring(source, parent, dest), log).0;
    let p1 = say(Tone::CmdStart, transfer_command_text(source, parent, dest));
    let q = Ask::Transfer { source, parent, dest };
    let k = |a: Answer| judging_transfer(source, dest, sent_in(a));
    lemma_follows_then(p1, |u: ()| bind(ask(q), k), log, ds);
    lemma_looking(p1, log, ds);
    let (l1, o1) = drive(p1, log);
    if o1 is Some {
        lemma_follows_bind(ask(q), k, l1, ds);
        lemma_follows_ask(q, l1, ds);
        let (l2, o2) = drive(ask(q), l1);
        if let Some(a) = o2 {
            assert(only(k(a), looking()));
            lemma_looking(k(a), l2, ds);
            assert(received(d, source, dest, a, now(l2, ds)));
            assert(same_beside(d, now(l2, ds), r));
            assert forall|i: int|
                #![trigger ds(i)]
                log.asked.len() <= i <= whole.asked.len() implies same_beside(d, ds(i), r) by {
                if i > l1.asked.len() {
                    assert(l2.asked.len() <= i);
                }
            }
        }
    }
}

/// The places of a swap are apart from each other.
pub open spec fn well_placed(w: Swap, rename: bool) -> bool {
    let (t, b, r) = (place(w.target), place(w.backup), place(w.received));
    &&& apart(t, b)
    &&& rename ==> apart(t, r) && apart(b, r)
    &&& !rename ==> t == r && w.parked is None
    &&& w.parked matches Some(p) ==> apart(t, place(p)) && apart(b, place(p)) && apart(r, place(p))
}

/// The disks differ at most at or below the places of a swap.
pub open spec fn same_beside_swap(w: Swap, d: Disk, e: Disk) -> bool {
    forall|x: Place|
        !within(x, place(w.target)) && !within(x, place(w.backup)) && !within(x, place(w.received))
            && (w.parked matches Some(p) ==> !within(x, place(p))) ==> #[trigger] (e.at)(x)
            == (d.at)(x)
}

/// Neither the old subvolume nor the one that was in the way is lost, and nothing else has
/// changed since the disk was `d`.
pub open spec fn intact(
    w: Swap,
    d: Disk,
    old: Option<Thing>,
    other: Option<Thing>,
    fresh: Option<Thing>,
    e: Disk,
) -> bool {
    &&& same_beside_swap(w, d, e)
    &&& w.aside ==> kept(place(w.target), place(w.backup), old, fresh, e)
    &&& w.parked matches Some(p) ==> e.on(p) == other || e.on(w.received) == other
}

/// The subvolumes in the way have been moved aside.
pub open spec fn roomy(
    w: Swap,
    d: Disk,
    old: Option<Thing>,
    other: Option<Thing>,
    e: Disk,
) -> bool {
    &&& same_beside_swap(w, d, e)
    &&& w.aside ==> e.on(w.backup) == old
    &&& w.parked matches Some(p) ==> e.on(p) == other
}

/// Moving back what was moved aside loses nothing.
proof fn lemma_restoring(
    w: Swap,
    rename: bool,
    origin: Disk,
    old: Option<Thing>,
    other: Option<Thing>,
    fresh: Option<Thing>,
    log: Log,
    ds: spec_fn(int) -> Disk,
)
    requires
        follows(restoring(w), log, ds),
        well_placed(w, rename),
        roomy(w, origin, old, other, now(log, ds)),
    ensures
        extends(log, drive(restoring(w), log).0),
        throughout(restoring(w), log, ds, |e: Disk| intact(w, origin, old, other, fresh, e)),
        drive(restoring(w), log).1 matches Some(r) ==> r is Ok,
{
    broadcast use group_plan;

    reveal(restoring);
    let d = now(log, ds);
    let whole = drive(restoring(w), log).0;
    let first = if w.aside {
        ignoring(renaming(w.backup, w.target))
    } else {
        ok(())
    };
    let second = |u: ()|
        match w.parked {
            Some(p) => ignoring(renaming(p, w.received)),
            None => ok(()),
        };
    lemma_follows_then(first, second, log, ds);
    let (l1, o1) = drive(first, log);
    if w.aside {
        lemma_follows_bind(
            renaming(w.backup, w.target),
            |r: Result<(), Fault>| ok(()),
            log,
            ds,
        );
        lemma_renaming(w.backup, w.target, log, ds);
        assert forall|i: int| #![trigger ds(i)] log.asked.len() <= i <= l1.asked.len() implies {
            &&& ds(i).on(w.backup) == old || ds(i).on(w.target) == old
            &&& w.parked matches Some(p) ==> ds(i).on(p) == other
        } by {
            assert(hopped(d, place(w.backup), place(w.target), ds(i)));
        }
    }
    assert forall|i: int| #![trigger ds(i)] log.asked.len() <= i <= l1.asked.len() implies intact(
        w,
        origin,
        old,
        other,
        fresh,
        ds(i),
    ) by {}
    if o1 is Some {
        let m = now(l1, ds);
        if let Some(p) = w.parked {
            lemma_follows_bind(
                renaming(p, w.received),
                |r: Result<(), Fault>| ok(()),
                l1,
                ds,
            );
            lemma_renaming(p, w.received, l1, ds);
            let (l2, o2) = drive(renaming(p, w.received), l1);
            assert forall|i: int|
                #![trigger ds(i)]
                l1.asked.len() <= i <= l2.asked.len() implies intact(
                w,
                origin,
                old,
                other,
                fresh,
                ds(i),
            ) by {
                assert(hopped(m, place(p), place(w.received), ds(i)));
            }
        }
    }
}

/// Moving aside what is in the way loses nothing.
pub(crate) proof fn lemma_making_room(
    w: Swap,
    rename: bool,
    fresh: Option<Thing>,
    log: Log,
    ds: spec_fn(int) -> Disk,
)
    requires
        follows(making_room(w), log, ds),
        well_placed(w, rename),
    ensures
        ({
            let (l, o) = drive(making_room(w), log);
            let d = now(log, ds);
            let e = now(l, ds);
            &&& extends(log, l)
            &&& throughout(
                making_room(w),
                log,
                ds,
                |e: Disk| intact(w, d, d.on(w.target), d.on(w.received), fresh, e),
            )
            &&& o matches Some(Ok(_)) ==> {
                &&& roomy(w, d, d.on(w.target), d.on(w.received), e)
                &&& w.aside ==> e.on(w.target) is None
                &&& !w.aside ==> e.on(w.target) == d.on(w.target) && e.on(w.backup) == d.on(
                    w.backup,
                )
                &&& rename && w.parked is None ==> e.on(w.received) == d.on(w.received)
            }
        }),
{
    broadcast use group_plan;

    reveal(making_room);
    let d = now(log, ds);
    let (old, other) = (d.on(w.target), d.on(w.received));
    let first = if w.aside {
        renaming(w.target, w.backup)
    } else {
        ok(())
    };
    let second = |u: ()|
        match w.parked {
            Some(p) => renaming(w.received, p),
            None => ok(()),
        };
    lemma_follows_then(first, second, log, ds);
    let (l1, o1) = drive(first, log);
    if w.aside {
        lemma_renaming(w.target, w.backup, log, ds);
    }
    assert forall|i: int| #![trigger ds(i)] log.asked.len() <= i <= l1.asked.len() implies intact(
        w,
        d,
        old,
        other,
        fresh,
        ds(i),
    ) by {
        assert(w.aside ==> hopped(d, place(w.target), place(w.backup), ds(i)));
    }
    if o1 matches Some(Ok(_)) {
        let m = now(l1, ds);
        if let Some(p) = w.parked {
            lemma_renaming(w.received, p, l1, ds);
            let (l2, o2) = drive(renaming(w.received, p), l1);
            assert forall|i: int|
                #![trigger ds(i)]
                l1.asked.len() <= i <= l2.asked.len() implies intact(
                w,
                d,
                old,
                other,
                fresh,
                ds(i),
            ) by {
                assert(hopped(m, place(w.received), place(p), ds(i)));
            }
        }
    }
}

/// The old subvolume is gone, and the one that was in the way stands where it stood.
pub open spec fn cleared(w: Swap, other: Option<Thing>, d: Disk, e: Disk) -> bool {
    &&& w.aside ==> e.on(w.backup) is None
    &&& w.parked matches Some(p) ==> e.on(w.received) == other && e.on(p) is None
    &&& w.parked is None ==> e.on(w.received) == d.on(w.received)
}

/// Clearing up loses nothing, once the new subvolume stands in its place.
proof fn lemma_clearing_up(
    w: Swap,
    rename: bool,
    stats: TransferStats,
    origin: Disk,
    old: Option<Thing>,
    other: Option<Thing>,
    fresh: Option<Thing>,
    log: Log,
    ds: spec_fn(int) -> Disk,
)
    requires
        follows(clearing_up(w, stats), log, ds),
        well_placed(w, rename),
        roomy(w, origin, old, other, now(log, ds)),
        now(log, ds).on(w.target) == fresh,
    ensures
        ({
            let (l, o) = drive(clearing_up(w, stats), log);
            &&& extends(log, l)
            &&& throughout(
                clearing_up(w, stats),
                log,
                ds,
                |e: Disk| intact(w, origin, old, other, fresh, e),
            )
            &&& o matches Some(Ok(_)) ==> now(l, ds).on(w.target) == fresh && cleared(
                w,
                other,
                now(log, ds),
                now(l, ds),
            )
        }),
{
    broadcast use group_plan;

    reveal(clearing_up);
    let d = now(log, ds);
    let back = match w.parked {
        Some(p) => renaming(p, w.received),
        None => ok(()),
    };
    let second = |u: ()| then(back, |u: ()| ok(stats));
    lemma_follows_then(discarding(w.aside, w.backup), second, log, ds);
    lemma_discarding(w.aside, w.backup, log, ds);
    let (l1, o1) = drive(discarding(w.aside, w.backup), log);
    assert forall|i: int| #![trigger ds(i)] log.asked.len() <= i <= l1.asked.len() implies intact(
        w,
        origin,
        old,
        other,
        fresh,
        ds(i),
    ) && ds(i).on(w.target) == fresh by {
        assert(ds(i) == d || (w.aside && deleted(d, place(w.backup), ds(i))));
    }
    if o1 matches Some(Ok(_)) {
        let m = now(l1, ds);
        lemma_follows_then(back, |u: ()| ok(stats), l1, ds);
        let (l2, o2) = drive(back, l1);
        if let Some(p) = w.parked {
            lemma_renaming(p, w.received, l1, ds);
            assert forall|i: int|
                #![trigger ds(i)]
                l1.asked.len() <= i <= l2.asked.len() implies intact(
                w,
                origin,
                old,
                other,
                fresh,
                ds(i),
            ) && ds(i).on(w.target) == fresh by {
                assert(hopped(m, place(p), place(w.received), ds(i)));
            }
        }
    }
}

/// Putting a received subvolume in its place loses nothing.
proof fn lemma_settling(
    w: Swap,
    rename: bool,
    stats: TransferStats,
    origin: Disk,
    old: Option<Thing>,
    other: Option<Thing>,
    fresh: Option<Thing>,
    log: Log,
    ds: spec_fn(int) -> Disk,
)
    requires
        follows(settling(w, rename, stats), log, ds),
        well_placed(w, rename),
        roomy(w, origin, old, other, now(log, ds)),
        now(log, ds).on(w.received) == fresh,
    ensures
        ({
            let (l, o) = drive(settling(w, rename, stats), log);
            let e = now(l, ds);
            &&& extends(log, l)
            &&& throughout(
                settling(w, rename, stats),
                log,
                ds,
                |e: Disk| intact(w, origin, old, other, fresh, e),
            )
            &&& o matches Some(Ok(_)) ==> {
                &&& e.on(w.target) == fresh
                &&& w.aside ==> e.on(w.backup) is None
                &&& w.parked matches Some(p) ==> e.on(p) is None
                &&& rename ==> e.on(w.received) == (if w.parked is Some {
                    other
                } else {
                    None
                })
            }
        }),
{
    broadcast use group_plan;

    reveal(settling);
    lemma_drive_extends(settling(w, rename, stats), log);
    let d = now(log, ds);
    let whole = drive(settling(w, rename, stats), log).0;
    let missing = Fault::Btrfs("Subvolume not received at expected location: "@ + w.received);
    let placed = |r: Result<(), Fault>|
        match r {
            Ok(_) => clearing_up(w, stats),
            Err(e) => then(
                ignoring(deleting_subvolume(w.received)),
                |u: ()| then(restoring(w), |u: ()| fail(e)),
            ),
        };
    let k = |there: bool|
        if !there {
            then(
                restoring(w),
                |u: ()|
                    fail(
                        Fault::Btrfs(
                            "Subvolume not received at expected location: "@ + w.received,
                        ),
                    ),
            )
        } else if rename {
            bind(renaming(w.received, w.target), placed)
        } else {
            clearing_up(w, stats)
        };
    lemma_follows_then(checking_subvolume(w.received), k, log, ds);
    lemma_checking(w.received, log, ds);
    let (l1, o1) = drive(checking_subvolume(w.received), log);
    let inv = |e: Disk| intact(w, origin, old, other, fresh, e);
    assert forall|i: int| #![trigger ds(i)] log.asked.len() <= i <= l1.asked.len() implies inv(
        ds(i),
    ) by {
        assert(ds(i) == d);
    }
    if let Some(Ok(there)) = o1 {
        if !there {
            lemma_follows_then(restoring(w), |u: ()| fail::<TransferStats>(missing), l1, ds);
            lemma_restoring(w, rename, origin, old, other, fresh, l1, ds);
        } else if rename {
            lemma_follows_bind(renaming(w.received, w.target), placed, l1, ds);
            lemma_renaming(w.received, w.target, l1, ds);
            let (l2, o2) = drive(renaming(w.received, w.target), l1);
            assert forall|i: int|
                #![trigger ds(i)]
                l1.asked.len() <= i <= l2.asked.len() implies inv(ds(i)) && roomy(
                w,
                origin,
                old,
                other,
                ds(i),
            ) by {
                assert(hopped(d, place(w.received), place(w.target), ds(i)));
            }
            match o2 {
                Some(Ok(_)) => {
                    lemma_clearing_up(w, rename, stats, origin, old, other, fresh, l2, ds);
                },
                Some(Err(e)) => {
                    let tail = |u: ()| then(restoring(w), |u: ()| fail::<TransferStats>(e));
                    lemma_follows_then(ignoring(deleting_subvolume(w.received)), tail, l2, ds);
                    lemma_follows_bind(
                        deleting_subvolume(w.received),
                        |r: Result<(), Fault>| ok(()),
                        l2,
                        ds,
                    );
                    lemma_deleting(w.received, l2, ds);
                    let (l3, o3) = drive(ignoring(deleting_subvolume(w.received)), l2);
                    let m = now(l2, ds);
                    assert forall|i: int|
                        #![trigger ds(i)]
                        l2.asked.len() <= i <= l3.asked.len() implies inv(ds(i)) && roomy(
                        w,
                        origin,
                        old,
                        other,
                        ds(i),
                    ) by {
                        assert(ds(i) == m || deleted(m, place(w.received), ds(i)));
                    }
                    if o3 is Some {
                        lemma_follows_then(
                            restoring(w),
                            |u: ()| fail::<TransferStats>(e),
                            l3,
                            ds,
                        );
                        lemma_restoring(w, rename, origin, old, other, fresh, l3, ds);
                    }
                },
                None => {},
            }
        } else {
            lemma_clearing_up(w, rename, stats, origin, old, other, fresh, l1, ds);
        }
    }
    assert(throughout(settling(w, rename, stats), log, ds, inv));
}

/// Transferring a subvolume and putting it in its place loses nothing.
proof fn lemma_swapping(
    w: Swap,
    rename: bool,
    source: Seq<char>,
    parent: Option<Seq<char>>,
    dest: Seq<char>,
    base: Seq<char>,
    origin: Disk,
    old: Option<Thing>,
    other: Option<Thing>,
    log: Log,
    ds: spec_fn(int) -> Disk,
)
    requires
        follows(swapping(w, rename, source, parent, dest), log, ds),
        well_placed(w, rename),
        roomy(w, origin, old, other, now(log, ds)),
        file_name_of(source) == Some(base),
        place(w.received) == place(dest).push(base),
    ensures
        ({
            let (l, o) = drive(swapping(w, rename, source, parent, dest), log);
            let fresh = now(log, ds).on(source);
            let e = now(l, ds);
            &&& extends(log, l)
            &&& throughout(
                swapping(w, rename, source, parent, dest),
                log,
                ds,
                |e: Disk| intact(w, origin, old, other, fresh, e),
            )
            &&& o matches Some(Ok(_)) ==> {
                &&& now(log, ds).has_subvolume(source)
                &&& now(log, ds).on(w.received) is None
                &&& e.on(w.target) == fresh
                &&& w.aside ==> e.on(w.backup) is None
                &&& w.parked matches Some(p) ==> e.on(p) is None
                &&& rename ==> e.on(w.received) == (if w.parked is Some {
                    other
                } else {
                    None
                })
            }
        }),
{
    broadcast use group_plan;

    let d = now(log, ds);
    let fresh = d.on(source);
    let k = |r: Result<TransferStats, Fault>|
        match r {
            Ok(stats) => settling(w, rename, stats),
            Err(e) => then(restoring(w), |u: ()| fail(e)),
        };
    lemma_follows_bind(transferring(source, parent, dest), k, log, ds);
    lemma_transferring(source, parent, dest, base, log, ds);
    let (l1, o1) = drive(transferring(source, parent, dest), log);
    let inv = |e: Disk| intact(w, origin, old, other, fresh, e);
    assert forall|i: int| #![trigger ds(i)] log.asked.len() <= i <= l1.asked.len() implies inv(
        ds(i),
    ) && roomy(w, origin, old, other, ds(i)) by {
        assert(same_beside(d, ds(i), place(w.received)));
    }
    match o1 {
        Some(Ok(stats)) => {
            lemma_settling(w, rename, stats, origin, old, other, fresh, l1, ds);
        },
        Some(Err(e)) => {
            lemma_follows_then(restoring(w), |u: ()| fail::<TransferStats>(e), l1, ds);
            lemma_restoring(w, rename, origin, old, other, fresh, l1, ds);
        },
        None => {},
    }
    assert(throughout(swapping(w, rename, source, parent, dest), log, ds, inv));
}

/// The names that a received subvolume and those in its way go by are all different.
pub open spec fn distinct_names(name: Seq<char>, base: Seq<char>, suffix: Seq<char>) -> bool {
    &&& is_plain(name)
    &&& !suffix.contains('/')
    &&& base != name ==> {
        &&& base != name + "."@ + suffix
        &&& name != base + ".conflict"@
        &&& name + "."@ + suffix != base + ".conflict"@
    }
}

/// The source lies apart from the places where it is received.
pub open spec fn lies_apart(
    source: Seq<char>,
    dest: Seq<char>,
    name: Seq<char>,
    base: Seq<char>,
    suffix: Seq<char>,
) -> bool {
    let s = place(source);
    let d = place(dest);
    &&& !within(s, d.push(name))
    &&& !within(s, d.push(base))
    &&& !within(s, d.push(name + "."@ + suffix))
    &&& !within(s, d.push(base + ".conflict"@))
}

/// A plain name stays one with something without separators behind it.
pub(crate) proof fn lemma_longer_name(name: Seq<char>, rest: Seq<char>)
    requires
        is_plain(name),
        !rest.contains('/'),
        rest.len() > 0,
    ensures
        is_plain(name + rest),
{
    reveal_strlit(".");
    let long = name + rest;
    assert(long.len() > 1);
    assert forall|i: int| 0 <= i < long.len() implies long[i] != '/' by {
        if i < name.len() {
            assert(name.contains(name[i]));
        } else {
            assert(rest.contains(rest[i - name.len()]));
        }
    }
}

/// The places of a swap are apart where the names are different.
pub(crate) proof fn lemma_well_placed(
    dest: Seq<char>,
    name: Seq<char>,
    base: Seq<char>,
    suffix: Seq<char>,
    aside: bool,
    conflict: bool,
)
    requires
        is_plain(base),
        distinct_names(name, base, suffix),
        conflict ==> base != name,
    ensures
        ({
            let w = swap_places(dest, name, base, suffix, aside, conflict);
            let d = place(dest);
            &&& well_placed(w, base != name)
            &&& place(w.target) == d.push(name)
            &&& place(w.received) == d.push(base)
            &&& place(w.backup) == d.push(name + "."@ + suffix)
            &&& w.parked matches Some(p) ==> place(p) == d.push(base + ".conflict"@)
        }),
{
    let d = place(dest);
    reveal_strlit(".");
    reveal_strlit(".conflict");
    let old_name = name + "."@ + suffix;
    let parked_name = base + ".conflict"@;
    let rest = "."@ + suffix;
    assert(old_name =~= name + rest);
    assert forall|i: int| 0 <= i < rest.len() implies rest[i] != '/' by {
        if i > 0 {
            assert(suffix.contains(suffix[i - 1]));
        }
    }
    lemma_longer_name(name, rest);
    lemma_longer_name(base, ".conflict"@);
    lemma_join_adds_component(dest, name);
    lemma_join_adds_component(dest, base);
    lemma_join_adds_component(dest, old_name);
    lemma_join_adds_component(dest, parked_name);
    assert(old_name.len() > name.len());
    assert(parked_name.len() > base.len());
    lemma_apart_siblings(d, name, old_name);
    lemma_apart_siblings(d, base, parked_name);
    if base != name {
        lemma_apart_siblings(d, name, base);
        lemma_apart_siblings(d, old_name, base);
        lemma_apart_siblings(d, name, parked_name);
        lemma_apart_siblings(d, old_name, parked_name);
    }
}

/// What holds of the disk at every moment while a subvolume is received as `name`: neither the
/// old subvolume of that name nor one with the name of the received is lost, and nothing
/// changes elsewhere but that a directory may be created.
pub open spec fn lossless(
    d: Disk,
    fresh: Option<Thing>,
    dest: Seq<char>,
    name: Seq<char>,
    base: Seq<char>,
    suffix: Seq<char>,
    e: Disk,
) -> bool {
    let dir = place(dest);
    let target = dir.push(name);
    let landing = dir.push(base);
    &&& forall|x: Place|
        #![trigger (e.at)(x)]
        !within(x, target) && !within(x, landing) && !within(x, dir.push(name + "."@ + suffix))
            && !within(x, dir.push(base + ".conflict"@)) ==> {
            &&& (d.at)(x) is Some ==> (e.at)(x) == (d.at)(x)
            &&& (d.at)(x) is None ==> !((e.at)(x) matches Some(Thing::Subvolume(_)))
            &&& (d.at)(x) is None && !within(dir, x) ==> (e.at)(x) is None
        }
    &&& (d.at)(target) matches Some(Thing::Subvolume(_)) ==> kept(
        target,
        dir.push(name + "."@ + suffix),
        (d.at)(target),
        fresh,
        e,
    )
    &&& base != name && ((d.at)(landing) matches Some(Thing::Subvolume(_))) ==> (e.at)(landing)
        == (d.at)(landing) || (e.at)(dir.push(base + ".conflict"@)) == (d.at)(landing)
}

/// What holds of the disk once a subvolume has been received as `name`.
pub open spec fn delivered(
    d: Disk,
    source: Seq<char>,
    dest: Seq<char>,
    name: Seq<char>,
    base: Seq<char>,
    suffix: Seq<char>,
    e: Disk,
) -> bool {
    let dir = place(dest);
    let target = dir.push(name);
    let landing = dir.push(base);
    let parked = dir.push(base + ".conflict"@);
    &&& d.has_subvolume(source)
    &&& (e.at)(target) == d.on(source)
    &&& (d.at)(target) matches Some(Thing::Subvolume(_)) ==> (e.at)(
        dir.push(name + "."@ + suffix),
    ) is None
    &&& base != name ==> {
        &&& (e.at)(landing) == (d.at)(landing)
        &&& (e.at)(parked) == (if (d.at)(landing) matches Some(Thing::Subvolume(_)) {
            None
        } else {
            (d.at)(parked)
        })
    }
}

proof fn lemma_receiving_as(
    source: Seq<char>,
    parent: Option<Seq<char>>,
    dest: Seq<char>,
    suffix: Seq<char>,
    name: Seq<char>,
    base: Seq<char>,
    log: Log,
    ds: spec_fn(int) -> Disk,
)
    requires
        follows(receiving_as(source, parent, dest, suffix, name, base), log, ds),
        file_name_of(source) == Some(base),
        is_plain(base),
        distinct_names(name, base, suffix),
        lies_apart(source, dest, name, base, suffix),
    ensures
        ({
            let (l, o) = drive(receiving_as(source, parent, dest, suffix, name, base), log);
            let d = now(log, ds);
            &&& extends(log, l)
            &&& throughout(
                receiving_as(source, parent, dest, suffix, name, base),
                log,
                ds,
                |e: Disk| lossless(d, d.on(source), dest, name, base, suffix, e),
            )
            &&& o matches Some(Ok(_)) ==> delivered(d, source, dest, name, base, suffix, now(l, ds))
        }),
{
    broadcast use group_plan;

    reveal(receiving_as);
    let d = now(log, ds);
    let fresh = d.on(source);
    let rename = base != name;
    let inv = |e: Disk| lossless(d, fresh, dest, name, base, suffix, e);
    let plan = receiving_as(source, parent, dest, suffix, name, base);
    let (t, r) = (joined_path(dest, name), joined_path(dest, base));
    lemma_well_placed(dest, name, base, suffix, false, false);
    let second = |aside: bool|
        then(
            if base != name {
                checking_subvolume(joined_path(dest, base))
            } else {
                ok(false)
            },
            |conflict: bool|
                then(
                    making_room(swap_places(dest, name, base, suffix, aside, conflict)),
                    |u: ()|
                        swapping(
                            swap_places(dest, name, base, suffix, aside, conflict),
                            base != name,
                            source,
                            parent,
                            dest,
                        ),
                ),
        );
    lemma_follows_then(checking_subvolume(t), second, log, ds);
    lemma_checking(t, log, ds);
    let (l1, o1) = drive(checking_subvolume(t), log);
    assert forall|i: int| #![trigger ds(i)] log.asked.len() <= i <= l1.asked.len() implies inv(
        ds(i),
    ) by {
        assert(ds(i) == d);
    }
    if let Some(Ok(aside)) = o1 {
        let check = if base != name {
            checking_subvolume(r)
        } else {
            ok(false)
        };
        let third = |conflict: bool|
            then(
                making_room(swap_places(dest, name, base, suffix, aside, conflict)),
                |u: ()|
                    swapping(
                        swap_places(dest, name, base, suffix, aside, conflict),
                        base != name,
                        source,
                        parent,
                        dest,
                    ),
            );
        lemma_follows_then(check, third, l1, ds);
        if rename {
            lemma_checking(r, l1, ds);
        }
        let (l2, o2) = drive(check, l1);
        assert forall|i: int| #![trigger ds(i)] l1.asked.len() <= i <= l2.asked.len() implies inv(
            ds(i),
        ) by {
            assert(ds(i) == d);
        }
        if let Some(Ok(conflict)) = o2 {
            let w = swap_places(dest, name, base, suffix, aside, conflict);
            lemma_well_placed(dest, name, base, suffix, aside, conflict);
            let (old, other) = (d.on(w.target), d.on(w.received));
            lemma_follows_then(
                making_room(w),
                |u: ()| swapping(w, base != name, source, parent, dest),
                l2,
                ds,
            );
            lemma_making_room(w, rename, fresh, l2, ds);
            let (l3, o3) = drive(making_room(w), l2);
            assert forall|i: int|
                #![trigger ds(i)]
                l2.asked.len() <= i <= l3.asked.len() implies inv(ds(i)) by {
                assert(intact(w, d, old, other, fresh, ds(i)));
            }
            if o3 matches Some(Ok(_)) {
                assert(now(l3, ds).on(source) == fresh);
                lemma_swapping(w, rename, source, parent, dest, base, d, old, other, l3, ds);
                let (l4, o4) = drive(swapping(w, rename, source, parent, dest), l3);
                assert forall|i: int|
                    #![trigger ds(i)]
                    l3.asked.len() <= i <= l4.asked.len() implies inv(ds(i)) by {
                    assert(intact(w, d, old, other, fresh, ds(i)));
                }
            }
        }
    }
    assert(throughout(plan, log, ds, inv));
}

/// Creating a directory touches no place below it.
pub(crate) proof fn lemma_ensuring_dir(dest: Seq<char>, log: Log, ds: spec_fn(int) -> Disk)
    requires
        follows(ensuring_dir(dest), log, ds),
    ensures
        extends(log, drive(ensuring_dir(dest), log).0),
        throughout(
            ensuring_dir(dest),
            log,
            ds,
            |e: Disk| e == now(log, ds) || grown(now(log, ds), place(dest), e),
        ),
{
    broadcast use group_plan;

    reveal(ensuring_dir);
    let k = |there: bool|
        if there {
            ok(())
        } else {
            perform(Ask::CreateDirAll(dest))
        };
    lemma_follows_then(present(dest), k, log, ds);
    lemma_present(dest, log, ds);
    let (l1, o1) = drive(present(dest), log);
    if o1 == Some(Ok::<bool, Fault>(false)) {
        let q = Ask::CreateDirAll(dest);
        let f = |e: Option<IoFault>|
            match e {
                None => ok(()),
                Some(e) => fail(Fault::Io(e)),
            };
        lemma_follows_then(attempt(q), f, l1, ds);
        lemma_follows_bind(ask(q), |a: Answer| ok(failure_in(a)), l1, ds);
        lemma_follows_ask(q, l1, ds);
    }
}

/// Sending a subvolume to the place of another is safe: at every moment, also where the run is
/// cut short or anything fails, the old subvolume stands in its place or in the backup place,
/// or the new one has taken its place; and a subvolume that had the name of the received one
/// stands in its place or in the place where it is parked. What stands elsewhere stays as it
/// is. Where the procedure succeeds, the sent content stands in the place, nothing is left of
/// the old subvolume, the parked one stands where it stood, and nothing is left where it was
/// parked.
pub proof fn lemma_replacing_by_send(
    source: Seq<char>,
    parent: Option<Seq<char>>,
    dest: Seq<char>,
    suffix: Seq<char>,
    target_name: Option<Seq<char>>,
    name: Seq<char>,
    base: Seq<char>,
    log: Log,
    ds: spec_fn(int) -> Disk,
)
    requires
        follows(replacing_by_send(source, parent, dest, suffix, target_name), log, ds),
        now(log, ds).on(source) is Some,
        naming(source) == Ok::<Seq<char>, Fault>(base),
        name == (match target_name {
            Some(n) => n,
            None => base,
        }),
        distinct_names(name, base, suffix),
        lies_apart(source, dest, name, base, suffix),
    ensures
        ({
            let plan = replacing_by_send(source, parent, dest, suffix, target_name);
            let (l, o) = drive(plan, log);
            let d = now(log, ds);
            &&& throughout(
                plan,
                log,
                ds,
                |e: Disk| lossless(d, d.on(source), dest, name, base, suffix, e),
            )
            &&& o matches Some(Ok(_)) ==> delivered(d, source, dest, name, base, suffix, now(l, ds))
        }),
{
    broadcast use group_plan;

    reveal(replacing_by_send);
    let plan = replacing_by_send(source, parent, dest, suffix, target_name);
    let d = now(log, ds);
    let inv = |e: Disk| lossless(d, d.on(source), dest, name, base, suffix, e);
    lemma_name_is_plain(source);
    let second = |u: ()|
        match naming(source) {
            Err(e) => fail(e),
            Ok(base) => receiving_as(
                source,
                parent,
                dest,
                suffix,
                match target_name {
                    Some(name) => name,
                    None => base,
                },
                base,
            ),
        };
    lemma_follows_then(ensuring_dir(dest), second, log, ds);
    lemma_ensuring_dir(dest, log, ds);
    let (l1, o1) = drive(ensuring_dir(dest), log);
    let dir = place(dest);
    assert forall|i: int| #![trigger ds(i)] log.asked.len() <= i <= l1.asked.len() implies {
        &&& inv(ds(i))
        &&& forall|n: Seq<char>| (ds(i).at)(#[trigger] dir.push(n)) == (d.at)(dir.push(n))
    } by {
        assert(ds(i) == d || grown(d, dir, ds(i)));
        assert forall|n: Seq<char>| (ds(i).at)(#[trigger] dir.push(n)) == (d.at)(dir.push(n)) by {
            assert(!within(dir, dir.push(n)));
        }
    }
    if o1 matches Some(Ok(_)) {
        let m = now(l1, ds);
        lemma_receiving_as(source, parent, dest, suffix, name, base, l1, ds);
        let l2 = drive(receiving_as(source, parent, dest, suffix, name, base), l1).0;
        assert forall|i: int| #![trigger ds(i)] l1.asked.len() <= i <= l2.asked.len() implies inv(
            ds(i),
        ) by {
            assert(lossless(m, m.on(source), dest, name, base, suffix, ds(i)));
        }
    }
    assert(throughout(plan, log, ds, inv));
}

}
