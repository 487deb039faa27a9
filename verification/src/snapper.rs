//! What a backup with snapper does to the disk.
//!
//! Snapper is a service of its own. [`obeys`] says what it has to do for the backup: it works
//! in its directory only, and a snapshot that it creates has the content of the source.

use crate::backup::{backing_up, mode_text, sending, snapshots_dir};
use crate::btrfs::{checking_subvolume, ensuring_dir, lemma_subvolume_name, naming, subvolume_name};
use crate::command_runner::{complaining, launching, Area};
use crate::config::{Source, Target};
use crate::delivery::{distinct_names, lemma_ensuring_dir};
use crate::disk::{
    apart, follows, grown, lemma_checking, lemma_follows_ask, lemma_follows_bind,
    lemma_follows_then, lemma_looking, lemma_looking_checking, looking, now, place, same_beside,
    within, Disk, Place, Thing,
};
use crate::error::{fault_text, Fault};
use crate::holding::succeeded;
#[allow(unused_imports)]
use crate::journal::{
    ask, drive, fail, group_plan, ok, output_in, run, say, then, Answer, Ask, Log, Printed, Tone,
    TransferStats,
};
use crate::path::{joined_path, lemma_join_below, lemma_joined_name, quoted_path};
use crate::rotation::{
    arranged, elsewhere, left_alone, lemma_sending, local_dir, touched, untouched,
};
use crate::snapshot::{
    cleaning, cleaning_by_snapper, create_call, creating_by_snapper, creating_local,
    creating_manual, creating_with_parent, delete_call, deleting_listed, finding_previous,
    list_call, listed_ids, listing, newest_first, snapper_place, Owned,
};
use crate::sparing::lemma_below_apart;
use crate::text::{decimal, lines_of, lossy_text, not_a_number_text, parsed, trimmed};
use crate::trace::{extends, group_only, lemma_drive_extends, only};
use crate::ui::command_text;
use vstd::prelude::*;

verus! {

/// Snapper does what the backup of a source counts on: listing changes nothing, and creating
/// and deleting change nothing beside its directory. A snapshot that was created stands under
/// its number, with the content of the source.
pub open spec fn obeys(w: Owned, d: Disk, q: Ask, a: Answer, e: Disk) -> bool {
    let home = place(local_dir(w.source));
    match (w.snapper(), q) {
        (Ok(config), Ask::Run(c)) => {
            &&& c == list_call(config) ==> e == d
            &&& forall|id: u64|
                c == #[trigger] delete_call(config, id) ==> same_beside(d, e, home)
            &&& c == create_call(config, w.description()) ==> same_beside(d, e, home)
            &&& c == create_call(config, w.description()) && succeeded(a) && d.has_subvolume(
                w.source.path,
            ) ==> match parsed(trimmed(lossy_text(a->Ran_0.stdout))) {
                Ok(id) => e.on(joined_path(local_dir(w.source), snapper_place(id))) == d.on(
                    w.source.path,
                ),
                Err(_) => true,
            }
        },
        _ => true,
    }
}

/// Snapper does so at every request in the log.
pub open spec fn obedient(w: Owned, log: Log, ds: spec_fn(int) -> Disk) -> bool {
    forall|i: int|
        #![trigger log.asked[i]]
        0 <= i < log.asked.len() ==> obeys(w, ds(i), log.asked[i], log.answers[i], ds(i + 1))
}

pub(crate) proof fn lemma_obedient_earlier(w: Owned, l: Log, m: Log, ds: spec_fn(int) -> Disk)
    requires
        extends(l, m),
        obedient(w, m, ds),
    ensures
        obedient(w, l, ds),
{
    assert forall|i: int| 0 <= i < l.asked.len() implies obeys(
        w,
        ds(i),
        #[trigger] l.asked[i],
        l.answers[i],
        ds(i + 1),
    ) by {
        assert(m.asked[i] == l.asked[i]);
    }
}

/// What one request does.
proof fn lemma_obeying(w: Owned, q: Ask, log: Log, ds: spec_fn(int) -> Disk)
    requires
        follows(ask(q), log, ds),
        obedient(w, drive(ask(q), log).0, ds),
    ensures
        ({
            let (l, o) = drive(ask(q), log);
            &&& extends(log, l)
            &&& o matches Some(a) ==> obeys(w, now(log, ds), q, a, now(l, ds))
        }),
{
    broadcast use group_plan;

    lemma_follows_ask(q, log, ds);
    let (l, o) = drive(ask(q), log);
    if o is Some {
        assert(l.asked[log.asked.len() as int] == q);
    }
}

/// Everything outside the directory is as it was.
proof fn lemma_creating(w: Owned, log: Log, ds: spec_fn(int) -> Disk)
    requires
        follows(creating_by_snapper(w), log, ds),
        obedient(w, drive(creating_by_snapper(w), log).0, ds),
        now(log, ds).has_subvolume(w.source.path),
    ensures
        ({
            let (l, o) = drive(creating_by_snapper(w), log);
            let d = now(log, ds);
            let e = now(l, ds);
            &&& extends(log, l)
            &&& o matches Some(Ok(at)) ==> {
                &&& exists|id: u64| at == #[trigger] snapper_place(id)
                &&& same_beside(d, e, place(local_dir(w.source)))
                &&& e.on(joined_path(local_dir(w.source), at)) == d.on(w.source.path)
            }
        }),
{
    broadcast use {group_plan, group_only};

    reveal(creating_by_snapper);
    let plan = creating_by_snapper(w);
    let whole = drive(plan, log).0;
    lemma_drive_extends(plan, log);
    if let Ok(config) = w.snapper() {
        let c = create_call(config, w.description());
        reveal(launching);
        reveal(complaining);
        let judge = |o: Printed|
            if !o.success {
                complaining(
                    Area::Btrfs,
                    "Failed to create snapper snapshot for config '"@ + config + "': "@,
                    o,
                )
            } else {
                match parsed(trimmed(lossy_text(o.stdout))) {
                    Ok(id) => ok(snapper_place(id)),
                    Err(e) => fail(
                        Fault::Btrfs(
                            "Failed to parse snapshot ID from snapper output '"@ + lossy_text(
                                o.stdout,
                            ) + "': "@ + not_a_number_text(e),
                        ),
                    ),
                }
            };
        let p1 = say(Tone::CmdStart, command_text(c));
        lemma_follows_then(launching(c), judge, log, ds);
        lemma_follows_then(p1, |u: ()| run(c), log, ds);
        lemma_looking(p1, log, ds);
        let (l1, o1) = drive(p1, log);
        if o1 is Some {
            let take = |a: Answer|
                match output_in(a) {
                    Ok(o) => ok(o),
                    Err(e) => fail(Fault::Io(e)),
                };
            lemma_follows_bind(ask(Ask::Run(c)), take, l1, ds);
            let (l2, o2) = drive(ask(Ask::Run(c)), l1);
            lemma_drive_extends(launching(c), log);
            lemma_drive_extends(run(c), l1);
            lemma_obedient_earlier(w, l2, whole, ds);
            lemma_obeying(w, Ask::Run(c), l1, ds);
        }
    }
}

/// Listing the snapshots changes nothing.
proof fn lemma_listing(w: Owned, log: Log, ds: spec_fn(int) -> Disk)
    requires
        follows(listing(w), log, ds),
        obedient(w, drive(listing(w), log).0, ds),
    ensures
        extends(log, drive(listing(w), log).0),
        now(drive(listing(w), log).0, ds) == now(log, ds),
{
    broadcast use {group_plan, group_only};

    reveal(listing);
    let whole = drive(listing(w), log).0;
    lemma_drive_extends(listing(w), log);
    if let Ok(config) = w.snapper() {
        let c = list_call(config);
        let judge = |o: Printed|
            if o.success {
                ok(
                    listed_ids(
                        lines_of(lossy_text(o.stdout)),
                        w.description(),
                    ).sort_by(newest_first()),
                )
            } else {
                fail(
                    Fault::Btrfs(
                        "Failed to list snapper snapshots for config '"@ + config + "': "@
                            + lossy_text(o.stderr),
                    ),
                )
            };
        lemma_follows_then(run(c), judge, log, ds);
        let take = |a: Answer|
            match output_in(a) {
                Ok(o) => ok(o),
                Err(e) => fail(Fault::Io(e)),
            };
        lemma_follows_bind(ask(Ask::Run(c)), take, log, ds);
        let (l1, o1) = drive(ask(Ask::Run(c)), log);
        lemma_drive_extends(run(c), log);
        lemma_obedient_earlier(w, l1, whole, ds);
        lemma_obeying(w, Ask::Run(c), log, ds);
    }
}

/// Looking for the snapshot before changes nothing.
proof fn lemma_finding_previous(w: Owned, dir: Seq<char>, log: Log, ds: spec_fn(int) -> Disk)
    requires
        follows(finding_previous(w, dir), log, ds),
        obedient(w, drive(finding_previous(w, dir), log).0, ds),
    ensures
        extends(log, drive(finding_previous(w, dir), log).0),
        now(drive(finding_previous(w, dir), log).0, ds) == now(log, ds),
{
    broadcast use {group_plan, group_only, lemma_looking_checking};

    reveal(finding_previous);
    let plan = finding_previous(w, dir);
    let whole = drive(plan, log).0;
    lemma_drive_extends(plan, log);
    let k = |ids: Seq<u64>|
        if ids.len() >= 2 {
            let path = joined_path(dir, snapper_place(ids[1]));
            then(
                checking_subvolume(path),
                |there: bool|
                    if there {
                        then(
                            say(Tone::Detail, "Found previous snapper snapshot at: "@ + path),
                            |u: ()| ok(Some(path)),
                        )
                    } else {
                        then(
                            say(
                                Tone::Warning,
                                "Previous snapper snapshot path is not a subvolume: "@ + path,
                            ),
                            |u: ()| ok(None),
                        )
                    },
            )
        } else {
            then(
                say(
                    Tone::Detail,
                    "No previous snapper snapshot found for incremental backup"@,
                ),
                |u: ()| ok(None),
            )
        };
    lemma_follows_then(listing(w), k, log, ds);
    let (l1, o1) = drive(listing(w), log);
    lemma_drive_extends(listing(w), log);
    lemma_obedient_earlier(w, l1, whole, ds);
    lemma_listing(w, log, ds);
    if let Some(Ok(ids)) = o1 {
        assert(only(k(ids), looking()));
        lemma_looking(k(ids), l1, ds);
    }
}

/// What is known of a snapshot that snapper has made: it stands in the directory, under its own
/// name, and has the content of the source.
pub open spec fn made_by_snapper(w: Owned, path: Seq<char>, d: Disk, e: Disk) -> bool {
    &&& within(place(path), place(local_dir(w.source)))
    &&& naming(path) == Ok::<Seq<char>, Fault>("snapshot"@)
    &&& d.has_subvolume(w.source.path)
    &&& e.on(path) == d.on(w.source.path)
}

/// Where snapper keeps a snapshot.
pub(crate) proof fn lemma_snapper_place(dir: Seq<char>, id: u64)
    ensures
        ({
            let path = joined_path(dir, snapper_place(id));
            &&& within(place(path), place(dir))
            &&& naming(path) == Ok::<Seq<char>, Fault>("snapshot"@)
        }),
{
    let n = decimal(id as nat);
    reveal_strlit("/snapshot");
    reveal_strlit("snapshot");
    reveal_strlit("/");
    reveal_strlit(".");
    reveal_strlit("..");
    lemma_decimal_ends(id as nat);
    assert(snapper_place(id)[0] == n[0]);
    lemma_join_below(dir, snapper_place(id));
    let below = joined_path(dir, n);
    assert(below.last() == n.last());
    assert("/snapshot"@ =~= "/"@ + "snapshot"@);
    assert(joined_path(dir, snapper_place(id)) =~= joined_path(below, "snapshot"@));
    assert(!"snapshot"@.contains('/'));
    assert("snapshot"@.len() == 8);
    lemma_joined_name(below, "snapshot"@);
}

/// A number is written with digits.
proof fn lemma_decimal_ends(n: nat)
    ensures
        decimal(n).len() > 0,
        decimal(n)[0] != '/',
        decimal(n).last() != '/',
    decreases n,
{
    if n >= 10 {
        lemma_decimal_ends(n / 10);
    }
}

/// Creating a local snapshot with snapper.
proof fn lemma_creating_by_snapper(w: Owned, log: Log, ds: spec_fn(int) -> Disk)
    requires
        follows(creating_local(w), log, ds),
        obedient(w, drive(creating_local(w), log).0, ds),
        w.source.use_snapper,
        !within(place(w.source.path), place(local_dir(w.source))),
    ensures
        ({
            let (l, o) = drive(creating_local(w), log);
            let d = now(log, ds);
            let e = now(l, ds);
            let home = place(local_dir(w.source));
            &&& extends(log, l)
            &&& o matches Some(Ok(made)) ==> {
                &&& made_by_snapper(w, made.0, d, e)
                &&& forall|x: Place|
                    #![trigger (e.at)(x)]
                    !within(x, home) ==> {
                        &&& (d.at)(x) is Some ==> (e.at)(x) == (d.at)(x)
                        &&& (d.at)(x) is None ==> !((e.at)(x) matches Some(Thing::Subvolume(_)))
                        &&& (d.at)(x) is None && !within(home, x) ==> (e.at)(x) is None
                    }
            }
        }),
{
    broadcast use {group_plan, group_only};

    reveal(creating_local);
    reveal(creating_with_parent);
    let dir = local_dir(w.source);
    let plan = creating_local(w);
    let whole = drive(plan, log).0;
    let d = now(log, ds);
    let make = |u: ()|
        if w.source.use_snapper {
            creating_with_parent(w, dir)
        } else {
            creating_manual(w.source, w.source.path, dir, w.config)
        };
    let k = |there: bool|
        if !there {
            fail(
                Fault::Btrfs(
                    "Source path is not a btrfs subvolume: "@ + quoted_path(w.source.path),
                ),
            )
        } else {
            then(ensuring_dir(dir), make)
        };
    let finish = |at: Seq<char>|
        then(
            checking_subvolume(joined_path(dir, at)),
            |there: bool|
                if !there {
                    fail(
                        Fault::Btrfs(
                            "Snapper snapshot not found or not a subvolume: "@ + joined_path(
                                dir,
                                at,
                            ),
                        ),
                    )
                } else {
                    then(
                        say(Tone::Detail, "Using snapper snapshot at: "@ + joined_path(dir, at)),
                        |u: ()|
                            then(
                                finding_previous(w, dir),
                                |parent: Option<Seq<char>>| ok((joined_path(dir, at), parent)),
                            ),
                    )
                },
        );
    lemma_drive_extends(plan, log);
    lemma_follows_then(checking_subvolume(w.source.path), k, log, ds);
    lemma_checking(w.source.path, log, ds);
    let (l1, o1) = drive(checking_subvolume(w.source.path), log);
    if o1 == Some(Ok::<bool, Fault>(true)) {
        lemma_follows_then(ensuring_dir(dir), make, l1, ds);
        lemma_ensuring_dir(dir, l1, ds);
        let (l2, o2) = drive(ensuring_dir(dir), l1);
        if o2 matches Some(Ok(_)) {
            let m = now(l2, ds);
            assert(m == d || grown(d, place(dir), m));
            assert(m.on(w.source.path) == d.on(w.source.path));
            lemma_follows_then(creating_by_snapper(w), finish, l2, ds);
            let (l3, o3) = drive(creating_by_snapper(w), l2);
            lemma_drive_extends(creating_by_snapper(w), l2);
            lemma_obedient_earlier(w, l3, whole, ds);
            lemma_creating(w, l2, ds);
            if let Some(Ok(at)) = o3 {
                let id = choose|id: u64| at == #[trigger] snapper_place(id);
                lemma_snapper_place(dir, id);
                let path = joined_path(dir, at);
                let told = say(Tone::Detail, "Using snapper snapshot at: "@ + path);
                let look = |u: ()|
                    then(
                        finding_previous(w, dir),
                        |parent: Option<Seq<char>>| ok((path, parent)),
                    );
                let check = |there: bool|
                    if !there {
                        fail(
                            Fault::Btrfs(
                                "Snapper snapshot not found or not a subvolume: "@ + path,
                            ),
                        )
                    } else {
                        then(told, look)
                    };
                lemma_follows_then(checking_subvolume(path), check, l3, ds);
                lemma_checking(path, l3, ds);
                let (l4, o4) = drive(checking_subvolume(path), l3);
                if o4 == Some(Ok::<bool, Fault>(true)) {
                    lemma_follows_then(told, look, l4, ds);
                    lemma_looking(told, l4, ds);
                    let (l5, o5) = drive(told, l4);
                    if o5 is Some {
                        lemma_follows_then(
                            finding_previous(w, dir),
                            |parent: Option<Seq<char>>| ok((path, parent)),
                            l5,
                            ds,
                        );
                        let l6 = drive(finding_previous(w, dir), l5).0;
                        lemma_drive_extends(finding_previous(w, dir), l5);
                        lemma_obedient_earlier(w, l6, whole, ds);
                        lemma_finding_previous(w, dir, l5, ds);
                    }
                }
            }
        }
    }
}

/// Deleting snapshots changes nothing beside the directory.
proof fn lemma_deleting_listed(
    w: Owned,
    config: Seq<char>,
    ids: Seq<u64>,
    i: int,
    log: Log,
    ds: spec_fn(int) -> Disk,
)
    requires
        follows(deleting_listed(config, ids, i), log, ds),
        obedient(w, drive(deleting_listed(config, ids, i), log).0, ds),
        w.snapper() == Ok::<Seq<char>, Fault>(config),
    ensures
        extends(log, drive(deleting_listed(config, ids, i), log).0),
        same_beside(
            now(log, ds),
            now(drive(deleting_listed(config, ids, i), log).0, ds),
            place(local_dir(w.source)),
        ),
    decreases ids.len() - i,
{
    broadcast use {group_plan, group_only};

    let plan = deleting_listed(config, ids, i);
    let whole = drive(plan, log).0;
    lemma_drive_extends(plan, log);
    if 0 <= i < ids.len() {
        let c = delete_call(config, ids[i]);
        let p1 = say(Tone::Detail, "Deleting old snapper snapshot #"@ + decimal(ids[i] as nat));
        let next = |u: ()| deleting_listed(config, ids, i + 1);
        let tell = |o: Printed|
            if o.success {
                ok(())
            } else {
                say(
                    Tone::Warning,
                    "Failed to delete snapper snapshot #"@ + decimal(ids[i] as nat) + ": "@
                        + lossy_text(o.stderr),
                )
            };
        let judge = |o: Printed|
            then(
                if o.success {
                    ok(())
                } else {
                    say(
                        Tone::Warning,
                        "Failed to delete snapper snapshot #"@ + decimal(ids[i] as nat) + ": "@
                            + lossy_text(o.stderr),
                    )
                },
                next,
            );
        lemma_follows_then(p1, |u: ()| then(run(c), judge), log, ds);
        lemma_looking(p1, log, ds);
        let (l1, o1) = drive(p1, log);
        if o1 is Some {
            lemma_follows_then(run(c), judge, l1, ds);
            let take = |a: Answer|
                match output_in(a) {
                    Ok(o) => ok(o),
                    Err(e) => fail(Fault::Io(e)),
                };
            lemma_follows_bind(ask(Ask::Run(c)), take, l1, ds);
            let (l2, o2) = drive(ask(Ask::Run(c)), l1);
            lemma_drive_extends(run(c), l1);
            lemma_obedient_earlier(w, l2, whole, ds);
            lemma_obeying(w, Ask::Run(c), l1, ds);
            if let (l3, Some(Ok(o))) = drive(run(c), l1) {
                lemma_follows_then(tell(o), next, l3, ds);
                lemma_looking(tell(o), l3, ds);
                let (l4, o4) = drive(tell(o), l3);
                if o4 is Some {
                    lemma_deleting_listed(w, config, ids, i + 1, l4, ds);
                }
            }
        }
    }
}

/// Cleaning up changes nothing beside the directory.
proof fn lemma_cleaning(w: Owned, log: Log, ds: spec_fn(int) -> Disk)
    requires
        follows(cleaning_by_snapper(w), log, ds),
        obedient(w, drive(cleaning_by_snapper(w), log).0, ds),
    ensures
        extends(log, drive(cleaning_by_snapper(w), log).0),
        same_beside(
            now(log, ds),
            now(drive(cleaning_by_snapper(w), log).0, ds),
            place(local_dir(w.source)),
        ),
{
    broadcast use {group_plan, group_only};

    reveal(cleaning_by_snapper);
    let plan = cleaning_by_snapper(w);
    let whole = drive(plan, log).0;
    lemma_drive_extends(plan, log);
    if let Ok(config) = w.snapper() {
        let k = |r: Result<Seq<u64>, Fault>|
            match r {
                Ok(ids) => deleting_listed(config, ids, 1),
                Err(e) => say(
                    Tone::Warning,
                    "Failed to list snapper snapshots for cleanup: "@ + fault_text(e),
                ),
            };
        lemma_follows_bind(listing(w), k, log, ds);
        let (l1, o1) = drive(listing(w), log);
        lemma_drive_extends(listing(w), log);
        lemma_obedient_earlier(w, l1, whole, ds);
        lemma_listing(w, log, ds);
        match o1 {
            Some(Ok(ids)) => {
                lemma_deleting_listed(w, config, ids, 1, l1, ds);
            },
            Some(Err(e)) => {
                lemma_looking(k(Err(e)), l1, ds);
            },
            None => {},
        }
    }
}

/// The name of a snapshot that snapper made collides with none on the target.
proof fn lemma_snapper_names(path: Seq<char>)
    ensures
        distinct_names(subvolume_name(path), "snapshot"@, "old"@),
{
    let name = subvolume_name(path);
    lemma_subvolume_name(path);
    reveal_strlit("_vol");
    reveal_strlit("snapshot");
    reveal_strlit("old");
    reveal_strlit(".");
    reveal_strlit(".conflict");
    assert("_vol"@ == name.subrange(name.len() - 4, name.len() as int));
    assert(name.last() == "_vol"@[3]);
    assert((name + "."@ + "old"@).last() == 'd');
    assert("snapshot"@.last() == 't');
    assert(("snapshot"@ + ".conflict"@).last() == 't');
}

/// Backing up a source with snapper, where it obeys: where the procedure succeeds, the target
/// holds the content of the source, and what stands elsewhere stays as it is.
pub proof fn lemma_backing_up_by_snapper(
    source: Source,
    target: Target,
    mount: Seq<char>,
    config: Seq<char>,
    log: Log,
    ds: spec_fn(int) -> Disk,
)
    requires
        follows(backing_up(source, target, mount, config), log, ds),
        obedient(
            Owned { source, config },
            drive(backing_up(source, target, mount, config), log).0,
            ds,
        ),
        source.use_snapper,
        arranged(source, target, mount, config),
    ensures
        ({
            let (l, o) = drive(backing_up(source, target, mount, config), log);
            let d = now(log, ds);
            let e = now(l, ds);
            let dir = place(snapshots_dir(target, mount));
            o matches Some(Ok(_)) ==> {
                &&& d.has_subvolume(source.path)
                &&& (e.at)(dir.push(subvolume_name(source.path))) == d.on(source.path)
                &&& left_alone(source, target, mount, config, d, e)
            }
        }),
{
    broadcast use {group_plan, group_only};

    reveal(backing_up);
    let plan = backing_up(source, target, mount, config);
    let whole = drive(plan, log).0;
    let w = Owned { source, config };
    let d = now(log, ds);
    let dir = place(snapshots_dir(target, mount));
    let home = place(local_dir(source));
    let name = subvolume_name(source.path);
    let p1 = say(Tone::Substep, "Creating local snapshot"@);
    let rest2 = |made: (Seq<char>, Option<Seq<char>>)|
        then(
            say(Tone::Substep, "Sending snapshot to target ("@ + mode_text(made.1) + ")"@),
            |u: ()|
                then(
                    sending(source, target, made.0, made.1, mount),
                    |stats: TransferStats|
                        then(
                            say(Tone::Substep, "Cleaning up old snapshots"@),
                            |u: ()| then(cleaning(w, made.1), |u: ()| ok(stats)),
                        ),
                ),
        );
    lemma_drive_extends(plan, log);
    lemma_follows_then(p1, |u: ()| then(creating_local(w), rest2), log, ds);
    lemma_looking(p1, log, ds);
    let (l1, o1) = drive(p1, log);
    if o1 is Some {
        lemma_follows_then(creating_local(w), rest2, l1, ds);
        let (l2, o2) = drive(creating_local(w), l1);
        lemma_drive_extends(creating_local(w), l1);
        lemma_obedient_earlier(w, l2, whole, ds);
        lemma_creating_by_snapper(w, l1, ds);
        if let Some(Ok(made)) = o2 {
            let d2 = now(l2, ds);
            let p3 = say(
                Tone::Substep,
                "Sending snapshot to target ("@ + mode_text(made.1) + ")"@,
            );
            let send = sending(source, target, made.0, made.1, mount);
            let finish = |stats: TransferStats|
                then(
                    say(Tone::Substep, "Cleaning up old snapshots"@),
                    |u: ()| then(cleaning(w, made.1), |u: ()| ok(stats)),
                );
            lemma_follows_then(p3, |u: ()| then(send, finish), l2, ds);
            lemma_looking(p3, l2, ds);
            let (l3, o3) = drive(p3, l2);
            if o3 is Some {
                lemma_follows_then(send, finish, l3, ds);
                lemma_snapper_names(source.path);
                lemma_home_untouched(dir, home, place(made.0), name, "snapshot"@);
                lemma_sending(source, target, mount, made.0, "snapshot"@, made.1, l3, ds);
                let (l4, o4) = drive(send, l3);
                if let Some(Ok(stats)) = o4 {
                    let d4 = now(l4, ds);
                    let p5 = say(Tone::Substep, "Cleaning up old snapshots"@);
                    let clean = |u: ()| then(cleaning(w, made.1), |u: ()| ok(stats));
                    lemma_follows_then(p5, clean, l4, ds);
                    lemma_looking(p5, l4, ds);
                    let (l5, o5) = drive(p5, l4);
                    if o5 is Some {
                        lemma_follows_then(cleaning(w, made.1), |u: ()| ok(stats), l5, ds);
                        let (l6, o6) = drive(cleaning(w, made.1), l5);
                        lemma_drive_extends(cleaning(w, made.1), l5);
                        lemma_obedient_earlier(w, l6, whole, ds);
                        reveal(cleaning);
                        lemma_cleaning(w, l5, ds);
                        lemma_target_not_home(dir, home, name);
                        let e = now(l6, ds);
                        assert(untouched(dir, name, "snapshot"@, d2, d4));
                        assert forall|x: Place|
                            #![trigger (e.at)(x)]
                            elsewhere(source, target, mount, config, x) implies {
                            &&& (d.at)(x) is Some ==> (e.at)(x) == (d.at)(x)
                            &&& (d.at)(x) is None ==> !((e.at)(x) matches Some(
                                Thing::Subvolume(_),
                            ))
                            &&& (d.at)(x) is None && !within(home, x) && !within(dir, x) ==> (e.at)(
                                x,
                            ) is None
                        } by {
                            assert((e.at)(x) == (d4.at)(x));
                            assert((d2.at)(x) is Some ==> (d4.at)(x) == (d2.at)(x));
                        }
                    }
                }
            }
        }
    }
}

/// What lies in a directory apart from the target is not touched by the transfer.
proof fn lemma_home_untouched(
    dir: Place,
    home: Place,
    x: Place,
    name: Seq<char>,
    base: Seq<char>,
)
    requires
        apart(home, dir),
        within(x, home),
    ensures
        !touched(dir, name, base, x),
{
    lemma_target_not_home(dir, home, name);
    lemma_below_apart(x, home, dir);
    assert forall|n: Seq<char>| !within(x, #[trigger] dir.push(n)) by {
        let y = dir.push(n);
        if within(x, y) {
            assert(within(x, dir)) by {
                assert(y.take(dir.len() as int) =~= dir);
                assert(x.take(dir.len() as int) =~= dir);
            }
        }
    }
}

/// The target does not lie in a directory apart from it.
proof fn lemma_target_not_home(dir: Place, home: Place, name: Seq<char>)
    requires
        apart(home, dir),
    ensures
        !within(dir.push(name), home),
{
    let y = dir.push(name);
    assert(within(y, dir)) by {
        assert(y.take(dir.len() as int) =~= dir);
    }
    lemma_below_apart(y, dir, home);
}

}
