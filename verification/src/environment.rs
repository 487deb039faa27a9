//! What happens to the live boot environment.

use crate::backup::{snapshots_dir, updating_subvolume, updating_subvolumes};
use crate::btrfs::{
    backup_place, checking_subvolume, create_call, creating_subvolume, lemma_subvolume_name,
    new_place, place_of, replacing_by_snapshot, subvolume_name,
};
use crate::command_runner::{commanding, complaining, launching, querying, Area};
use crate::config::{LiveBoot, Setup, Target};
use crate::delivery::lemma_longer_name;
use crate::disk::{
    all_or_nothing, apart, follows, kept, lemma_apart_siblings, lemma_checking, lemma_commanding,
    lemma_follows_then, lemma_looking, lemma_present, lemma_replacing_by_snapshot, now, place,
    replaced, same_beside, same_beside_all, throughout, within, Disk, Place, Thing,
};
use crate::error::Fault;
#[allow(unused_imports)]
use crate::journal::{drive, group_plan, ok, present, say, then, Answer, Ask, Call, Log, Tone};
use crate::liveboot::{
    creating_entry, finding_luks, finding_luks_uuid, finding_root, installing_bootloader,
    preparing_live_boot, providing_subvolume, resolving_target, setting_up_boot,
};
use crate::path::{
    components_of, is_absolute, is_plain, joined_path, lemma_join_adds_component, lemma_joined_name,
    lemma_parent_and_name, parent_of,
};
use crate::sparing::{lemma_away, lemma_away_boot, lemma_below_apart};
use crate::trace::{extends, group_only, lemma_drive_extends, lemma_only, only, settled};
use vstd::prelude::*;

verus! {

/// A joined path can be taken apart again.
proof fn lemma_joined_place(dir: Seq<char>, name: Seq<char>)
    requires
        is_plain(name),
        name != ".."@,
    ensures
        place_of(joined_path(dir, name)) == Ok::<(Seq<char>, Seq<char>), Fault>(
            (parent_of(joined_path(dir, name))->0, name),
        ),
{
    lemma_joined_name(dir, name);
    lemma_join_adds_component(dir, name);
    let path = joined_path(dir, name);
    reveal_strlit("/");
    if name == "/"@ {
        assert(name.contains(name[0]));
    }
    assert(components_of(path).last() == name);
    assert(parent_of(path) is Some);
}

/// Bringing a live subvolume up to date is safe: at every moment its old content stands in its
/// place or beside it, or the content of the snapshot has taken its place. Where the procedure
/// succeeds, the live subvolume has the content of the snapshot, and nothing is left beside it.
///
/// Nothing must be left of an earlier run at the place where the replacement is prepared.
pub proof fn lemma_updating_subvolume(
    live_boot_path: Seq<char>,
    snapshot: Seq<char>,
    name: Seq<char>,
    log: Log,
    ds: spec_fn(int) -> Disk,
)
    requires
        follows(updating_subvolume(live_boot_path, snapshot, name), log, ds),
        is_plain(name),
        name != ".."@,
        now(log, ds).on(joined_path(live_boot_path, name)) != Some(Thing::Other),
        now(log, ds).on(
            new_place(parent_of(joined_path(live_boot_path, name))->0, name),
        ) is None,
    ensures
        ({
            let (l, o) = drive(updating_subvolume(live_boot_path, snapshot, name), log);
            let d = now(log, ds);
            let target = joined_path(live_boot_path, name);
            let dir = parent_of(target)->0;
            &&& throughout(
                updating_subvolume(live_boot_path, snapshot, name),
                log,
                ds,
                |e: Disk|
                    kept(
                        place(target),
                        place(backup_place(dir, name, "old"@)),
                        d.on(target),
                        d.on(snapshot),
                        e,
                    ),
            )
            &&& o matches Some(Ok(_)) ==> replaced(
                d,
                target,
                new_place(dir, name),
                backup_place(dir, name, "old"@),
                d.on(snapshot),
                now(l, ds),
            )
        }),
{
    broadcast use {group_plan, group_only};

    reveal(updating_subvolume);
    let target = joined_path(live_boot_path, name);
    lemma_joined_place(live_boot_path, name);
    let dir = parent_of(target)->0;
    reveal_strlit("old");
    reveal_strlit("new");
    assert("old"@[0] != "new"@[0]);
    let p1 = replacing_by_snapshot(target, snapshot, "old"@);
    let msg = say(Tone::Detail, "Updated subvolume "@ + name + " with latest snapshot"@);
    lemma_follows_then(p1, |u: ()| msg, log, ds);
    lemma_replacing_by_snapshot(target, snapshot, "old"@, dir, name, log, ds);
    let (l1, o1) = drive(p1, log);
    if o1 matches Some(Ok(_)) {
        lemma_looking(msg, l1, ds);
    }
}

/// Where the live subvolumes are.
pub open spec fn live_place(c: Setup, mount: Seq<char>) -> Place {
    place(joined_path(mount, c.target.live_root()))
}

/// The snapshot on the target that stands for a source.
pub open spec fn snapshot_of(c: Setup, mount: Seq<char>, path: Seq<char>) -> Seq<char> {
    joined_path(snapshots_dir(c.target, mount), subvolume_name(path))
}

/// The live subvolumes of the sources from `i` on can be replaced: nothing but a subvolume
/// stands in their place, and nothing where the replacements are prepared.
pub open spec fn replaceable(c: Setup, mount: Seq<char>, i: int, d: Disk) -> bool {
    forall|j: int|
        i <= j < c.sources.len() ==> {
            let name = subvolume_name((#[trigger] c.sources[j]).path);
            &&& (d.at)(live_place(c, mount).push(name)) != Some(Thing::Other)
            &&& (d.at)(live_place(c, mount).push(name + ".new"@)) is None
        }
}

/// The live subvolumes of the sources before `i` have the content that their snapshots have on
/// the disk `d`, where there are any.
pub open spec fn followed(c: Setup, mount: Seq<char>, i: int, d: Disk, e: Disk) -> bool {
    forall|j: int|
        0 <= j < i ==> {
            let path = (#[trigger] c.sources[j]).path;
            d.has_subvolume(snapshot_of(c, mount, path)) ==> (e.at)(
                live_place(c, mount).push(subvolume_name(path)),
            ) == d.on(snapshot_of(c, mount, path))
        }
}

/// The snapshots on the target are those on the disk `d`.
pub open spec fn same_snapshots(c: Setup, mount: Seq<char>, d: Disk, e: Disk) -> bool {
    forall|j: int|
        0 <= j < c.sources.len() ==> {
            let snapshot = snapshot_of(c, mount, (#[trigger] c.sources[j]).path);
            d.has_subvolume(snapshot) ==> e.on(snapshot) == d.on(snapshot)
        }
}

/// The names of subvolumes and the names beside them differ.
proof fn lemma_names_differ(a: Seq<char>, b: Seq<char>)
    requires
        "_vol"@.is_suffix_of(a),
        "_vol"@.is_suffix_of(b),
    ensures
        a != b + ".new"@,
        a != b + "."@ + "old"@,
        a + ".new"@ != b + "."@ + "old"@,
        a + ".new"@ != b,
        a + ".new"@ == b + ".new"@ ==> a == b,
        a != ".."@,
{
    reveal_strlit("_vol");
    reveal_strlit(".new");
    reveal_strlit(".");
    reveal_strlit("old");
    reveal_strlit("..");
    assert("_vol"@ == a.subrange(a.len() - 4, a.len() as int));
    assert("_vol"@ == b.subrange(b.len() - 4, b.len() as int));
    assert(a.last() == "_vol"@[3] && b.last() == "_vol"@[3]);
    assert((a + ".new"@).last() == 'w' && (b + ".new"@).last() == 'w');
    assert((b + "."@ + "old"@).last() == 'd');
    if a + ".new"@ == b + ".new"@ {
        assert((a + ".new"@).take(a.len() as int) =~= a);
        assert((b + ".new"@).take(b.len() as int) =~= b);
    }
}

/// What the replacement of one live subvolume does to the others.
proof fn lemma_following_one(
    c: Setup,
    mount: Seq<char>,
    i: int,
    d: Disk,
    m: Disk,
    e: Disk,
    dir: Seq<char>,
)
    requires
        0 <= i < c.sources.len(),
        apart(live_place(c, mount), place(snapshots_dir(c.target, mount))),
        replaceable(c, mount, i, m),
        followed(c, mount, i, d, m),
        same_snapshots(c, mount, d, m),
        place(dir) == live_place(c, mount),
        ({
            let name = subvolume_name(c.sources[i].path);
            replaced(
                m,
                joined_path(joined_path(mount, c.target.live_root()), name),
                new_place(dir, name),
                backup_place(dir, name, "old"@),
                m.on(snapshot_of(c, mount, c.sources[i].path)),
                e,
            )
        }),
    ensures
        replaceable(c, mount, i + 1, e),
        followed(c, mount, i + 1, d, e),
        same_snapshots(c, mount, d, e),
{
    let live = live_place(c, mount);
    let root = joined_path(mount, c.target.live_root());
    let store = place(snapshots_dir(c.target, mount));
    let path = c.sources[i].path;
    let name = subvolume_name(path);
    lemma_subvolume_name(path);
    lemma_join_adds_component(root, name);
    lemma_beside(dir, name);
    let (t, n, b) = (live.push(name), live.push(name + ".new"@), live.push(name + "."@ + "old"@));
    assert(same_beside_all(m, e, t, n, b));
    assert forall|j: int| 0 <= j < c.sources.len() implies {
        let snapshot = snapshot_of(c, mount, (#[trigger] c.sources[j]).path);
        d.has_subvolume(snapshot) ==> e.on(snapshot) == d.on(snapshot)
    } by {
        let other = subvolume_name(c.sources[j].path);
        lemma_subvolume_name(c.sources[j].path);
        lemma_join_adds_component(snapshots_dir(c.target, mount), other);
        let x = store.push(other);
        assert(within(x, store)) by {
            assert(x.take(store.len() as int) =~= store);
        }
        lemma_apart_below(x, store, live, name);
        lemma_apart_below(x, store, live, name + ".new"@);
        lemma_apart_below(x, store, live, name + "."@ + "old"@);
    }
    assert forall|j: int| i + 1 <= j < c.sources.len() implies {
        let next = subvolume_name((#[trigger] c.sources[j]).path);
        &&& (e.at)(live.push(next)) != Some(Thing::Other)
        &&& (e.at)(live.push(next + ".new"@)) is None
    } by {
        let next = subvolume_name(c.sources[j].path);
        lemma_subvolume_name(c.sources[j].path);
        lemma_names_differ(next, name);
        lemma_apart_siblings(live, next, name + ".new"@);
        lemma_apart_siblings(live, next, name + "."@ + "old"@);
        lemma_apart_siblings(live, next + ".new"@, name);
        lemma_apart_siblings(live, next + ".new"@, name + "."@ + "old"@);
        if next != name {
            lemma_apart_siblings(live, next, name);
            lemma_apart_siblings(live, next + ".new"@, name + ".new"@);
        }
    }
    assert forall|j: int| 0 <= j < i + 1 implies {
        let path = (#[trigger] c.sources[j]).path;
        d.has_subvolume(snapshot_of(c, mount, path)) ==> (e.at)(
            live.push(subvolume_name(path)),
        ) == d.on(snapshot_of(c, mount, path))
    } by {
        let before = subvolume_name(c.sources[j].path);
        lemma_subvolume_name(c.sources[j].path);
        lemma_names_differ(before, name);
        lemma_apart_siblings(live, before, name + ".new"@);
        lemma_apart_siblings(live, before, name + "."@ + "old"@);
        if before != name {
            lemma_apart_siblings(live, before, name);
        }
    }
}

/// What lies in `store` is not below a place in `live`, where the two are apart.
proof fn lemma_apart_below(x: Place, store: Place, live: Place, name: Seq<char>)
    requires
        within(x, store),
        apart(live, store),
    ensures
        !within(x, live.push(name)),
{
    let y = live.push(name);
    assert(within(y, live)) by {
        assert(y.take(live.len() as int) =~= live);
    }
    lemma_below_apart(y, live, store);
    lemma_below_apart(x, store, y);
}

/// The places beside a subvolume.
proof fn lemma_beside(dir: Seq<char>, name: Seq<char>)
    requires
        is_plain(name),
    ensures
        place(new_place(dir, name)) == place(dir).push(name + ".new"@),
        place(backup_place(dir, name, "old"@)) == place(dir).push(name + "."@ + "old"@),
{
    reveal_strlit(".new");
    reveal_strlit(".");
    reveal_strlit("old");
    lemma_longer_name(name, ".new"@);
    lemma_longer_name(name, "."@ + "old"@);
    assert(name + "."@ + "old"@ =~= name + ("."@ + "old"@));
    lemma_join_adds_component(dir, name + ".new"@);
    lemma_join_adds_component(dir, name + "."@ + "old"@);
}

#[verifier::rlimit(40)]
proof fn lemma_following(
    c: Setup,
    mount: Seq<char>,
    i: int,
    d: Disk,
    log: Log,
    ds: spec_fn(int) -> Disk,
)
    requires
        follows(updating_subvolumes(c, mount, i), log, ds),
        0 <= i <= c.sources.len(),
        apart(live_place(c, mount), place(snapshots_dir(c.target, mount))),
        replaceable(c, mount, i, now(log, ds)),
        followed(c, mount, i, d, now(log, ds)),
        same_snapshots(c, mount, d, now(log, ds)),
    ensures
        ({
            let (l, o) = drive(updating_subvolumes(c, mount, i), log);
            o matches Some(Ok(_)) ==> followed(
                c,
                mount,
                c.sources.len() as int,
                d,
                now(l, ds),
            ) && same_snapshots(c, mount, d, now(l, ds))
        }),
    decreases c.sources.len() - i,
{
    broadcast use {group_plan, group_only};

    if i < c.sources.len() {
        let path = c.sources[i].path;
        let name = subvolume_name(path);
        let root = joined_path(mount, c.target.live_root());
        let snapshot = snapshot_of(c, mount, path);
        let next = |u: ()| updating_subvolumes(c, mount, i + 1);
        let missing = say(
            Tone::Warning,
            "Snapshot subvolume not found at "@ + snapshot + ", skipping live update for "@ + path,
        );
        let update = |there: bool|
            then(
                if there {
                    updating_subvolume(root, snapshot, name)
                } else {
                    missing
                },
                next,
            );
        let p1 = say(Tone::Substep, "Updating live subvolume: "@ + name);
        lemma_follows_then(p1, |u: ()| then(checking_subvolume(snapshot), update), log, ds);
        lemma_looking(p1, log, ds);
        let (l1, o1) = drive(p1, log);
        if o1 is Some {
            lemma_follows_then(checking_subvolume(snapshot), update, l1, ds);
            lemma_checking(snapshot, l1, ds);
            let (l2, o2) = drive(checking_subvolume(snapshot), l1);
            if let Some(Ok(there)) = o2 {
                let m = now(l2, ds);
                if there {
                    let work = updating_subvolume(root, snapshot, name);
                    lemma_follows_then(work, next, l2, ds);
                    lemma_subvolume_name(path);
                    lemma_names_differ(name, name);
                    lemma_joined_place(root, name);
                    lemma_join_adds_component(root, name);
                    let target = joined_path(root, name);
                    let dir = parent_of(target)->0;
                    lemma_parent_and_name(target);
                    assert(place(dir).push(name).drop_last() =~= place(dir));
                    assert(place(root).push(name).drop_last() =~= place(root));
                    assert(place(dir) == live_place(c, mount));
                    lemma_beside(dir, name);
                    lemma_updating_subvolume(root, snapshot, name, l2, ds);
                    let (l3, o3) = drive(work, l2);
                    if o3 matches Some(Ok(_)) {
                        lemma_following_one(c, mount, i, d, m, now(l3, ds), dir);
                        lemma_following(c, mount, i + 1, d, l3, ds);
                    }
                } else {
                    lemma_follows_then(missing, next, l2, ds);
                    lemma_looking(missing, l2, ds);
                    let (l3, o3) = drive(missing, l2);
                    if o3 is Some {
                        lemma_following(c, mount, i + 1, d, l3, ds);
                    }
                }
            }
        }
    }
}

/// Where the live subvolumes could be brought up to date, each has the content of the snapshot
/// on the target, and the snapshots are as they were.
///
/// The live subvolumes must be kept apart from the snapshots, and nothing must be left of an
/// earlier run where the replacements are prepared.
pub proof fn lemma_live_follows_snapshots(
    c: Setup,
    mount: Seq<char>,
    log: Log,
    ds: spec_fn(int) -> Disk,
)
    requires
        follows(updating_subvolumes(c, mount, 0), log, ds),
        apart(live_place(c, mount), place(snapshots_dir(c.target, mount))),
        replaceable(c, mount, 0, now(log, ds)),
        drive(updating_subvolumes(c, mount, 0), log).1 == Some(Ok::<(), Fault>(())),
    ensures
        ({
            let d = now(log, ds);
            let e = now(drive(updating_subvolumes(c, mount, 0), log).0, ds);
            &&& followed(c, mount, c.sources.len() as int, d, e)
            &&& same_snapshots(c, mount, d, e)
        }),
{
    lemma_following(c, mount, 0, now(log, ds), log, ds);
}

/// Providing a subvolume: where it succeeds, something stands there, a subvolume where nothing
/// stood before. Nothing else changes.
proof fn lemma_providing(path: Seq<char>, msg: Seq<char>, log: Log, ds: spec_fn(int) -> Disk)
    requires
        follows(providing_subvolume(path, msg), log, ds),
    ensures
        ({
            let (l, o) = drive(providing_subvolume(path, msg), log);
            let d = now(log, ds);
            let e = now(l, ds);
            &&& extends(log, l)
            &&& o matches Some(Ok(_)) ==> provided(path, d, e) && same_beside(d, e, place(path))
        }),
{
    broadcast use {group_plan, group_only};

    reveal(providing_subvolume);
    let told = say(Tone::Substep, msg);
    let k = |there: bool|
        if there {
            ok(())
        } else {
            then(told, |u: ()| creating_subvolume(path))
        };
    lemma_drive_extends(providing_subvolume(path, msg), log);
    lemma_follows_then(present(path), k, log, ds);
    lemma_present(path, log, ds);
    let (l1, o1) = drive(present(path), log);
    if o1 == Some(Ok::<bool, Fault>(false)) {
        lemma_follows_then(told, |u: ()| creating_subvolume(path), l1, ds);
        lemma_looking(told, l1, ds);
        let (l2, o2) = drive(told, l1);
        if o2 is Some {
            reveal(creating_subvolume);
            assert(all_or_nothing(create_call(path)));
            lemma_commanding(
                Area::Btrfs,
                create_call(path),
                "Failed to create subvolume "@ + path + ": "@,
                l2,
                ds,
            );
        }
    }
}

/// Something stands at `path`: what stood there before, else a subvolume.
pub open spec fn provided(path: Seq<char>, d: Disk, e: Disk) -> bool {
    if d.on(path) is Some {
        e.on(path) == d.on(path) && e.tag_on(path) == d.tag_on(path)
    } else {
        e.has_subvolume(path)
    }
}

/// Where a target could be prepared, the live root and the place for the snapshots are there:
/// what stood in their places before still does, and where nothing stood there is a subvolume
/// now.
///
/// The EFI system partition must be kept apart from both, and the snapshots must not go into
/// the live root. The title of the boot entry must not look like an absolute path.
pub proof fn lemma_preparing(
    mount: Seq<char>,
    l: LiveBoot,
    target: Target,
    esp: Seq<char>,
    live_root: Seq<char>,
    snapshots: Seq<char>,
    log: Log,
    ds: spec_fn(int) -> Disk,
)
    requires
        follows(preparing_live_boot(mount, l, target, esp, live_root, snapshots), log, ds),
        apart(place(esp), place(joined_path(mount, live_root))),
        apart(place(esp), place(joined_path(mount, snapshots))),
        !within(place(joined_path(mount, snapshots)), place(joined_path(mount, live_root))),
        !within(place(joined_path(mount, live_root)), place(joined_path(mount, snapshots))),
        !is_absolute(l.boot_entry.title),
    ensures
        ({
            let plan = preparing_live_boot(mount, l, target, esp, live_root, snapshots);
            let (after, o) = drive(plan, log);
            let d = now(log, ds);
            let e = now(after, ds);
            o matches Some(Ok(_)) ==> {
                &&& provided(joined_path(mount, live_root), d, e)
                &&& provided(joined_path(mount, snapshots), d, e)
            }
        }),
{
    broadcast use {group_plan, group_only};

    reveal(preparing_live_boot);
    let plan = preparing_live_boot(mount, l, target, esp, live_root, snapshots);
    let whole = drive(plan, log).0;
    let a = joined_path(mount, snapshots);
    let b = joined_path(mount, live_root);
    let first = providing_subvolume(a, "Creating snapshots subvolume: "@ + snapshots);
    let second = providing_subvolume(b, "Creating live boot subvolume: "@ + live_root);
    let boot = setting_up_boot(mount, l, target, esp, live_root);
    lemma_drive_extends(plan, log);
    lemma_follows_then(first, |u: ()| then(second, |u: ()| boot), log, ds);
    lemma_providing(a, "Creating snapshots subvolume: "@ + snapshots, log, ds);
    let (l1, o1) = drive(first, log);
    if o1 matches Some(Ok(_)) {
        lemma_follows_then(second, |u: ()| boot, l1, ds);
        lemma_providing(b, "Creating live boot subvolume: "@ + live_root, l1, ds);
        let (l2, o2) = drive(second, l1);
        if o2 matches Some(Ok(_)) {
            lemma_away_boot(mount, l, target, esp, live_root, place(a));
            lemma_away_boot(mount, l, target, esp, live_root, place(b));
            lemma_away(boot, place(a), l2, ds);
            lemma_away(boot, place(b), l2, ds);
            let m = now(l2, ds);
            let e = now(whole, ds);
            assert(within(place(a), place(a)) && within(place(b), place(b)));
            assert(e.on(a) == m.on(a) && e.on(b) == m.on(b));
            assert(e.tag_on(a) == m.tag_on(a) && e.tag_on(b) == m.tag_on(b));
        }
    }
}

/// The request creates no subvolume.
pub open spec fn creates_nothing() -> spec_fn(Ask) -> bool {
    |q: Ask| forall|p: Seq<char>| q != Ask::Run(#[trigger] create_call(p))
}

/// Only `btrfs` creates subvolumes.
proof fn lemma_other_program(c: Call)
    requires
        c.program != "btrfs"@,
    ensures
        creates_nothing()(Ask::Run(c)),
{
    assert forall|p: Seq<char>| Ask::Run(c) != Ask::Run(#[trigger] create_call(p)) by {
        assert(create_call(p).program == "btrfs"@);
    }
}

proof fn lemma_programs()
    ensures
        "bootctl"@ != "btrfs"@,
        "findmnt"@ != "btrfs"@,
        "findfs"@ != "btrfs"@,
        "cryptsetup"@ != "btrfs"@,
{
    reveal_strlit("bootctl");
    reveal_strlit("findmnt");
    reveal_strlit("findfs");
    reveal_strlit("cryptsetup");
    reveal_strlit("btrfs");
    assert("bootctl"@.len() != "btrfs"@.len());
    assert("findmnt"@.len() != "btrfs"@.len());
    assert("findfs"@.len() != "btrfs"@.len());
    assert("cryptsetup"@.len() != "btrfs"@.len());
}

/// Setting up the bootloader creates no subvolume.
proof fn lemma_boot_creates_nothing(
    mount: Seq<char>,
    l: LiveBoot,
    target: Target,
    esp: Seq<char>,
    live_root: Seq<char>,
)
    ensures
        only(setting_up_boot(mount, l, target, esp, live_root), creates_nothing()),
{
    broadcast use {group_only, lemma_querying_creates, lemma_launching_creates};

    reveal(installing_bootloader);
    reveal(commanding);
    reveal(complaining);
    reveal(creating_entry);
    reveal(finding_root);
    reveal(finding_luks);
    reveal(finding_luks_uuid);
    reveal(resolving_target);
    lemma_programs();
}

broadcast proof fn lemma_querying_creates(c: Call)
    requires
        c.program != "btrfs"@,
    ensures
        #[trigger] only(querying(c), creates_nothing()),
{
    broadcast use group_only;

    reveal(querying);
    lemma_other_program(c);
}

broadcast proof fn lemma_launching_creates(c: Call)
    requires
        c.program != "btrfs"@,
    ensures
        #[trigger] only(launching(c), creates_nothing()),
{
    broadcast use group_only;

    reveal(launching);
    lemma_other_program(c);
}

/// Preparing a target again creates nothing: where both subvolumes exist, the first two
/// requests ask for them, and no request creates a subvolume.
pub proof fn lemma_preparing_again(
    mount: Seq<char>,
    l: LiveBoot,
    target: Target,
    esp: Seq<char>,
    live_root: Seq<char>,
    snapshots: Seq<char>,
    log: Log,
)
    requires
        settled(log),
        log.asked.len() + 2 <= log.answers.len(),
        log.answers[log.asked.len() as int] == Answer::Flag(true),
        log.answers[log.asked.len() as int + 1] == Answer::Flag(true),
    ensures
        ({
            let plan = preparing_live_boot(mount, l, target, esp, live_root, snapshots);
            let after = drive(plan, log).0;
            let n = log.asked.len() as int;
            &&& after.asked.len() >= n + 2
            &&& after.asked[n] == Ask::Exists(joined_path(mount, snapshots))
            &&& after.asked[n + 1] == Ask::Exists(joined_path(mount, live_root))
            &&& forall|i: int|
                n <= i < after.asked.len() ==> creates_nothing()(#[trigger] after.asked[i])
            &&& after.pending matches Some(q) ==> creates_nothing()(q)
        }),
{
    broadcast use group_plan;

    reveal(preparing_live_boot);
    reveal(providing_subvolume);
    let plan = preparing_live_boot(mount, l, target, esp, live_root, snapshots);
    let after = drive(plan, log).0;
    let n = log.asked.len() as int;
    let (q1, q2) = (
        Ask::Exists(joined_path(mount, snapshots)),
        Ask::Exists(joined_path(mount, live_root)),
    );
    let l1 = drive(present(joined_path(mount, snapshots)), log).0;
    assert(l1.asked == log.asked.push(q1));
    let l2 = drive(present(joined_path(mount, live_root)), l1).0;
    assert(l2.asked == l1.asked.push(q2));
    let rest = setting_up_boot(mount, l, target, esp, live_root);
    assert(after == drive(rest, l2).0);
    lemma_boot_creates_nothing(mount, l, target, esp, live_root);
    lemma_drive_extends(rest, l2);
    lemma_only(rest, creates_nothing(), l2);
    assert(l2.asked[n] == q1 && l2.asked[n + 1] == q2);
    assert(after.asked[n] == q1 && after.asked[n + 1] == q2);
}

}
