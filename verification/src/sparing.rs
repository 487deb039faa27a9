//! What is left alone while the live boot environment is brought up to date.

use crate::backup::{
    finally, mounting_esp, mounting_location, updating_live, updating_subvolume,
    updating_subvolumes,
};
use crate::btrfs::{
    backup_place, checking_subvolume, creating_snapshot_rw, delete_call, deleting_subvolume,
    discarding, ensuring_dir, entries_in, installing, lemma_subvolume_name, new_place, place_of,
    renaming, replacing_by_snapshot, setting_aside, snapshot_rw_call, subvolume_name,
};
use crate::command_runner::{commanding, complaining, ignoring, launching, querying, Area};
use crate::config::{BootEntry, HookConfig, LiveBoot, Location, Setup, Target};
use crate::device::{
    already_mounted, checking_mounted, guarding, mounting, mounting_managed, releasing, resolving,
    unmounting, Mounted,
};
use crate::disk::{
    apart, boots_at, follows, leaves_alone, looking, may, mounts_at, now, place, within, Disk,
    Place,
};
use crate::error::Fault;
use crate::hooks::{
    copying, copying_kernel, dropping, emptying, entries_of, esp_place, finding_uuid,
    generating_fstab, hooking, regenerating_fstab, removing_files, removing_snapper, root_vol_path,
    running_hooks, telling_entries,
};
#[allow(unused_imports)]
use crate::journal::{
    ask, asking, bind, call, drive, fail, fetch, ok, perform, present, say, text_in, then, Answer,
    Ask, Call, Log, Plan, Tone, Try,
};
use crate::liveboot::{
    creating_entry, entries_dir_of, entry_file_of, finding_luks, finding_luks_uuid, finding_root,
    installing_bootloader, resolving_target, setting_up_boot,
};
use crate::path::{
    file_name_of, is_absolute, is_plain, joined_path, lemma_join_adds_component, lemma_join_below,
    lemma_name_is_plain, lemma_parent_and_name, quoted_path,
};
use crate::spelling::{entry_paths, name_text};
use crate::text::{decimal, lines_of, with_char};
use crate::trace::{extends, group_only, lemma_drive_extends, lemma_only_weaker, only};
use vstd::prelude::*;

verus! {

/// The command changes nothing in `dir`.
pub open spec fn command_away(c: Call, dir: Place) -> bool {
    ||| mounts_at(c) matches Some(p) && apart(place(p), dir)
    ||| boots_at(c) matches Some(p) && apart(place(p), dir)
    ||| exists|s: Seq<char>, t: Seq<char>|
        c == #[trigger] snapshot_rw_call(s, t) && apart(place(t), dir)
    ||| exists|p: Seq<char>| c == #[trigger] delete_call(p) && apart(place(p), dir)
}

/// The request changes nothing that stands in `dir`.
pub open spec fn keeps_away(q: Ask, dir: Place) -> bool {
    ||| leaves_alone(q)
    ||| match q {
        Ask::CreateDirAll(_) | Ask::MakeTempDir => true,
        Ask::Rename { from, to } => apart(place(from), dir) && apart(place(to), dir),
        Ask::Copy { to: p, .. }
        | Ask::WriteFile { path: p, .. }
        | Ask::RemoveFile(p)
        | Ask::RemoveDir(p)
        | Ask::RemoveTempDir(p) => apart(place(p), dir),
        Ask::Run(c) => command_away(c, dir),
        _ => false,
    }
}

/// `keeps_away` as a predicate on requests.
pub open spec fn away(dir: Place) -> spec_fn(Ask) -> bool {
    |q: Ask| keeps_away(q, dir)
}

/// What stood at or below `dir` still does.
pub open spec fn spared(dir: Place, d: Disk, e: Disk) -> bool {
    &&& forall|x: Place|
        #![trigger (e.at)(x)]
        within(x, dir) && (d.at)(x) is Some ==> (e.at)(x) == (d.at)(x)
    &&& forall|x: Place|
        #![trigger (e.tag)(x)]
        within(x, dir) && (d.at)(x) is Some ==> (e.tag)(x) == (d.tag)(x)
}

/// What lies below a place that is apart from `dir` is apart from it, too.
pub(crate) proof fn lemma_below_apart(x: Place, l: Place, dir: Place)
    requires
        within(x, l),
        apart(l, dir),
    ensures
        apart(x, dir),
{
    if within(x, dir) {
        if dir.len() <= l.len() {
            assert(l.take(dir.len() as int) =~= dir) by {
                assert forall|i: int| 0 <= i < dir.len() implies l[i] == dir[i] by {
                    assert(x[i] == l[i] && x[i] == dir[i]);
                }
            }
            assert(within(l, dir));
        } else {
            assert(dir.take(l.len() as int) =~= l) by {
                assert forall|i: int| 0 <= i < l.len() implies l[i] == dir[i] by {
                    assert(x[i] == l[i] && x[i] == dir[i]);
                }
            }
            assert(within(dir, l));
        }
    }
    if within(dir, x) {
        assert(within(dir, l)) by {
            assert forall|i: int| 0 <= i < l.len() implies l[i] == dir[i] by {
                assert(x[i] == l[i] && x[i] == dir[i]);
            }
            assert(dir.take(l.len() as int) =~= l);
        }
    }
}

/// What such a request leaves behind.
proof fn lemma_away_one(q: Ask, dir: Place, d: Disk, a: Answer, e: Disk)
    requires
        keeps_away(q, dir),
        may(d, q, a, e),
    ensures
        spared(dir, d, e),
{
    assert forall|x: Place, p: Place|
        within(x, dir) && #[trigger] apart(p, dir) implies !(#[trigger] within(x, p)) && !within(
        p,
        x,
    ) by {
        lemma_below_apart_inside(x, p, dir);
    }
}

/// What lies in `dir` and what is apart from `dir` are apart from each other.
proof fn lemma_below_apart_inside(x: Place, p: Place, dir: Place)
    requires
        within(x, dir),
        apart(p, dir),
    ensures
        !within(x, p),
        !within(p, x),
{
    lemma_below_apart(x, dir, p);
}

/// What stands in `dir` outlasts the run of a plan that keeps away from it.
pub(crate) proof fn lemma_away<T>(p: Plan<T>, dir: Place, log: Log, ds: spec_fn(int) -> Disk)
    requires
        only(p, away(dir)),
        follows(p, log, ds),
    ensures
        spared(dir, now(log, ds), now(drive(p, log).0, ds)),
    decreases p,
{
    reveal(only);
    reveal(drive);
    lemma_drive_extends(p, log);
    match p {
        Plan::Done(t) => {},
        Plan::Ask(q, k) => match asking(log, q) {
            (l, None) => {},
            (l, Some(a)) => {
                lemma_drive_extends(k(a), l);
                let m = drive(p, log).0;
                let n = log.asked.len() as int;
                assert(away(dir)(q));
                assert(l.asked[n] == q);
                assert(m.asked[n] == q);
                lemma_away_one(q, dir, now(log, ds), a, now(l, ds));
                lemma_away(k(a), dir, l, ds);
            },
        },
    }
}

/// The answer is one that a system gives which has no temporary directories in `dir`: the
/// entries of a directory have plain names.
pub open spec fn credible(q: Ask, a: Answer, dir: Place) -> bool {
    match (q, a) {
        (Ask::MakeTempDir, Answer::Text(p)) => apart(place(p), dir),
        (Ask::ReadDir(_), Answer::Entries { names, .. }) => forall|i: int|
            0 <= i < names.len() ==> is_plain(name_text(#[trigger] names[i])),
        _ => true,
    }
}

/// All answers in the log are credible.
pub open spec fn believed(log: Log, dir: Place) -> bool {
    forall|i: int|
        #![trigger log.asked[i]]
        0 <= i < log.asked.len() ==> credible(log.asked[i], log.answers[i], dir)
}

/// Where the answers are credible, the plan changes nothing that stands in `dir`, and its
/// outcome satisfies `post`.
#[verifier::opaque]
pub open spec fn spares<T>(p: Plan<T>, dir: Place, post: spec_fn(T) -> bool) -> bool
    decreases p,
{
    match p {
        Plan::Done(t) => post(t),
        Plan::Ask(q, k) => keeps_away(q, dir) && forall|a: Answer|
            credible(q, a, dir) ==> spares(#[trigger] k(a), dir, post),
    }
}

/// Any outcome.
pub open spec fn any<T>() -> spec_fn(T) -> bool {
    |t: T| true
}

/// A success that satisfies `post`, or any failure.
pub open spec fn succeeding<T>(post: spec_fn(T) -> bool) -> spec_fn(Result<T, Fault>) -> bool {
    |r: Result<T, Fault>|
        match r {
            Ok(t) => post(t),
            Err(_) => true,
        }
}

proof fn lemma_only_spares<T>(p: Plan<T>, dir: Place)
    requires
        only(p, away(dir)),
    ensures
        spares(p, dir, any::<T>()),
    decreases p,
{
    reveal(only);
    reveal(spares);
    match p {
        Plan::Done(t) => {},
        Plan::Ask(q, k) => {
            assert(away(dir)(q));
            assert forall|a: Answer| credible(q, a, dir) implies spares(
                #[trigger] k(a),
                dir,
                any::<T>(),
            ) by {
                lemma_only_spares(k(a), dir);
            }
        },
    }
}

pub(crate) proof fn lemma_spares_bind<T, U>(
    p: Plan<T>,
    f: spec_fn(T) -> Plan<U>,
    dir: Place,
    mid: spec_fn(T) -> bool,
    post: spec_fn(U) -> bool,
)
    requires
        spares(p, dir, mid),
        forall|t: T| mid(t) ==> spares(#[trigger] f(t), dir, post),
    ensures
        spares(bind(p, f), dir, post),
    decreases p,
{
    reveal(spares);
    reveal(bind);
    match p {
        Plan::Done(t) => {},
        Plan::Ask(q, k) => {
            assert forall|a: Answer| credible(q, a, dir) implies spares(
                bind(#[trigger] k(a), f),
                dir,
                post,
            ) by {
                lemma_spares_bind(k(a), f, dir, mid, post);
            }
        },
    }
}

pub(crate) proof fn lemma_spares_then<T, U>(
    p: Try<T>,
    f: spec_fn(T) -> Try<U>,
    dir: Place,
    mid: spec_fn(T) -> bool,
    post: spec_fn(Result<U, Fault>) -> bool,
)
    requires
        spares(p, dir, succeeding(mid)),
        forall|t: T| mid(t) ==> spares(#[trigger] f(t), dir, post),
        forall|e: Fault| #[trigger] post(Err(e)),
    ensures
        spares(then(p, f), dir, post),
{
    reveal(spares);
    let g = |r: Result<T, Fault>|
        match r {
            Ok(t) => f(t),
            Err(e) => fail::<U>(e),
        };
    assert forall|r: Result<T, Fault>| succeeding(mid)(r) implies spares(
        #[trigger] g(r),
        dir,
        post,
    ) by {
        if let Err(e) = r {
            assert(post(Err(e)));
        }
    }
    lemma_spares_bind(p, g, dir, succeeding(mid), post);
}

/// What `post` says less, holds as well.
pub(crate) proof fn lemma_spares_weaker<T>(
    p: Plan<T>,
    dir: Place,
    post: spec_fn(T) -> bool,
    weaker: spec_fn(T) -> bool,
)
    requires
        spares(p, dir, post),
        forall|t: T| #[trigger] post(t) ==> weaker(t),
    ensures
        spares(p, dir, weaker),
    decreases p,
{
    reveal(spares);
    match p {
        Plan::Done(t) => {},
        Plan::Ask(q, k) => {
            assert forall|a: Answer| credible(q, a, dir) implies spares(
                #[trigger] k(a),
                dir,
                weaker,
            ) by {
                lemma_spares_weaker(k(a), dir, post, weaker);
            }
        },
    }
}

/// What stands in `dir` outlasts the run of such a plan.
pub(crate) proof fn lemma_spares<T>(
    p: Plan<T>,
    dir: Place,
    post: spec_fn(T) -> bool,
    log: Log,
    ds: spec_fn(int) -> Disk,
)
    requires
        spares(p, dir, post),
        follows(p, log, ds),
        believed(drive(p, log).0, dir),
    ensures
        spared(dir, now(log, ds), now(drive(p, log).0, ds)),
        extends(log, drive(p, log).0),
    decreases p,
{
    reveal(spares);
    reveal(drive);
    lemma_drive_extends(p, log);
    match p {
        Plan::Done(t) => {},
        Plan::Ask(q, k) => match asking(log, q) {
            (l, None) => {},
            (l, Some(a)) => {
                lemma_drive_extends(k(a), l);
                let m = drive(p, log).0;
                let n = log.asked.len() as int;
                assert(l.asked[n] == q);
                assert(m.asked[n] == q);
                assert(m.answers[n] == a);
                lemma_away_one(q, dir, now(log, ds), a, now(l, ds));
                lemma_spares(k(a), dir, post, l, ds);
            },
        },
    }
}

/// A command that keeps away, announced and run.
broadcast proof fn lemma_away_commanding(area: Area, c: Call, msg: Seq<char>, dir: Place)
    requires
        keeps_away(Ask::Run(c), dir),
    ensures
        #[trigger] only(commanding(area, c, msg), away(dir)),
{
    broadcast use group_only;

    reveal(commanding);
    reveal(launching);
    reveal(complaining);
}

broadcast proof fn lemma_away_querying(c: Call, dir: Place)
    requires
        keeps_away(Ask::Run(c), dir),
    ensures
        #[trigger] only(querying(c), away(dir)),
{
    broadcast use group_only;

    reveal(querying);
}

broadcast proof fn lemma_away_checking(path: Seq<char>, dir: Place)
    ensures
        #[trigger] only(checking_subvolume(path), away(dir)),
{
    broadcast use {group_only, lemma_away_querying};

    reveal(checking_subvolume);
}

broadcast proof fn lemma_away_deleting(path: Seq<char>, dir: Place)
    requires
        apart(place(path), dir),
    ensures
        #[trigger] only(deleting_subvolume(path), away(dir)),
{
    broadcast use lemma_away_commanding;

    reveal(deleting_subvolume);
    assert(command_away(delete_call(path), dir));
}

broadcast proof fn lemma_away_snapping(source: Seq<char>, dest: Seq<char>, dir: Place)
    requires
        apart(place(dest), dir),
    ensures
        #[trigger] only(creating_snapshot_rw(source, dest), away(dir)),
{
    broadcast use lemma_away_commanding;

    reveal(creating_snapshot_rw);
    assert(command_away(snapshot_rw_call(source, dest), dir));
}

broadcast proof fn lemma_away_renaming(a: Seq<char>, b: Seq<char>, dir: Place)
    requires
        apart(place(a), dir),
        apart(place(b), dir),
    ensures
        #[trigger] only(renaming(a, b), away(dir)),
{
    broadcast use {group_only, lemma_away_checking};

    reveal(renaming);
}

/// Replacing a subvolume that is apart from `dir` changes nothing there.
broadcast proof fn lemma_away_replacing(
    target: Seq<char>,
    source: Seq<char>,
    suffix: Seq<char>,
    dir: Place,
)
    requires
        place_of(target) matches Ok((parent, _)) ==> apart(place(parent), dir),
    ensures
        #[trigger] only(replacing_by_snapshot(target, source, suffix), away(dir)),
{
    broadcast use {group_only, lemma_away_renaming, lemma_away_deleting, lemma_away_snapping};

    reveal(replacing_by_snapshot);
    if let Ok((parent, name)) = place_of(target) {
        lemma_parent_and_name(target);
        if name[0] == '/' {
            assert(name.contains(name[0]));
        }
        assert((name + ".new"@)[0] == name[0]);
        assert((name + "."@ + suffix)[0] == name[0]);
        lemma_join_below(parent, name + ".new"@);
        lemma_join_below(parent, name + "."@ + suffix);
        assert(within(place(target), place(parent))) by {
            assert(place(target).take(place(parent).len() as int) =~= place(parent));
        }
        lemma_below_apart(place(target), place(parent), dir);
        lemma_below_apart(place(new_place(parent, name)), place(parent), dir);
        lemma_below_apart(place(backup_place(parent, name, suffix)), place(parent), dir);
        reveal(setting_aside);
        reveal(installing);
        reveal(discarding);
    }
}

/// Where a subvolume is below `base`, its directory is `base`.
proof fn lemma_parent_place(base: Seq<char>, path: Seq<char>)
    ensures
        place_of(joined_path(base, subvolume_name(path))) matches Ok((parent, _)) ==> place(parent)
            == place(base),
{
    let name = subvolume_name(path);
    lemma_subvolume_name(path);
    lemma_join_adds_component(base, name);
    let target = joined_path(base, name);
    if let Ok((parent, fname)) = place_of(target) {
        lemma_parent_and_name(target);
        assert(place(base).push(name).drop_last() =~= place(base));
        assert(place(parent).push(fname).drop_last() =~= place(parent));
    }
}

/// Bringing the live subvolumes up to date changes nothing beside them.
proof fn lemma_away_subvolumes(c: Setup, mount: Seq<char>, i: int, dir: Place)
    requires
        apart(place(joined_path(mount, c.target.live_root())), dir),
    ensures
        only(updating_subvolumes(c, mount, i), away(dir)),
    decreases c.sources.len() - i,
{
    broadcast use {group_only, lemma_away_checking, lemma_away_replacing};

    if 0 <= i < c.sources.len() {
        lemma_away_subvolumes(c, mount, i + 1, dir);
        lemma_parent_place(joined_path(mount, c.target.live_root()), c.sources[i].path);
        reveal(updating_subvolume);
    }
}

broadcast proof fn lemma_away_copying(
    from: Seq<char>,
    to: Seq<char>,
    copied: Seq<char>,
    missing: Option<Seq<char>>,
    dir: Place,
)
    requires
        apart(place(to), dir),
    ensures
        #[trigger] only(copying(from, to, copied, missing), away(dir)),
{
    broadcast use group_only;

    reveal(copying);
}

/// What is copied to the EFI system partition lies there.
broadcast proof fn lemma_esp_place(esp: Seq<char>, from: Seq<char>, dir: Place)
    requires
        apart(place(esp), dir),
    ensures
        #![trigger esp_place(esp, from), apart(place(esp), dir)]
        apart(place(esp_place(esp, from)), dir),
{
    match file_name_of(from) {
        Some(name) => {
            lemma_name_is_plain(from);
            if name[0] == '/' {
                assert(name.contains(name[0]));
            }
            lemma_join_below(esp, name);
        },
        None => {
            lemma_join_below(esp, Seq::empty());
        },
    }
    lemma_below_apart(place(esp_place(esp, from)), place(esp), dir);
}

proof fn lemma_away_copying_kernel(
    root_vol: Seq<char>,
    esp: Seq<char>,
    entry: BootEntry,
    dir: Place,
)
    requires
        apart(place(esp), dir),
    ensures
        only(copying_kernel(root_vol, esp, entry), away(dir)),
{
    broadcast use {group_only, lemma_away_copying, lemma_esp_place};

    reveal(copying_kernel);
}

broadcast proof fn lemma_away_finding_uuid(mount_point: Seq<char>, dir: Place)
    ensures
        #[trigger] only(finding_uuid(mount_point), away(dir)),
{
    broadcast use {group_only, lemma_away_querying};

    reveal(finding_uuid);
}

proof fn lemma_away_telling(entries: Seq<Seq<char>>, i: int, dir: Place)
    ensures
        only(telling_entries(entries, i), away(dir)),
    decreases entries.len() - i,
{
    broadcast use group_only;

    if 0 <= i < entries.len() {
        lemma_away_telling(entries, i + 1, dir);
    }
}

/// A file below a root volume that is apart from `dir`.
proof fn lemma_file_below(root_vol: Seq<char>, file: Seq<char>, dir: Place)
    requires
        apart(place(root_vol), dir),
        !is_absolute(file),
    ensures
        apart(place(joined_path(root_vol, file)), dir),
{
    lemma_join_below(root_vol, file);
    lemma_below_apart(place(joined_path(root_vol, file)), place(root_vol), dir);
}

proof fn lemma_away_fstab(
    root_vol: Seq<char>,
    target_mount: Seq<char>,
    esp: Seq<char>,
    c: Setup,
    dir: Place,
)
    requires
        apart(place(root_vol), dir),
    ensures
        only(regenerating_fstab(root_vol, target_mount, esp, c), away(dir)),
{
    broadcast use {group_only, lemma_away_finding_uuid};

    reveal(regenerating_fstab);
    reveal(generating_fstab);
    reveal_strlit("etc/fstab");
    let path = joined_path(root_vol, "etc/fstab"@);
    lemma_file_below(root_vol, "etc/fstab"@, dir);
    let kept = "etc/fstab"@ + ".backup"@;
    assert(kept[0] == 'e');
    lemma_file_below(root_vol, kept, dir);
    assert(path + ".backup"@ =~= joined_path(root_vol, kept));
    assert forall|content: Seq<char>, i: int| only(
        #[trigger] telling_entries(entries_of(lines_of(content)), i),
        away(dir),
    ) by {
        lemma_away_telling(entries_of(lines_of(content)), i, dir);
    }
}

proof fn lemma_away_removing(paths: Seq<Seq<char>>, i: int, dir: Place)
    requires
        forall|j: int| 0 <= j < paths.len() ==> apart(#[trigger] place(paths[j]), dir),
    ensures
        only(removing_files(paths, i), away(dir)),
    decreases paths.len() - i,
{
    broadcast use group_only;

    if 0 <= i < paths.len() {
        lemma_away_removing(paths, i + 1, dir);
        assert(apart(place(paths[i]), dir));
    }
}

/// Emptying a directory that is apart from `dir`.
proof fn lemma_spares_emptying(path: Seq<char>, dir: Place)
    requires
        apart(place(path), dir),
    ensures
        spares(emptying(path), dir, any::<Result<(), Fault>>()),
{
    broadcast use group_only;

    reveal(emptying);
    let q = Ask::ReadDir(path);
    let credited = |a: Answer| credible(q, a, dir);
    let empty = |a: Answer|
        match entries_in(a) {
            Err(e) => fail(Fault::Io(e)),
            Ok((names, failure)) => then(
                removing_files(entry_paths(path, names), 0),
                |u: ()|
                    match failure {
                        Some(e) => fail(Fault::Io(e)),
                        None => ignoring(
                            perform(Ask::RemoveDir(path)),
                        ),
                    },
            ),
        };
    assert(spares(ask(q), dir, credited)) by {
        reveal_with_fuel(spares, 2);
    }
    assert forall|a: Answer| credited(a) implies spares(
        #[trigger] empty(a),
        dir,
        any::<Result<(), Fault>>(),
    ) by {
        if let Ok((names, failure)) = entries_in(a) {
            let paths = entry_paths(path, names);
            assert forall|j: int| 0 <= j < paths.len() implies apart(
                #[trigger] place(paths[j]),
                dir,
            ) by {
                let name = name_text(names[j]);
                assert(paths[j] == joined_path(path, name));
                lemma_join_adds_component(path, name);
                assert(place(path).push(name).take(place(path).len() as int) =~= place(path));
                assert(within(place(paths[j]), place(path)));
                lemma_below_apart(place(paths[j]), place(path), dir);
            }
            lemma_away_removing(paths, 0, dir);
        }
        lemma_only_spares(empty(a), dir);
    }
    lemma_spares_bind(ask(q), empty, dir, credited, any::<Result<(), Fault>>());
    let k = |there: bool|
        if !there {
            ok(())
        } else {
            bind(ask(q), empty)
        };
    lemma_only_spares(present(path), dir);
    lemma_spares_weaker(
        present(path),
        dir,
        any::<Result<bool, Fault>>(),
        succeeding(any::<bool>()),
    );
    assert forall|there: bool| any::<bool>()(there) implies spares(
        #[trigger] k(there),
        dir,
        any::<Result<(), Fault>>(),
    ) by {
        lemma_only_spares(ok::<()>(()), dir);
    }
    lemma_spares_then(present(path), k, dir, any::<bool>(), any::<Result<(), Fault>>());
    assert(emptying(path) == then(present(path), k));
}

/// Two plans in a row that change nothing in `dir`.
proof fn lemma_spares_both(p: Try<()>, q: Try<()>, dir: Place)
    requires
        spares(p, dir, any::<Result<(), Fault>>()),
        spares(q, dir, any::<Result<(), Fault>>()),
    ensures
        spares(then(p, |u: ()| q), dir, any::<Result<(), Fault>>()),
{
    lemma_spares_weaker(p, dir, any::<Result<(), Fault>>(), succeeding(any::<()>()));
    lemma_spares_then(p, |u: ()| q, dir, any::<()>(), any::<Result<(), Fault>>());
}

/// Removing the snapper configuration from a root volume that is apart from `dir`.
proof fn lemma_spares_snapper(root: Seq<char>, dir: Place)
    requires
        apart(place(root), dir),
    ensures
        spares(removing_snapper(root), dir, any::<Result<(), Fault>>()),
{
    broadcast use group_only;

    reveal(removing_snapper);
    reveal(dropping);
    let configs = "etc/snapper/configs"@;
    let service = "etc/systemd/system/multi-user.target.wants/snapper-cleanup.service"@;
    let timer = "etc/systemd/system/timers.target.wants/snapper-cleanup.timer"@;
    reveal_strlit("etc/snapper/configs");
    reveal_strlit("etc/systemd/system/multi-user.target.wants/snapper-cleanup.service");
    reveal_strlit("etc/systemd/system/timers.target.wants/snapper-cleanup.timer");
    lemma_file_below(root, configs, dir);
    lemma_file_below(root, service, dir);
    lemma_file_below(root, timer, dir);
    lemma_spares_emptying(joined_path(root, configs), dir);
    let first = dropping(joined_path(root, service));
    let second = dropping(joined_path(root, timer));
    lemma_only_spares(first, dir);
    lemma_only_spares(second, dir);
    lemma_spares_both(first, second, dir);
    lemma_spares_both(
        emptying(joined_path(root, configs)),
        then(first, |u: ()| second),
        dir,
    );
}

/// The hooks change nothing beside the live root and the EFI system partition.
proof fn lemma_spares_hooks(
    live_boot_path: Seq<char>,
    target_mount: Seq<char>,
    esp: Seq<char>,
    hooks: HookConfig,
    entry: BootEntry,
    c: Setup,
    dir: Place,
)
    requires
        apart(place(live_boot_path), dir),
        apart(place(esp), dir),
    ensures
        spares(
            running_hooks(live_boot_path, target_mount, esp, hooks, entry, c),
            dir,
            any::<Result<(), Fault>>(),
        ),
{
    broadcast use group_only;

    reveal(running_hooks);
    let root_vol = root_vol_path(live_boot_path);
    reveal_strlit("root_vol");
    lemma_file_below(live_boot_path, "root_vol"@, dir);
    lemma_away_copying_kernel(root_vol, esp, entry, dir);
    lemma_away_fstab(root_vol, target_mount, esp, c, dir);
    lemma_spares_snapper(root_vol, dir);
    let kernel = hooking(
        hooks.copy_kernel,
        "Copying kernel and initramfs to ESP"@,
        copying_kernel(root_vol, esp, entry),
    );
    let fstab = hooking(
        hooks.regenerate_fstab,
        "Regenerating fstab for live boot"@,
        regenerating_fstab(root_vol, target_mount, esp, c),
    );
    let told = say(Tone::Substep, "Removing snapper config from live boot"@);
    let snapper = hooking(
        hooks.remove_snapper_config,
        "Removing snapper config from live boot"@,
        removing_snapper(root_vol),
    );
    lemma_only_spares(kernel, dir);
    lemma_only_spares(fstab, dir);
    lemma_only_spares(told, dir);
    lemma_only_spares(ok::<()>(()), dir);
    lemma_spares_both(told, removing_snapper(root_vol), dir);
    assert(spares(snapper, dir, any::<Result<(), Fault>>()));
    lemma_spares_both(fstab, snapper, dir);
    lemma_spares_both(kernel, then(fstab, |u: ()| snapper), dir);
}

/// The file system is mounted apart from `dir`, and not encrypted.
pub open spec fn mounted_apart(dir: Place) -> spec_fn(Mounted) -> bool {
    |m: Mounted| apart(place(m.point), dir) && m.mapping is None
}

broadcast proof fn lemma_away_resolving(device: Seq<char>, dir: Place)
    ensures
        #[trigger] only(resolving(device), away(dir)),
{
    broadcast use {group_only, lemma_away_querying};

    reveal(resolving);
    reveal(complaining);
}

broadcast proof fn lemma_away_mounting(device: Seq<char>, point: Seq<char>, dir: Place)
    requires
        apart(place(point), dir),
    ensures
        #[trigger] only(mounting(device, point), away(dir)),
{
    broadcast use {group_only, lemma_away_querying, lemma_away_commanding};

    reveal(mounting);
    reveal(ensuring_dir);
    reveal(checking_mounted);
    let c = call("mount"@).arg(device).arg(point);
    assert(mounts_at(c) == Some(point));
    assert(command_away(c, dir));
}

/// Making a temporary directory, of which there are none in `dir`.
proof fn lemma_spares_temp(dir: Place)
    ensures
        spares(
            fetch(Ask::MakeTempDir),
            dir,
            succeeding(|point: Seq<char>| apart(place(point), dir)),
        ),
{
    let clear = |point: Seq<char>| apart(place(point), dir);
    let q = Ask::MakeTempDir;
    let credited = |a: Answer| credible(q, a, dir);
    let take = |a: Answer|
        match text_in(a) {
            Ok(t) => ok(t),
            Err(e) => fail(Fault::Io(e)),
        };
    assert(spares(ask(q), dir, credited)) by {
        reveal_with_fuel(spares, 2);
    }
    assert forall|a: Answer| credited(a) implies spares(
        #[trigger] take(a),
        dir,
        succeeding(clear),
    ) by {
        reveal(spares);
    }
    lemma_spares_bind(ask(q), take, dir, credited, succeeding(clear));
}

/// Mounting a device in a directory that is apart from `dir`, or removing the directory.
proof fn lemma_spares_mounting(resolved: Seq<char>, point: Seq<char>, dir: Place)
    requires
        apart(place(point), dir),
    ensures
        spares(
            bind(
                mounting(resolved, point),
                |r: Result<(), Fault>|
                    match r {
                        Ok(_) => ok(point),
                        Err(e) => then(
                            ignoring(perform(Ask::RemoveTempDir(point))),
                            |u: ()| fail(e),
                        ),
                    },
            ),
            dir,
            succeeding(|point: Seq<char>| apart(place(point), dir)),
        ),
{
    broadcast use {group_only, lemma_away_mounting};

    let clear = |point: Seq<char>| apart(place(point), dir);
    let undo = ignoring(perform(Ask::RemoveTempDir(point)));
    let finish = |r: Result<(), Fault>|
        match r {
            Ok(_) => ok(point),
            Err(e) => then(ignoring(perform(Ask::RemoveTempDir(point))), |u: ()| fail(e)),
        };
    lemma_only_spares(mounting(resolved, point), dir);
    lemma_only_spares(undo, dir);
    lemma_spares_weaker(undo, dir, any::<Result<(), Fault>>(), succeeding(any::<()>()));
    assert forall|r: Result<(), Fault>| any::<Result<(), Fault>>()(r) implies spares(
        #[trigger] finish(r),
        dir,
        succeeding(clear),
    ) by {
        match r {
            Ok(_) => {
                reveal(spares);
            },
            Err(e) => {
                let end = |u: ()| fail::<Seq<char>>(e);
                assert(spares(end(()), dir, succeeding(clear))) by {
                    reveal(spares);
                }
                lemma_spares_then(undo, end, dir, any::<()>(), succeeding(clear));
            },
        }
    }
    lemma_spares_bind(
        mounting(resolved, point),
        finish,
        dir,
        any::<Result<(), Fault>>(),
        succeeding(clear),
    );
}

/// A device is mounted in a temporary directory, and there are none in `dir`.
proof fn lemma_spares_managed(device: Seq<char>, dir: Place)
    ensures
        spares(
            mounting_managed(device),
            dir,
            succeeding(|point: Seq<char>| apart(place(point), dir)),
        ),
{
    broadcast use {group_only, lemma_away_resolving};

    reveal(mounting_managed);
    let clear = |point: Seq<char>| apart(place(point), dir);
    let start = |resolved: Seq<char>|
        then(
            fetch(Ask::MakeTempDir),
            |dir: Seq<char>|
                bind(
                    mounting(resolved, dir),
                    |r: Result<(), Fault>|
                        match r {
                            Ok(_) => ok(dir),
                            Err(e) => then(
                                ignoring(perform(Ask::RemoveTempDir(dir))),
                                |u: ()| fail(e),
                            ),
                        },
                ),
        );
    lemma_spares_temp(dir);
    assert forall|resolved: Seq<char>| any::<Seq<char>>()(resolved) implies spares(
        #[trigger] start(resolved),
        dir,
        succeeding(clear),
    ) by {
        let work = |dir: Seq<char>|
            bind(
                mounting(resolved, dir),
                |r: Result<(), Fault>|
                    match r {
                        Ok(_) => ok(dir),
                        Err(e) => then(
                            ignoring(perform(Ask::RemoveTempDir(dir))),
                            |u: ()| fail(e),
                        ),
                    },
            );
        assert forall|point: Seq<char>| clear(point) implies spares(
            #[trigger] work(point),
            dir,
            succeeding(clear),
        ) by {
            lemma_spares_mounting(resolved, point, dir);
        }
        lemma_spares_then(fetch(Ask::MakeTempDir), work, dir, clear, succeeding(clear));
    }
    lemma_only_spares(resolving(device), dir);
    lemma_spares_weaker(
        resolving(device),
        dir,
        any::<Result<Seq<char>, Fault>>(),
        succeeding(any::<Seq<char>>()),
    );
    lemma_spares_then(resolving(device), start, dir, any::<Seq<char>>(), succeeding(clear));
}

/// The EFI system partition is mounted apart from `dir`.
proof fn lemma_spares_esp(l: LiveBoot, dir: Place)
    requires
        l.esp_location matches Location::MountedPath(p) ==> apart(place(p), dir),
    ensures
        spares(mounting_esp(l), dir, succeeding(mounted_apart(dir))),
{
    broadcast use group_only;

    reveal(mounting_esp);
    reveal(mounting_location);
    let post = succeeding(mounted_apart(dir));
    match l.esp_location {
        Location::MountedPath(path) => {
            let k = |there: bool|
                if there {
                    ok(already_mounted(path))
                } else {
                    fail(Fault::Mount("ESP mounted path does not exist: "@ + quoted_path(path)))
                };
            lemma_only_spares(present(path), dir);
            lemma_spares_weaker(
                present(path),
                dir,
                any::<Result<bool, Fault>>(),
                succeeding(any::<bool>()),
            );
            assert forall|there: bool| any::<bool>()(there) implies spares(
                #[trigger] k(there),
                dir,
                post,
            ) by {
                reveal(spares);
            }
            lemma_spares_then(present(path), k, dir, any::<bool>(), post);
        },
        Location::Device(device) => {
            reveal(guarding);
            let clear = |point: Seq<char>| apart(place(point), dir);
            let k = |dir: Seq<char>| ok(Mounted { point: dir, mapping: None, managed: true });
            lemma_spares_managed(device, dir);
            assert forall|point: Seq<char>| clear(point) implies spares(
                #[trigger] k(point),
                dir,
                post,
            ) by {
                reveal(spares);
            }
            lemma_spares_then(mounting_managed(device), k, dir, clear, post);
        },
    }
}

/// Giving a file system back that was mounted apart from `dir`.
broadcast proof fn lemma_away_releasing(m: Mounted, dir: Place)
    requires
        apart(place(m.point), dir),
        m.mapping is None,
    ensures
        #[trigger] only(releasing(m), away(dir)),
{
    broadcast use {group_only, lemma_away_commanding};

    reveal(releasing);
    reveal(unmounting);
    let c = call("umount"@).arg(m.point);
    assert(mounts_at(c) == Some(m.point)) by {
        reveal_strlit("umount");
        reveal_strlit("mount");
        assert("umount"@.len() != "mount"@.len());
    }
    assert(command_away(c, dir));
}

/// A plan and then another, whatever the first comes to.
proof fn lemma_spares_finally(p: Try<()>, q: Try<()>, dir: Place)
    requires
        spares(p, dir, any::<Result<(), Fault>>()),
        spares(q, dir, any::<Result<(), Fault>>()),
    ensures
        spares(finally(p, q), dir, any::<Result<(), Fault>>()),
{
    let k = |r: Result<(), Fault>| bind(q, |x: Result<(), Fault>| Plan::Done(r));
    assert forall|r: Result<(), Fault>| any::<Result<(), Fault>>()(r) implies spares(
        #[trigger] k(r),
        dir,
        any::<Result<(), Fault>>(),
    ) by {
        let end = |x: Result<(), Fault>| Plan::Done(r);
        assert forall|x: Result<(), Fault>| any::<Result<(), Fault>>()(x) implies spares(
            #[trigger] end(x),
            dir,
            any::<Result<(), Fault>>(),
        ) by {
            reveal(spares);
        }
        lemma_spares_bind(q, end, dir, any::<Result<(), Fault>>(), any::<Result<(), Fault>>());
    }
    lemma_spares_bind(p, k, dir, any::<Result<(), Fault>>(), any::<Result<(), Fault>>());
}

/// The live boot environment is kept apart from `dir`.
pub open spec fn live_apart(c: Setup, mount: Seq<char>, dir: Place) -> bool {
    &&& apart(place(joined_path(mount, c.target.live_root())), dir)
    &&& c.live_boot matches Some(l) ==> (l.esp_location matches Location::MountedPath(p) ==> apart(
        place(p),
        dir,
    ))
}

/// Bringing the live boot environment up to date asks for no change in a directory that it is
/// apart from.
pub(crate) proof fn lemma_spares_live(c: Setup, mount: Seq<char>, dir: Place)
    requires
        live_apart(c, mount, dir),
    ensures
        spares(updating_live(c, mount), dir, any::<Result<(), Fault>>()),
{
    broadcast use {group_only, lemma_away_releasing};

    reveal(updating_live);
    let post = any::<Result<(), Fault>>();
    match c.live_boot {
        None => {
            reveal(spares);
        },
        Some(l) => {
            let live = joined_path(mount, c.target.live_root());
            let told = say(
                Tone::Detail,
                "Updating live boot for "@ + decimal(c.sources.len()) + " sources"@,
            );
            let hook = |esp: Mounted|
                finally(
                    then(
                        say(Tone::Substep, "Running post-backup hooks"@),
                        |u: ()|
                            running_hooks(
                                joined_path(mount, c.target.live_root()),
                                mount,
                                esp.point,
                                c.hooks,
                                l.boot_entry,
                                c,
                            ),
                    ),
                    releasing(esp),
                );
            lemma_only_spares(told, dir);
            lemma_away_subvolumes(c, mount, 0, dir);
            lemma_only_spares(updating_subvolumes(c, mount, 0), dir);
            lemma_spares_esp(l, dir);
            assert forall|esp: Mounted| mounted_apart(dir)(esp) implies spares(
                #[trigger] hook(esp),
                dir,
                post,
            ) by {
                let said = say(Tone::Substep, "Running post-backup hooks"@);
                let hooks = running_hooks(live, mount, esp.point, c.hooks, l.boot_entry, c);
                lemma_only_spares(said, dir);
                lemma_spares_hooks(live, mount, esp.point, c.hooks, l.boot_entry, c, dir);
                lemma_spares_both(said, hooks, dir);
                lemma_only_spares(releasing(esp), dir);
                lemma_spares_finally(then(said, |u: ()| hooks), releasing(esp), dir);
            }
            lemma_spares_then(mounting_esp(l), hook, dir, mounted_apart(dir), post);
            lemma_spares_both(
                updating_subvolumes(c, mount, 0),
                then(mounting_esp(l), hook),
                dir,
            );
            lemma_spares_both(
                told,
                then(updating_subvolumes(c, mount, 0), |u: ()| then(mounting_esp(l), hook)),
                dir,
            );
        },
    }
}

/// The boot entry lies on the EFI system partition.
proof fn lemma_entry_below(esp: Seq<char>, title: Seq<char>, dir: Place)
    requires
        apart(place(esp), dir),
        !is_absolute(title),
    ensures
        apart(place(entry_file_of(esp, title)), dir),
{
    reveal_strlit("loader/entries");
    reveal_strlit(".conf");
    let entries = entries_dir_of(esp);
    let file = with_char(title, ' ', '_') + ".conf"@;
    assert(!is_absolute(file)) by {
        if title.len() > 0 {
            assert(file[0] == with_char(title, ' ', '_')[0]);
        } else {
            assert(file[0] == '.');
        }
    }
    lemma_join_below(esp, "loader/entries"@);
    lemma_below_apart(place(entries), place(esp), dir);
    lemma_join_below(entries, file);
    lemma_below_apart(place(entry_file_of(esp, title)), place(entries), dir);
}

/// Setting up the bootloader changes nothing beside the EFI system partition.
pub(crate) proof fn lemma_away_boot(
    mount: Seq<char>,
    l: LiveBoot,
    target: Target,
    esp: Seq<char>,
    live_root: Seq<char>,
    dir: Place,
)
    requires
        apart(place(esp), dir),
        !is_absolute(l.boot_entry.title),
    ensures
        only(setting_up_boot(mount, l, target, esp, live_root), away(dir)),
{
    broadcast use {group_only, lemma_away_querying, lemma_away_commanding};

    reveal(installing_bootloader);
    reveal(creating_entry);
    reveal(finding_root);
    reveal(finding_luks);
    reveal(finding_luks_uuid);
    reveal(resolving_target);
    reveal(complaining);
    let c = call("bootctl"@).arg("--esp-path"@).arg(esp).arg("install"@);
    assert(boots_at(c) == Some(esp));
    assert(command_away(c, dir));
    lemma_entry_below(esp, l.boot_entry.title, dir);
}

/// A plan that only looks changes nothing anywhere.
pub(crate) proof fn lemma_looking_spares<T>(p: Plan<T>, dir: Place)
    requires
        only(p, looking()),
    ensures
        spares(p, dir, any::<T>()),
{
    lemma_only_weaker(p, looking(), away(dir));
    lemma_only_spares(p, dir);
}

/// Bringing the live boot environment up to date leaves everything alone that stands in a
/// directory apart from it, such as the one with the snapshots.
pub proof fn lemma_live_update_spares(
    c: Setup,
    mount: Seq<char>,
    dir: Place,
    log: Log,
    ds: spec_fn(int) -> Disk,
)
    requires
        follows(updating_live(c, mount), log, ds),
        believed(drive(updating_live(c, mount), log).0, dir),
        live_apart(c, mount, dir),
    ensures
        spared(dir, now(log, ds), now(drive(updating_live(c, mount), log).0, ds)),
{
    lemma_spares_live(c, mount, dir);
    lemma_spares(updating_live(c, mount), dir, any::<Result<(), Fault>>(), log, ds);
}

}
