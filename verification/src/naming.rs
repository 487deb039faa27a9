//! How things are named: subvolumes after their sources, boot files after their paths, devices
//! and mount points by what the configuration says, and lock files after configurations.

use crate::backup::{acquiring, locking_step, running, working};
use crate::btrfs::{subvolume_name, volume_name, volume_parts};
use crate::config::{esp_path_fault, location_of, mount_point_of, validating, Location, Setup};
use crate::hooks::{fallback_name, fallback_source};
use crate::journal::{drive, failure_in, fetch, group_plan, text_in, then, Answer, Ask, Log};
use crate::lineage::early;
use crate::orders::{answered, asked_for, lemma_answered, lemma_asked_for};
use crate::path::{
    below, components_of, file_name_of, is_absolute, is_name, is_plain, joined_path, last_dot,
    lemma_components, lemma_join_adds_component, lemma_joined_name, lemma_name_is_plain,
    lemma_no_components, lemma_parent_and_name, lemma_relative_plain, lemma_root_components,
    names_among, parent_of, rebased_path, relative_components, stem_and_extension,
};
use crate::restraint::{harmless_but_locking, lemma_no_lock_no_run};
use crate::spelling::{entry_paths, name_text};
use crate::text::joined;
use crate::trace::{extends, lemma_drive_extends, lemma_only, settled};
use vstd::prelude::*;

verus! {

/// The volume of a directory below another is named after both, with `_` between them; right
/// below the root directory it has the name of the directory alone.
pub proof fn lemma_name_of_child(path: Seq<char>, name: Seq<char>)
    requires
        is_plain(name),
    ensures
        subvolume_name(joined_path(path, name)) == if volume_parts(components_of(path)).len() == 0 {
            name + "_vol"@
        } else {
            volume_name(path) + "_"@ + name + "_vol"@
        },
{
    let c = components_of(path);
    let all = components_of(joined_path(path, name));
    lemma_join_adds_component(path, name);
    assert(all.drop_last() =~= c);
    reveal_strlit("/");
    assert(name != "/"@) by {
        if name == "/"@ {
            assert(name.contains(name[0]));
        }
    }
    let parts = volume_parts(c);
    assert(volume_parts(all) == parts.push(name));
    assert(parts.push(name).drop_last() =~= parts);
    if parts.len() == 0 {
        assert(joined(parts.push(name), "_"@) == name);
    } else {
        assert(joined(parts.push(name), "_"@) == joined(parts, "_"@) + "_"@ + name);
    }
}

proof fn lemma_below(root: Seq<char>, parts: Seq<Seq<char>>)
    requires
        forall|i: int| 0 <= i < parts.len() ==> is_plain(#[trigger] parts[i]),
    ensures
        components_of(below(root, parts)) == components_of(root) + parts,
    decreases parts.len(),
{
    if parts.len() > 0 {
        let front = parts.drop_last();
        assert forall|i: int| 0 <= i < front.len() implies is_plain(#[trigger] front[i]) by {
            assert(front[i] == parts[i]);
        }
        lemma_below(root, front);
        lemma_join_adds_component(below(root, front), parts.last());
        assert(components_of(root) + parts =~= (components_of(root) + front).push(parts.last()));
    } else {
        assert(components_of(root) + parts =~= components_of(root));
    }
}

/// A path in a root volume: its components follow those of the root volume, so that it keeps
/// its name.
pub proof fn lemma_rebased(root: Seq<char>, path: Seq<char>)
    requires
        is_absolute(path),
    ensures
        components_of(rebased_path(root, path)) == components_of(root) + relative_components(path),
        file_name_of(path) is Some ==> file_name_of(rebased_path(root, path)) == file_name_of(path),
{
    let parts = relative_components(path);
    let c = components_of(path);
    lemma_relative_plain(path);
    lemma_below(root, parts);
    if file_name_of(path) is Some {
        assert(parts.len() > 0) by {
            assert(c[0] == "/"@);
        }
        assert(parts.last() == c.last());
        assert((components_of(root) + parts).last() == parts.last());
    }
}

/// The fallback of an initramfs has `-fallback` before the extension.
pub proof fn lemma_fallback(dir: Seq<char>, stem: Seq<char>, extension: Seq<char>)
    requires
        is_plain(stem + "."@ + extension),
        stem + "."@ + extension != ".."@,
        stem.len() > 0,
        !extension.contains('.'),
    ensures
        fallback_name(joined_path(dir, stem + "."@ + extension)) == stem + "-fallback."@
            + extension,
{
    let name = stem + "."@ + extension;
    lemma_joined_name(dir, name);
    reveal_strlit(".");
    lemma_last_dot(stem, extension);
    assert(name =~= stem + seq!['.'] + extension);
    assert(name.take(stem.len() as int) =~= stem);
    assert(name.skip(stem.len() as int + 1) =~= extension);
}

proof fn lemma_last_dot(stem: Seq<char>, extension: Seq<char>)
    requires
        !extension.contains('.'),
    ensures
        last_dot(stem + seq!['.'] + extension) == stem.len(),
    decreases extension.len(),
{
    let name = stem + seq!['.'] + extension;
    if extension.len() > 0 {
        assert(name.last() == extension.last());
        assert(extension.contains(extension.last()));
        let front = extension.drop_last();
        assert(!front.contains('.')) by {
            if front.contains('.') {
                let i = choose|i: int| 0 <= i < front.len() && front[i] == '.';
                assert(extension[i] == '.');
            }
        }
        lemma_last_dot(stem, front);
        assert(name.drop_last() =~= stem + seq!['.'] + front);
    } else {
        assert(name.last() == '.');
    }
}

/// What a configuration names as a target: a device where it begins with `/dev/`, `UUID=`,
/// `LABEL=` or `PARTUUID=`, and else a mounted path; either way it is taken as it is.
pub proof fn lemma_location(s: Seq<char>, rest: Seq<char>)
    ensures
        location_of("/dev/"@ + rest) == Location::Device("/dev/"@ + rest),
        location_of("UUID="@ + rest) == Location::Device("UUID="@ + rest),
        location_of("LABEL="@ + rest) == Location::Device("LABEL="@ + rest),
        location_of("PARTUUID="@ + rest) == Location::Device("PARTUUID="@ + rest),
        location_of(s) is Device ==> exists|x: Seq<char>|
            {
                ||| s == #[trigger] ("/dev/"@ + x)
                ||| s == "UUID="@ + x
                ||| s == "LABEL="@ + x
                ||| s == "PARTUUID="@ + x
            },
        location_of(s) == Location::Device(s) || location_of(s) == Location::MountedPath(s),
{
    lemma_begins("/dev/"@, rest);
    lemma_begins("UUID="@, rest);
    lemma_begins("LABEL="@, rest);
    lemma_begins("PARTUUID="@, rest);
    if location_of(s) is Device {
        let n: int = if "/dev/"@.is_prefix_of(s) {
            "/dev/"@.len() as int
        } else if "UUID="@.is_prefix_of(s) {
            "UUID="@.len() as int
        } else if "LABEL="@.is_prefix_of(s) {
            "LABEL="@.len() as int
        } else {
            "PARTUUID="@.len() as int
        };
        let x = s.skip(n);
        assert(s =~= s.subrange(0, n) + x);
        let path = "/dev/"@ + x;
        assert({
            ||| s == "/dev/"@ + x
            ||| s == "UUID="@ + x
            ||| s == "LABEL="@ + x
            ||| s == "PARTUUID="@ + x
        });
    }
}

proof fn lemma_begins(head: Seq<char>, rest: Seq<char>)
    ensures
        head.is_prefix_of(head + rest),
{
    assert((head + rest).subrange(0, head.len() as int) =~= head);
}

/// Where the EFI system partition can be mounted: at a path that never goes up and that has at
/// least one name.
pub proof fn lemma_esp_path(path: Seq<char>)
    ensures
        esp_path_fault(path) is None <==> {
            &&& !components_of(path).contains(".."@)
            &&& exists|i: int|
                0 <= i < components_of(path).len() && is_name(#[trigger] components_of(path)[i])
        },
{
    let c = components_of(path);
    lemma_components(path);
    lemma_names_among(c);
    let names = names_among(c);
    if exists|i: int| 0 <= i < c.len() && is_name(#[trigger] c[i]) {
        assert(names.len() > 0);
        lemma_joined_not_empty(names);
        if path.len() == 0 {
            lemma_no_components(path);
        }
    } else {
        assert(names.len() == 0);
    }
}

proof fn lemma_names_among(c: Seq<Seq<char>>)
    ensures
        names_among(c).len() > 0 <==> exists|i: int| 0 <= i < c.len() && is_name(#[trigger] c[i]),
        forall|i: int| 0 <= i < names_among(c).len() ==> c.contains(#[trigger] names_among(c)[i])
            && is_name(names_among(c)[i]),
    decreases c.len(),
{
    if c.len() > 0 {
        let front = c.drop_last();
        lemma_names_among(front);
        let names = names_among(c);
        assert forall|i: int| 0 <= i < names.len() implies c.contains(#[trigger] names[i])
            && is_name(names[i]) by {
            if i < names_among(front).len() {
                assert(names[i] == names_among(front)[i]);
                let k = choose|k: int| 0 <= k < front.len() && front[k] == names[i];
                assert(c[k] == names[i]);
            } else {
                assert(c[c.len() - 1] == names[i]);
            }
        }
        if names.len() > 0 {
            let k = choose|k: int| 0 <= k < c.len() && c[k] == names[0];
            assert(is_name(c[k]));
        }
        if exists|i: int| 0 <= i < c.len() && is_name(#[trigger] c[i]) {
            let i = choose|i: int| 0 <= i < c.len() && is_name(#[trigger] c[i]);
            if i < front.len() {
                assert(is_name(front[i]));
            }
        }
    }
}

proof fn lemma_joined_not_empty(names: Seq<Seq<char>>)
    requires
        names.len() > 0,
        names[0].len() > 0,
    ensures
        joined(names, "/"@).len() > 0,
    decreases names.len(),
{
    if names.len() > 1 {
        lemma_joined_not_empty(names.drop_last());
    }
}

/// Where the lock of a name is, below the directory for temporary files.
pub open spec fn lock_place(temp: Seq<char>, name: Seq<char>) -> Seq<char> {
    joined_path(joined_path(temp, "btrbak_locks"@), name + ".lock"@)
}

/// From position `at` on, the lock of the name was taken: its directory was made, its file was
/// opened, and locking it did not fail.
pub open spec fn lock_taken(l: Log, at: int, name: Seq<char>, lock: Seq<char>) -> bool {
    exists|temp: Answer, done: Answer|
        {
            &&& #[trigger] answered(l, at, Ask::TempRoot, temp)
            &&& #[trigger] answered(l, at, Ask::TryLock(lock), done)
            &&& failure_in(done) is None
            &&& text_in(temp) matches Ok(root) && lock == lock_place(root, name) && asked_for(
                l,
                at,
                Ask::CreateDirAll(joined_path(root, "btrbak_locks"@)),
            )
            &&& asked_for(l, at, Ask::OpenLock(lock))
        }
}

/// Taking the lock of a configuration: the outcome is the lock file, named after the
/// configuration, and it was locked.
pub proof fn lemma_lock_taken(name: Seq<char>, log: Log)
    requires
        settled(log),
    ensures
        ({
            let (l, o) = drive(acquiring(name), log);
            o matches Some(Ok(lock)) ==> lock_taken(l, log.asked.len() as int, name, lock)
        }),
{
    broadcast use {group_plan, lemma_drive_extends};

    reveal(acquiring);
    reveal(locking_step);
    let at = log.asked.len() as int;
    let (l, o) = drive(acquiring(name), log);
    if let Some(Ok(lock)) = o {
        let (l1, o1) = drive(fetch(Ask::TempRoot), log);
        let root = o1->0->Ok_0;
        let temp = l.answers[at];
        let dir = joined_path(root, "btrbak_locks"@);
        let p2 = locking_step(
            Ask::CreateDirAll(dir),
            "Failed to create lock parent directory: "@,
        );
        let l2 = drive(p2, l1).0;
        let p3 = locking_step(Ask::OpenLock(lock), "Failed to create lock file: "@);
        let l3 = drive(p3, l2).0;
        assert(lock == lock_place(root, name));
        assert(l1.asked[at] == Ask::TempRoot);
        assert(l2.asked[at + 1] == Ask::CreateDirAll(dir));
        assert(l3.asked[at + 2] == Ask::OpenLock(lock));
        assert(l.asked[at] == Ask::TempRoot);
        assert(l.asked[at + 1] == Ask::CreateDirAll(dir));
        assert(l.asked[at + 2] == Ask::OpenLock(lock));
        assert(l.asked[at + 3] == Ask::TryLock(lock));
        let done = l.answers[at + 3];
        assert(answered(l, at, Ask::TempRoot, temp));
        assert(answered(l, at, Ask::TryLock(lock), done));
        assert(asked_for(l, at, Ask::CreateDirAll(dir)));
        assert(asked_for(l, at, Ask::OpenLock(lock)));
    }
}

proof fn lemma_taken_earlier(
    before: Log,
    after: Log,
    at: int,
    from: int,
    name: Seq<char>,
    lock: Seq<char>,
)
    requires
        lock_taken(before, at, name, lock),
        extends(before, after),
        0 <= from <= at,
    ensures
        lock_taken(after, from, name, lock),
{
    let (temp, done) = choose|temp: Answer, done: Answer|
        {
            &&& #[trigger] answered(before, at, Ask::TempRoot, temp)
            &&& #[trigger] answered(before, at, Ask::TryLock(lock), done)
            &&& failure_in(done) is None
            &&& text_in(temp) matches Ok(root) && lock == lock_place(root, name) && asked_for(
                before,
                at,
                Ask::CreateDirAll(joined_path(root, "btrbak_locks"@)),
            )
            &&& asked_for(before, at, Ask::OpenLock(lock))
        };
    lemma_answered(before, after, at, from, Ask::TempRoot, temp);
    lemma_answered(before, after, at, from, Ask::TryLock(lock), done);
    let dir = joined_path(text_in(temp)->Ok_0, "btrbak_locks"@);
    lemma_asked_for(before, after, at, from, Ask::CreateDirAll(dir));
    lemma_asked_for(before, after, at, from, Ask::OpenLock(lock));
}

/// A run works under the lock of its configuration: whatever it asks for beyond what changes
/// nothing and what takes the lock comes after the lock was taken. Once it has the lock and
/// comes to an end, giving the lock back is the last thing that it asks for.
pub proof fn lemma_run_under_lock(c: Setup, dry_run: bool, log: Log)
    requires
        settled(log),
    ensures
        ({
            let (l, o) = drive(running(c, dry_run), log);
            let at = log.asked.len() as int;
            &&& forall|i: int|
                at <= i < l.asked.len() && !harmless_but_locking()(#[trigger] l.asked[i])
                    ==> exists|lock: Seq<char>| #[trigger]
                    lock_taken(early(l, i), at, c.name, lock)
            &&& o matches Some(Ok(_)) ==> exists|lock: Seq<char>| #[trigger]
                lock_taken(l, at, c.name, lock) && l.asked.last() == Ask::Unlock(lock)
        }),
{
    broadcast use {group_plan, lemma_drive_extends};

    reveal(running);
    let at = log.asked.len() as int;
    let (l, o) = drive(running(c, dry_run), log);
    let pred = harmless_but_locking();
    lemma_no_lock_no_run(c, dry_run, log);
    let start = then(validating(c), |u: ()| acquiring(c.name));
    let (l2, o2) = drive(start, log);
    lemma_only(start, pred, log);
    let (l1, o1) = drive(validating(c), log);
    if let Some(Ok(lock)) = o2 {
        lemma_lock_taken(c.name, l1);
        let from = l1.asked.len() as int;
        let w = drive(working(c, dry_run), l2).0;
        assert(extends(w, l));
        assert(extends(l2, l));
        assert forall|i: int|
            at <= i < l.asked.len() && !pred(#[trigger] l.asked[i]) implies exists|lock: Seq<char>|
            #[trigger]
            lock_taken(early(l, i), at, c.name, lock) by {
            if i < l2.asked.len() {
                assert(l.asked[i] == l2.asked[i]);
                assert(pred(l2.asked[i]));
            } else {
                assert(extends(l2, early(l, i))) by {
                    assert(l2.asked =~= l.asked.take(i).subrange(0, l2.asked.len() as int));
                }
                lemma_taken_earlier(l2, early(l, i), from, at, c.name, lock);
            }
        }
        if o matches Some(Ok(_)) {
            lemma_taken_earlier(l2, l, from, at, c.name, lock);
            assert(l.asked.last() == Ask::Unlock(lock));
        }
    } else {
        assert(l.asked == l2.asked);
        assert forall|i: int| at <= i < l.asked.len() implies pred(#[trigger] l.asked[i]) by {
            assert(pred(l2.asked[i]));
        }
    }
}

/// The name of a fallback is plain.
proof fn lemma_fallback_plain(path: Seq<char>)
    requires
        file_name_of(path) is Some,
    ensures
        is_plain(fallback_name(path)),
{
    let name = file_name_of(path)->0;
    lemma_name_is_plain(path);
    let (stem, extension) = stem_and_extension(name);
    let tail = match extension {
        Some(e) => e,
        None => Seq::empty(),
    };
    let all = fallback_name(path);
    reveal_strlit("-fallback.");
    reveal_strlit(".");
    let middle = "-fallback."@;
    assert(all.len() >= 10);
    assert forall|i: int| 0 <= i < all.len() implies all[i] != '/' by {
        if i < stem.len() {
            assert(all[i] == name[i]);
            assert(name.contains(name[i]));
        } else if i < stem.len() + 10 {
            assert(all[i] == middle[i - stem.len()]);
        } else {
            let k = i - stem.len() - 10;
            assert(all[i] == tail[k]);
            let n = last_dot(name);
            assert(tail[k] == name[n + 1 + k]);
            assert(name.contains(name[n + 1 + k]));
        }
    }
}

/// The fallback of an initramfs stands beside it in the root volume.
pub proof fn lemma_fallback_place(root: Seq<char>, path: Seq<char>)
    requires
        is_absolute(path),
        file_name_of(path) is Some,
        parent_of(path) matches Some(dir) && is_absolute(dir),
    ensures
        components_of(fallback_source(root, path)) == components_of(
            rebased_path(root, path),
        ).drop_last().push(fallback_name(path)),
{
    let dir = parent_of(path)->0;
    let name = fallback_name(path);
    let beside = joined_path(dir, name);
    lemma_parent_and_name(path);
    lemma_fallback_plain(path);
    lemma_join_adds_component(dir, name);
    reveal_strlit("/");
    assert(is_absolute(beside)) by {
        if is_absolute(name) {
            assert(name.contains(name[0]));
        }
        assert(beside[0] == dir[0]);
    }
    lemma_rebased(root, path);
    lemma_rebased(root, beside);
    let front = relative_components(dir);
    assert(relative_components(path) =~= front.push(file_name_of(path)->0));
    assert(relative_components(beside) =~= front.push(name));
    assert((components_of(root) + front.push(file_name_of(path)->0)).drop_last().push(name)
        =~= components_of(root) + front.push(name));
}

proof fn lemma_joined_names(names: Seq<Seq<char>>)
    requires
        names.len() > 0,
        forall|i: int| 0 <= i < names.len() ==> is_plain(#[trigger] names[i]),
    ensures
        components_of("/"@ + joined(names, "/"@)) == seq!["/"@] + names,
        ("/"@ + joined(names, "/"@)).last() != '/',
    decreases names.len(),
{
    reveal_strlit("/");
    let root = "/"@;
    let last = names.last();
    assert(last == names[names.len() - 1]);
    assert(last.last() != '/') by {
        assert(last.contains(last.last()));
    }
    assert(!is_absolute(last)) by {
        assert(last.contains(last[0]));
    }
    if names.len() == 1 {
        lemma_root_components();
        assert(joined_path(root, last) == root + last);
        lemma_join_adds_component(root, last);
        assert(seq![root].push(last) =~= seq![root] + names);
    } else {
        let front = names.drop_last();
        assert forall|i: int| 0 <= i < front.len() implies is_plain(#[trigger] front[i]) by {
            assert(front[i] == names[i]);
        }
        lemma_joined_names(front);
        let base = root + joined(front, root);
        assert(root + joined(names, root) =~= base + root + last);
        assert(joined_path(base, last) == base + root + last);
        lemma_join_adds_component(base, last);
        assert((seq![root] + front).push(last) =~= seq![root] + names);
    }
}

/// Where the EFI system partition is mounted: below the root directory, at the names of its
/// path in their order.
pub proof fn lemma_mount_point_names(path: Seq<char>)
    requires
        esp_path_fault(path) is None,
    ensures
        components_of(mount_point_of(path)) == seq!["/"@] + names_among(components_of(path)),
        forall|i: int|
            0 <= i < names_among(components_of(path)).len() ==> components_of(path).contains(
                #[trigger] names_among(components_of(path))[i],
            ) && is_name(names_among(components_of(path))[i]),
{
    let c = components_of(path);
    let names = names_among(c);
    lemma_components(path);
    lemma_names_among(c);
    assert forall|i: int| 0 <= i < names.len() implies is_plain(#[trigger] names[i]) by {
        let k = choose|k: int| 0 <= k < c.len() && c[k] == names[i];
        assert(is_name(c[k]));
    }
    assert(names.len() > 0) by {
        lemma_esp_path(path);
    }
    lemma_joined_names(names);
}

/// The paths of the entries of a directory: one for each, in order, below the directory.
pub proof fn lemma_entry_paths(dir: Seq<char>, names: Seq<Seq<u8>>)
    ensures
        entry_paths(dir, names).len() == names.len(),
        forall|i: int|
            0 <= i < names.len() ==> entry_paths(dir, names)[i] == joined_path(
                dir,
                name_text(#[trigger] names[i]),
            ),
{
}

} // verus!
