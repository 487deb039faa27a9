//! What the hooks do once the backup is made: which files go to the EFI system partition, which
//! fstab is written, and that each hook runs exactly where it is on.

use crate::access::{lemma_mounted_as_configured, reached};
use crate::backup::{
    finally, mounting_esp, mounting_location, snapshots_dir, updating_live, updating_subvolume,
    updating_subvolumes,
};
use crate::booting::{findmnt, generated, lemma_fstab_uuids, lemma_generated};
use crate::btrfs::{
    checking_subvolume, creating_snapshot_rw, deleting_subvolume, discarding, ensuring_dir,
    installing, renaming, replacing_by_snapshot, setting_aside, subvolume_name,
};
use crate::command_runner::{commanding, complaining, launching, querying, Area};
use crate::config::{BootEntry, HookConfig, LiveBoot, Setup};
use crate::device::{
    checking_mounted, closing, guarding, mounting, mounting_managed, releasing, resolving,
    unmounting, Mounted,
};
use crate::hooks::{
    copying, copying_kernel, dropping, emptying, entries_of, esp_place, fallback_source,
    finding_uuid, generating_fstab, hooking, keeping_copy, regenerating_fstab, removing_files,
    removing_snapper, running_hooks, telling_entries, uuid_call,
};
use crate::journal::{
    drive, failure_in, flag_in, group_plan, perform, present, say, then, Answer, Ask, Call, Log,
    Tone,
};
use crate::lineage::{early, showing};
use crate::orders::{answered, asked_for, lemma_answered, lemma_asked_for};
use crate::path::{file_name_of, joined_path, rebased_path};
use crate::text::{decimal, lines_of};
use crate::trace::{
    extends, group_only, lemma_drive_extends, lemma_only, lemma_only_weaker, only, settled,
};
use vstd::prelude::*;

verus! {

/// From position `at` on, the file was copied where it exists.
pub open spec fn copied(l: Log, at: int, from: Seq<char>, to: Seq<char>) -> bool {
    exists|there: Answer| #[trigger]
        answered(l, at, Ask::Exists(from), there) && (flag_in(there) ==> exists|done: Answer|
            #[trigger]
            answered(l, at, Ask::Copy { from, to }, done) && failure_in(done) is None)
}

proof fn lemma_copied(before: Log, after: Log, at: int, from: int, a: Seq<char>, b: Seq<char>)
    requires
        copied(before, at, a, b),
        extends(before, after),
        0 <= from <= at,
    ensures
        copied(after, from, a, b),
{
    let q = Ask::Copy { from: a, to: b };
    let there = choose|there: Answer| #[trigger]
        answered(before, at, Ask::Exists(a), there) && (flag_in(there) ==> exists|done: Answer|
            #[trigger]
            answered(before, at, q, done) && failure_in(done) is None);
    lemma_answered(before, after, at, from, Ask::Exists(a), there);
    if flag_in(there) {
        let done = choose|done: Answer| #[trigger]
            answered(before, at, q, done) && failure_in(done) is None;
        lemma_answered(before, after, at, from, q, done);
    }
}

/// The request copies nothing but the one file, to the one place.
pub open spec fn copies_only(from: Seq<char>, to: Seq<char>) -> spec_fn(Ask) -> bool {
    |q: Ask| q is Say || q == Ask::Exists(from) || q == (Ask::Copy { from, to })
}

/// Copying a file: it is copied exactly where it exists, and nothing else is asked for. Where it
/// does not exist and that matters, it is warned of.
pub proof fn lemma_copying(
    from: Seq<char>,
    to: Seq<char>,
    said: Seq<char>,
    missing: Option<Seq<char>>,
    log: Log,
)
    requires
        settled(log),
    ensures
        only(copying(from, to, said, missing), copies_only(from, to)),
        ({
            let (l, o) = drive(copying(from, to, said, missing), log);
            let at = log.asked.len() as int;
            &&& o matches Some(Ok(_)) ==> copied(l, at, from, to)
            &&& o matches Some(Ok(_)) ==> (missing matches Some(msg) ==> flag_in(l.answers[at])
                || l.asked.last() == (Ask::Say { tone: Tone::Warning, text: msg + from }))
        }),
{
    broadcast use {group_plan, group_only, lemma_drive_extends};

    reveal(copying);
    let at = log.asked.len() as int;
    let (l, o) = drive(copying(from, to, said, missing), log);
    if o matches Some(Ok(_)) {
        let (l1, o1) = drive(present(from), log);
        assert(l1.asked[at] == Ask::Exists(from));
        assert(extends(l1, l));
        assert(l.asked[at] == l1.asked[at]);
        let there = l.answers[at];
        assert(answered(l, at, Ask::Exists(from), there));
        if flag_in(there) {
            let q = Ask::Copy { from, to };
            let (l2, o2) = drive(perform(q), l1);
            assert(l2.asked[at + 1] == q);
            assert(extends(l2, l));
            assert(l.asked[at + 1] == l2.asked[at + 1]);
            let done = l.answers[at + 1];
            assert(answered(l, at, q, done));
            assert(failure_in(done) is None);
        }
    }
}

/// Where a file with the name of `from` goes on the EFI system partition: right below.
pub open spec fn below_esp(esp: Seq<char>, from: Seq<char>) -> Seq<char> {
    joined_path(
        esp,
        match file_name_of(from) {
            Some(name) => name,
            None => Seq::empty(),
        },
    )
}

/// One of the boot files, from the root volume.
pub open spec fn is_boot_file(root_vol: Seq<char>, entry: BootEntry, from: Seq<char>) -> bool {
    ||| from == rebased_path(root_vol, entry.kernel)
    ||| from == rebased_path(root_vol, entry.initramfs)
    ||| from == fallback_source(root_vol, entry.initramfs)
    ||| entry.microcode matches Some(m) && from == rebased_path(root_vol, m)
}

/// The request copies nothing but boot files, each to its place right below the EFI system
/// partition.
pub open spec fn copies_boot_files(root_vol: Seq<char>, esp: Seq<char>, entry: BootEntry) ->
    spec_fn(Ask) -> bool {
    |q: Ask|
        match q {
            Ask::Say { .. } => true,
            Ask::Exists(path) => is_boot_file(root_vol, entry, path),
            Ask::Copy { from, to } => is_boot_file(root_vol, entry, from) && to == below_esp(
                esp,
                from,
            ),
            _ => false,
        }
}

/// From position `at` on, kernel, initramfs, fallback initramfs and microcode image were copied
/// from the root volume to the EFI system partition, as far as they exist.
pub open spec fn kernel_copied(
    l: Log,
    at: int,
    root_vol: Seq<char>,
    esp: Seq<char>,
    entry: BootEntry,
) -> bool {
    forall|from: Seq<char>|
        is_boot_file(root_vol, entry, from) ==> copied(l, at, from, #[trigger] below_esp(esp, from))
}

/// Copying the kernel: every boot file that exists in the root volume is copied right below the
/// EFI system partition, under its own name, and nothing else is asked for.
pub proof fn lemma_copying_kernel(root_vol: Seq<char>, esp: Seq<char>, entry: BootEntry, log: Log)
    requires
        settled(log),
    ensures
        only(
            copying_kernel(root_vol, esp, entry),
            copies_boot_files(root_vol, esp, entry),
        ),
        ({
            let (l, o) = drive(copying_kernel(root_vol, esp, entry), log);
            o matches Some(Ok(_)) ==> kernel_copied(
                l,
                log.asked.len() as int,
                root_vol,
                esp,
                entry,
            )
        }),
{
    broadcast use {group_plan, group_only, lemma_drive_extends};

    reveal(copying_kernel);
    let at = log.asked.len() as int;
    let pred = copies_boot_files(root_vol, esp, entry);
    let kernel = rebased_path(root_vol, entry.kernel);
    let initramfs = rebased_path(root_vol, entry.initramfs);
    let fallback = fallback_source(root_vol, entry.initramfs);
    let plan = copying_kernel(root_vol, esp, entry);
    assert forall|from: Seq<char>, to: Seq<char>, said: Seq<char>, missing: Option<Seq<char>>|
        is_boot_file(root_vol, entry, from) && to == below_esp(esp, from) implies only(
        #[trigger] copying(from, to, said, missing),
        pred,
    ) by {
        lemma_copying(from, to, said, missing, log);
        lemma_only_weaker(copying(from, to, said, missing), copies_only(from, to), pred);
    }
    assert(only(plan, pred));
    let (l, o) = drive(plan, log);
    if o matches Some(Ok(_)) {
        let p1 = copying(
            kernel,
            esp_place(esp, kernel),
            "Copied kernel: "@,
            Some("Kernel not found at: "@),
        );
        let p2 = copying(
            initramfs,
            esp_place(esp, initramfs),
            "Copied initramfs: "@,
            Some("Initramfs not found at: "@),
        );
        let p3 = copying(
            fallback,
            esp_place(esp, fallback),
            "Copied fallback initramfs: "@,
            None,
        );
        let l1 = drive(p1, log).0;
        let l2 = drive(p2, l1).0;
        let l3 = drive(p3, l2).0;
        assert(extends(l3, l));
        assert(extends(l2, l));
        assert(extends(l1, l));
        lemma_copying(
            kernel,
            below_esp(esp, kernel),
            "Copied kernel: "@,
            Some("Kernel not found at: "@),
            log,
        );
        lemma_copied(l1, l, at, at, kernel, below_esp(esp, kernel));
        lemma_copying(
            initramfs,
            below_esp(esp, initramfs),
            "Copied initramfs: "@,
            Some("Initramfs not found at: "@),
            l1,
        );
        lemma_copied(l2, l, l1.asked.len() as int, at, initramfs, below_esp(esp, initramfs));
        lemma_copying(
            fallback,
            below_esp(esp, fallback),
            "Copied fallback initramfs: "@,
            None,
            l2,
        );
        lemma_copied(l3, l, l2.asked.len() as int, at, fallback, below_esp(esp, fallback));
        if let Some(m) = entry.microcode {
            let from = rebased_path(root_vol, m);
            lemma_copying(
                from,
                below_esp(esp, from),
                "Copied microcode: "@,
                Some("Microcode not found at: "@),
                l3,
            );
            assert(l.asked.is_prefix_of(l.asked));
            lemma_copied(l, l, l3.asked.len() as int, at, from, below_esp(esp, from));
        }
    }
}

/// Where the fstab is in a root volume.
pub open spec fn fstab_in(root_vol: Seq<char>) -> Seq<char> {
    joined_path(root_vol, "etc/fstab"@)
}

/// The request is one of those that write a new fstab: it asks what is mounted at the target or
/// the EFI system partition, keeps a copy of the old fstab beside it, or writes the new one.
pub open spec fn writes_fstab(root_vol: Seq<char>, target_mount: Seq<char>, esp: Seq<char>) ->
    spec_fn(Ask) -> bool {
    |q: Ask|
        match q {
            Ask::Say { .. } | Ask::Exists(_) => true,
            Ask::Run(c) => c == findmnt(target_mount) || c == findmnt(esp),
            Ask::Copy { from, to } => from == fstab_in(root_vol) && to == fstab_in(root_vol)
                + ".backup"@,
            Ask::WriteFile { path, .. } => path == fstab_in(root_vol),
            _ => false,
        }
}

/// From position `at` on, a file was written at the place, and it is a generated fstab. Before,
/// what stood there was copied.
pub open spec fn fstab_written(
    l: Log,
    at: int,
    root_vol: Seq<char>,
    target_mount: Seq<char>,
    esp: Seq<char>,
    c: Setup,
) -> bool {
    let path = fstab_in(root_vol);
    exists|i: int|
        {
            &&& at <= i < l.asked.len()
            &&& #[trigger] l.asked[i] matches Ask::WriteFile { path: p, text } && p == path
                && generated(l, at, root_vol, target_mount, esp, c, text)
            &&& failure_in(l.answers[i]) is None
            &&& copied(early(l, i), at, path, path + ".backup"@)
        }
}

proof fn lemma_fstab_written(
    before: Log,
    after: Log,
    at: int,
    from: int,
    root_vol: Seq<char>,
    target_mount: Seq<char>,
    esp: Seq<char>,
    c: Setup,
)
    requires
        fstab_written(before, at, root_vol, target_mount, esp, c),
        extends(before, after),
        0 <= from <= at,
    ensures
        fstab_written(after, from, root_vol, target_mount, esp, c),
{
    let path = fstab_in(root_vol);
    let i = choose|i: int|
        {
            &&& at <= i < before.asked.len()
            &&& #[trigger] before.asked[i] matches Ask::WriteFile { path: p, text } && p == path
                && generated(before, at, root_vol, target_mount, esp, c, text)
            &&& failure_in(before.answers[i]) is None
            &&& copied(early(before, i), at, path, path + ".backup"@)
        };
    assert(after.asked[i] == before.asked[i]);
    let text = before.asked[i]->WriteFile_text;
    lemma_generated(before, after, at, from, root_vol, target_mount, esp, c, text);
    assert(early(before, i).asked =~= early(after, i).asked);
    assert(early(after, i).asked.is_prefix_of(early(after, i).asked));
    lemma_copied(early(before, i), early(after, i), at, from, path, path + ".backup"@);
}

proof fn lemma_keeping_copy(path: Seq<char>, backup: Seq<char>, log: Log)
    requires
        settled(log),
    ensures
        ({
            let (l, o) = drive(keeping_copy(path, backup), log);
            o matches Some(Ok(_)) ==> copied(l, log.asked.len() as int, path, backup)
        }),
{
    broadcast use {group_plan, lemma_drive_extends};

    let at = log.asked.len() as int;
    let (l, o) = drive(keeping_copy(path, backup), log);
    if o matches Some(Ok(_)) {
        let (l1, o1) = drive(present(path), log);
        assert(l1.asked[at] == Ask::Exists(path));
        assert(extends(l1, l));
        assert(l.asked[at] == l1.asked[at]);
        let there = l.answers[at];
        assert(answered(l, at, Ask::Exists(path), there));
        if flag_in(there) {
            let q = Ask::Copy { from: path, to: backup };
            assert(l.asked[at + 2] == q);
            assert(answered(l, at, q, l.answers[at + 2]));
        }
    }
}

broadcast proof fn lemma_telling_says(
    entries: Seq<Seq<char>>,
    i: int,
    root_vol: Seq<char>,
    target_mount: Seq<char>,
    esp: Seq<char>,
)
    ensures
        #[trigger] only(telling_entries(entries, i), writes_fstab(root_vol, target_mount, esp)),
    decreases entries.len() - i,
{
    broadcast use group_only;

    if 0 <= i < entries.len() {
        lemma_telling_says(entries, i + 1, root_vol, target_mount, esp);
    }
}

proof fn lemma_generating_asks(
    root_vol: Seq<char>,
    target_mount: Seq<char>,
    esp: Seq<char>,
    c: Setup,
)
    ensures
        only(
            generating_fstab(root_vol, target_mount, esp, c),
            writes_fstab(root_vol, target_mount, esp),
        ),
{
    broadcast use group_only;

    let pred = writes_fstab(root_vol, target_mount, esp);
    reveal(generating_fstab);
    assert(uuid_call(target_mount).args =~= findmnt(target_mount).args);
    assert(uuid_call(esp).args =~= findmnt(esp).args);
    assert(only(finding_uuid(target_mount), pred) && only(finding_uuid(esp), pred)) by {
        reveal(finding_uuid);
        reveal(querying);
    }
}

/// Regenerating the fstab: the old one is copied beside it where there is one, and then a
/// generated one is written in its place. Nothing else is asked for but what is mounted at the
/// target and the EFI system partition.
pub proof fn lemma_regenerating_fstab(
    root_vol: Seq<char>,
    target_mount: Seq<char>,
    esp: Seq<char>,
    c: Setup,
    log: Log,
)
    requires
        settled(log),
    ensures
        only(
            regenerating_fstab(root_vol, target_mount, esp, c),
            writes_fstab(root_vol, target_mount, esp),
        ),
        ({
            let (l, o) = drive(regenerating_fstab(root_vol, target_mount, esp, c), log);
            o matches Some(Ok(_)) ==> fstab_written(
                l,
                log.asked.len() as int,
                root_vol,
                target_mount,
                esp,
                c,
            )
        }),
{
    broadcast use {group_plan, group_only, lemma_drive_extends, lemma_telling_says};

    reveal(regenerating_fstab);
    let at = log.asked.len() as int;
    let path = fstab_in(root_vol);
    let backup = path + ".backup"@;
    let plan = regenerating_fstab(root_vol, target_mount, esp, c);
    lemma_generating_asks(root_vol, target_mount, esp, c);
    assert(only(plan, writes_fstab(root_vol, target_mount, esp)));
    let (l, o) = drive(plan, log);
    if o matches Some(Ok(_)) {
        let (l1, o1) = drive(generating_fstab(root_vol, target_mount, esp, c), log);
        let text = o1->0->Ok_0;
        lemma_fstab_uuids(root_vol, target_mount, esp, c, log);
        let l2 = drive(keeping_copy(path, backup), l1).0;
        lemma_keeping_copy(path, backup, l1);
        let entries = entries_of(lines_of(text));
        let l3 = drive(
            say(Tone::Detail, "Generated "@ + decimal(entries.len()) + " fstab entries"@),
            l2,
        ).0;
        let l4 = drive(telling_entries(entries, 0), l3).0;
        let q = Ask::WriteFile { path, text };
        let l5 = drive(perform(q), l4).0;
        let i = l4.asked.len() as int;
        assert(l5.asked[i] == q);
        assert(extends(l5, l));
        assert(l.asked[i] == l5.asked[i]);
        assert(extends(l1, l));
        lemma_generated(l1, l, at, at, root_vol, target_mount, esp, c, text);
        assert(extends(l2, l4));
        assert(extends(l4, l));
        assert(early(l, i).asked =~= l4.asked);
        assert(extends(l2, early(l, i)));
        lemma_copied(l2, early(l, i), l1.asked.len() as int, at, path, backup);
    }
}

/// The request writes, copies and runs nothing.
pub open spec fn removes_at_most() -> spec_fn(Ask) -> bool {
    |q: Ask| !(q is WriteFile) && !(q is Copy) && !(q is Run)
}

proof fn lemma_removing_files_removes(paths: Seq<Seq<char>>, i: int)
    ensures
        only(removing_files(paths, i), removes_at_most()),
    decreases paths.len() - i,
{
    broadcast use group_only;

    if 0 <= i < paths.len() {
        lemma_removing_files_removes(paths, i + 1);
    }
}

proof fn lemma_removing_snapper_asks(root: Seq<char>, log: Log)
    requires
        settled(log),
    ensures
        only(removing_snapper(root), removes_at_most()),
        ({
            let (l, o) = drive(removing_snapper(root), log);
            o matches Some(Ok(_)) ==> snapper_looked_for(l, log.asked.len() as int, root)
        }),
{
    broadcast use {group_plan, group_only, lemma_drive_extends};

    reveal(removing_snapper);
    reveal(emptying);
    reveal(dropping);
    assert forall|paths: Seq<Seq<char>>, i: int| only(
        #[trigger] removing_files(paths, i),
        removes_at_most(),
    ) by {
        lemma_removing_files_removes(paths, i);
    }
    assert(only(removing_snapper(root), removes_at_most()));
    let at = log.asked.len() as int;
    let (l, o) = drive(removing_snapper(root), log);
    if o matches Some(Ok(_)) {
        let dir = joined_path(root, "etc/snapper/configs"@);
        let first = joined_path(
            root,
            "etc/systemd/system/multi-user.target.wants/snapper-cleanup.service"@,
        );
        let second = joined_path(
            root,
            "etc/systemd/system/timers.target.wants/snapper-cleanup.timer"@,
        );
        let l1 = drive(emptying(dir), log).0;
        let l2 = drive(dropping(first), l1).0;
        lemma_asks_first(dir, log, l1);
        lemma_asks_first(first, l1, l2);
        lemma_asks_first(second, l2, l);
        assert(extends(l2, l));
        assert(extends(l1, l));
        lemma_asked_for(l1, l, at, at, Ask::Exists(dir));
        lemma_asked_for(l2, l, l1.asked.len() as int, at, Ask::Exists(first));
        assert(l.asked.is_prefix_of(l.asked));
        lemma_asked_for(l, l, l2.asked.len() as int, at, Ask::Exists(second));
    }
}

proof fn lemma_asks_first(path: Seq<char>, log: Log, l: Log)
    requires
        settled(log),
        (l == drive(emptying(path), log).0 && drive(emptying(path), log).1 is Some) || (l == drive(
            dropping(path),
            log,
        ).0 && drive(dropping(path), log).1 is Some),
    ensures
        asked_for(l, log.asked.len() as int, Ask::Exists(path)),
{
    broadcast use {group_plan, lemma_drive_extends};

    reveal(emptying);
    reveal(dropping);
    let l1 = drive(present(path), log).0;
    assert(l1.asked[log.asked.len() as int] == Ask::Exists(path));
    assert(extends(l1, l));
    assert(l.asked[log.asked.len() as int] == l1.asked[log.asked.len() as int]);
}

/// From position `at` on, the snapper configuration, its service and its timer were looked for.
pub open spec fn snapper_looked_for(l: Log, at: int, root: Seq<char>) -> bool {
    &&& asked_for(l, at, Ask::Exists(joined_path(root, "etc/snapper/configs"@)))
    &&& asked_for(
        l,
        at,
        Ask::Exists(
            joined_path(
                root,
                "etc/systemd/system/multi-user.target.wants/snapper-cleanup.service"@,
            ),
        ),
    )
    &&& asked_for(
        l,
        at,
        Ask::Exists(
            joined_path(root, "etc/systemd/system/timers.target.wants/snapper-cleanup.timer"@),
        ),
    )
}

proof fn lemma_looked_for(before: Log, after: Log, at: int, from: int, root: Seq<char>)
    requires
        snapper_looked_for(before, at, root),
        extends(before, after),
        0 <= from <= at,
    ensures
        snapper_looked_for(after, from, root),
{
    lemma_asked_for(
        before,
        after,
        at,
        from,
        Ask::Exists(joined_path(root, "etc/snapper/configs"@)),
    );
    lemma_asked_for(
        before,
        after,
        at,
        from,
        Ask::Exists(
            joined_path(
                root,
                "etc/systemd/system/multi-user.target.wants/snapper-cleanup.service"@,
            ),
        ),
    );
    lemma_asked_for(
        before,
        after,
        at,
        from,
        Ask::Exists(
            joined_path(root, "etc/systemd/system/timers.target.wants/snapper-cleanup.timer"@),
        ),
    );
}

/// From position `at` on, every hook that is on did its work: on the root volume of the live
/// boot environment, the mounted EFI system partition and the mounted target.
pub open spec fn hooks_done(
    l: Log,
    at: int,
    live_boot_path: Seq<char>,
    target_mount: Seq<char>,
    esp: Seq<char>,
    hooks: HookConfig,
    entry: BootEntry,
    c: Setup,
) -> bool {
    let root_vol = joined_path(live_boot_path, "root_vol"@);
    &&& hooks.copy_kernel ==> kernel_copied(l, at, root_vol, esp, entry)
    &&& hooks.regenerate_fstab ==> fstab_written(l, at, root_vol, target_mount, esp, c)
    &&& hooks.remove_snapper_config ==> snapper_looked_for(l, at, root_vol)
}

proof fn lemma_kernel_copied(
    before: Log,
    after: Log,
    at: int,
    from: int,
    root_vol: Seq<char>,
    esp: Seq<char>,
    entry: BootEntry,
)
    requires
        kernel_copied(before, at, root_vol, esp, entry),
        extends(before, after),
        0 <= from <= at,
    ensures
        kernel_copied(after, from, root_vol, esp, entry),
{
    assert forall|file: Seq<char>| is_boot_file(root_vol, entry, file) implies copied(
        after,
        from,
        file,
        #[trigger] below_esp(esp, file),
    ) by {
        lemma_copied(before, after, at, from, file, below_esp(esp, file));
    }
}

pub(crate) proof fn lemma_hooks_done(
    before: Log,
    after: Log,
    at: int,
    from: int,
    live_boot_path: Seq<char>,
    target_mount: Seq<char>,
    esp: Seq<char>,
    hooks: HookConfig,
    entry: BootEntry,
    c: Setup,
)
    requires
        hooks_done(before, at, live_boot_path, target_mount, esp, hooks, entry, c),
        extends(before, after),
        0 <= from <= at,
    ensures
        hooks_done(after, from, live_boot_path, target_mount, esp, hooks, entry, c),
{
    let root_vol = joined_path(live_boot_path, "root_vol"@);
    if hooks.copy_kernel {
        lemma_kernel_copied(before, after, at, from, root_vol, esp, entry);
    }
    if hooks.regenerate_fstab {
        lemma_fstab_written(before, after, at, from, root_vol, target_mount, esp, c);
    }
    if hooks.remove_snapper_config {
        lemma_looked_for(before, after, at, from, root_vol);
    }
}

/// The request is one that a hook makes that is on: without the hook for the fstab no file is
/// written and no command is run, and without the one for the kernel as well none is copied;
/// without the one for snapper none is removed.
pub open spec fn hooked(
    live_boot_path: Seq<char>,
    target_mount: Seq<char>,
    esp: Seq<char>,
    hooks: HookConfig,
    entry: BootEntry,
) -> spec_fn(Ask) -> bool {
    |q: Ask|
        {
            let root_vol = joined_path(live_boot_path, "root_vol"@);
            match q {
                Ask::Run(c) => hooks.regenerate_fstab && (c == findmnt(target_mount) || c
                    == findmnt(esp)),
                Ask::WriteFile { path, .. } => hooks.regenerate_fstab && path == fstab_in(root_vol),
                Ask::Copy { from, to } => {
                    ||| hooks.copy_kernel && is_boot_file(root_vol, entry, from) && to == below_esp(
                        esp,
                        from,
                    )
                    ||| hooks.regenerate_fstab && from == fstab_in(root_vol) && to == fstab_in(
                        root_vol,
                    ) + ".backup"@
                },
                Ask::RemoveFile(_) | Ask::RemoveDir(_) => hooks.remove_snapper_config,
                _ => true,
            }
        }
}

/// Running the hooks: each hook that is on does its work, and each that is off asks for
/// nothing.
pub proof fn lemma_running_hooks(
    live_boot_path: Seq<char>,
    target_mount: Seq<char>,
    esp: Seq<char>,
    hooks: HookConfig,
    entry: BootEntry,
    c: Setup,
    log: Log,
)
    requires
        settled(log),
    ensures
        ({
            let plan = running_hooks(live_boot_path, target_mount, esp, hooks, entry, c);
            let (l, o) = drive(plan, log);
            &&& only(plan, hooked(live_boot_path, target_mount, esp, hooks, entry))
            &&& o matches Some(Ok(_)) ==> hooks_done(
                l,
                log.asked.len() as int,
                live_boot_path,
                target_mount,
                esp,
                hooks,
                entry,
                c,
            )
        }),
{
    broadcast use {group_plan, group_only, lemma_drive_extends};

    reveal(running_hooks);
    let at = log.asked.len() as int;
    let root_vol = joined_path(live_boot_path, "root_vol"@);
    let pred = hooked(live_boot_path, target_mount, esp, hooks, entry);
    let plan = running_hooks(live_boot_path, target_mount, esp, hooks, entry, c);
    let kernel = copying_kernel(root_vol, esp, entry);
    let fstab = regenerating_fstab(root_vol, target_mount, esp, c);
    let snapper = removing_snapper(root_vol);
    lemma_copying_kernel(root_vol, esp, entry, log);
    lemma_regenerating_fstab(root_vol, target_mount, esp, c, log);
    lemma_removing_snapper_asks(root_vol, log);
    if hooks.copy_kernel {
        lemma_only_weaker(kernel, copies_boot_files(root_vol, esp, entry), pred);
    }
    if hooks.regenerate_fstab {
        lemma_only_weaker(fstab, writes_fstab(root_vol, target_mount, esp), pred);
    }
    if hooks.remove_snapper_config {
        lemma_only_weaker(snapper, removes_at_most(), pred);
    }
    assert(only(plan, pred));
    let (l, o) = drive(plan, log);
    if o matches Some(Ok(_)) {
        let p1 = hooking(hooks.copy_kernel, "Copying kernel and initramfs to ESP"@, kernel);
        let p2 = hooking(hooks.regenerate_fstab, "Regenerating fstab for live boot"@, fstab);
        let l1 = drive(p1, log).0;
        let l2 = drive(p2, l1).0;
        assert(extends(l1, l));
        assert(extends(l2, l));
        if hooks.copy_kernel {
            let m = drive(say(Tone::Substep, "Copying kernel and initramfs to ESP"@), log).0;
            lemma_copying_kernel(root_vol, esp, entry, m);
            lemma_kernel_copied(l1, l, m.asked.len() as int, at, root_vol, esp, entry);
        }
        if hooks.regenerate_fstab {
            let m = drive(say(Tone::Substep, "Regenerating fstab for live boot"@), l1).0;
            lemma_regenerating_fstab(root_vol, target_mount, esp, c, m);
            let k = m.asked.len() as int;
            lemma_fstab_written(l2, l, k, at, root_vol, target_mount, esp, c);
        }
        if hooks.remove_snapper_config {
            let m = drive(say(Tone::Substep, "Removing snapper config from live boot"@), l2).0;
            lemma_removing_snapper_asks(root_vol, m);
            assert(l.asked.is_prefix_of(l.asked));
            lemma_looked_for(l, l, m.asked.len() as int, at, root_vol);
        }
    }
}

/// Bringing the live boot environment up to date: the EFI system partition that the
/// configuration names is mounted, and the hooks that are on do their work on it, on the
/// mounted target, and on the root volume below the live subvolume of the target.
pub proof fn lemma_updating_live(c: Setup, boot: LiveBoot, mount: Seq<char>, log: Log)
    requires
        settled(log),
        c.live_boot == Some(boot),
    ensures
        ({
            let (l, o) = drive(updating_live(c, mount), log);
            let at = log.asked.len() as int;
            o matches Some(Ok(_)) ==> exists|m: Log, k: int, esp: Mounted|
                {
                    &&& at <= k
                    &&& extends(m, l)
                    &&& #[trigger] reached(m, k, boot.esp_location, None, esp)
                    &&& hooks_done(
                        l,
                        at,
                        joined_path(mount, c.target.live_root()),
                        mount,
                        esp.point,
                        c.hooks,
                        boot.boot_entry,
                        c,
                    )
                }
        }),
{
    broadcast use {group_plan, lemma_drive_extends};

    reveal(updating_live);
    let at = log.asked.len() as int;
    let (l, o) = drive(updating_live(c, mount), log);
    let live = joined_path(mount, c.target.live_root());
    if o matches Some(Ok(_)) {
        let l1 = drive(
            say(
                Tone::Detail,
                "Updating live boot for "@ + decimal(c.sources.len()) + " sources"@,
            ),
            log,
        ).0;
        let l2 = drive(updating_subvolumes(c, mount, 0), l1).0;
        let (l3, o3) = drive(mounting_esp(boot), l2);
        let esp = o3->0->Ok_0;
        lemma_mounted_as_configured(
            boot.esp_location,
            None,
            Seq::empty(),
            c.target,
            boot,
            l2,
        );
        let l4 = drive(say(Tone::Substep, "Running post-backup hooks"@), l3).0;
        let p5 = running_hooks(live, mount, esp.point, c.hooks, boot.boot_entry, c);
        let l5 = drive(p5, l4).0;
        lemma_running_hooks(live, mount, esp.point, c.hooks, boot.boot_entry, c, l4);
        assert(extends(l5, l));
        assert(extends(l3, l)) by {
            assert(extends(l4, l5));
            assert(extends(l3, l4));
        }
        lemma_hooks_done(
            l5,
            l,
            l4.asked.len() as int,
            at,
            live,
            mount,
            esp.point,
            c.hooks,
            boot.boot_entry,
            c,
        );
        assert(reached(l3, l2.asked.len() as int, boot.esp_location, None, esp));
    }
}

/// The request writes and copies no file.
pub open spec fn leaves_files() -> spec_fn(Ask) -> bool {
    |q: Ask| !(q is Copy) && !(q is WriteFile)
}

/// The request changes no subvolume with a command.
pub open spec fn leaves_subvolumes() -> spec_fn(Ask) -> bool {
    |q: Ask| q matches Ask::Run(c) ==> c.program != "btrfs"@
}

broadcast proof fn lemma_command_leaves_files(area: Area, c: Call, msg: Seq<char>)
    ensures
        #[trigger] only(commanding(area, c, msg), leaves_files()),
{
    broadcast use group_only;

    reveal(commanding);
    reveal(launching);
    reveal(complaining);
}

broadcast proof fn lemma_command_leaves_subvolumes(area: Area, c: Call, msg: Seq<char>)
    requires
        c.program != "btrfs"@,
    ensures
        #[trigger] only(commanding(area, c, msg), leaves_subvolumes()),
{
    broadcast use group_only;

    reveal(commanding);
    reveal(launching);
    reveal(complaining);
}

broadcast proof fn lemma_renaming_leaves_files(from: Seq<char>, to: Seq<char>)
    ensures
        #[trigger] only(renaming(from, to), leaves_files()),
{
    broadcast use group_only;

    reveal(renaming);
    reveal(checking_subvolume);
    reveal(querying);
}

proof fn lemma_updating_leaves_files(c: Setup, mount: Seq<char>, i: int)
    ensures
        only(updating_subvolumes(c, mount, i), leaves_files()),
    decreases c.sources.len() - i,
{
    broadcast use {group_only, lemma_command_leaves_files, lemma_renaming_leaves_files};

    if 0 <= i < c.sources.len() {
        lemma_updating_leaves_files(c, mount, i + 1);
        reveal(checking_subvolume);
        reveal(querying);
        reveal(updating_subvolume);
        reveal(replacing_by_snapshot);
        reveal(creating_snapshot_rw);
        reveal(setting_aside);
        reveal(installing);
        reveal(discarding);
        reveal(deleting_subvolume);
    }
}

proof fn lemma_not_btrfs()
    ensures
        "mount"@ != "btrfs"@,
        "umount"@ != "btrfs"@,
        "findmnt"@ != "btrfs"@,
        "findfs"@ != "btrfs"@,
        "cryptsetup"@ != "btrfs"@,
{
    reveal_strlit("btrfs");
    reveal_strlit("mount");
    reveal_strlit("umount");
    reveal_strlit("findmnt");
    reveal_strlit("findfs");
    reveal_strlit("cryptsetup");
    assert("mount"@[0] == 'm');
    assert("btrfs"@[0] == 'b');
    assert("umount"@.len() == 6);
    assert("findmnt"@.len() == 7);
    assert("findfs"@.len() == 6);
    assert("cryptsetup"@.len() == 10);
}

proof fn lemma_esp_leaves_subvolumes(boot: LiveBoot, m: Mounted)
    ensures
        only(mounting_esp(boot), leaves_subvolumes()),
        only(releasing(m), leaves_subvolumes()),
{
    broadcast use {group_only, lemma_command_leaves_subvolumes};

    lemma_not_btrfs();
    reveal(mounting_esp);
    reveal(mounting_location);
    reveal(guarding);
    reveal(mounting_managed);
    reveal(resolving);
    reveal(mounting);
    reveal(checking_mounted);
    reveal(ensuring_dir);
    reveal(querying);
    reveal(complaining);
    reveal(releasing);
    reveal(unmounting);
    reveal(closing);
}

/// The hooks come after the live subvolumes: once a file is written or copied, no subvolume is
/// changed any more, so that what the hooks write is in what is booted.
pub proof fn lemma_hooks_come_last(c: Setup, boot: LiveBoot, mount: Seq<char>, log: Log)
    requires
        settled(log),
        c.live_boot == Some(boot),
    ensures
        ({
            let (l, o) = drive(updating_live(c, mount), log);
            let at = log.asked.len() as int;
            forall|i: int, j: int|
                at <= i < j < l.asked.len() && !leaves_files()(#[trigger] l.asked[i])
                    ==> leaves_subvolumes()(#[trigger] l.asked[j])
        }),
{
    broadcast use {group_plan, group_only, lemma_drive_extends};

    reveal(updating_live);
    let at = log.asked.len() as int;
    let (l, o) = drive(updating_live(c, mount), log);
    let live = joined_path(mount, c.target.live_root());
    let first = leaves_files();
    let last = leaves_subvolumes();
    let p1 = say(
        Tone::Detail,
        "Updating live boot for "@ + decimal(c.sources.len()) + " sources"@,
    );
    let start = then(p1, |u: ()| updating_subvolumes(c, mount, 0));
    lemma_updating_leaves_files(c, mount, 0);
    assert(only(start, first));
    let (l2, o2) = drive(start, log);
    lemma_only(start, first, log);
    let finish = then(
        mounting_esp(boot),
        |esp: Mounted|
            finally(
                then(
                    say(Tone::Substep, "Running post-backup hooks"@),
                    |u: ()|
                        running_hooks(live, mount, esp.point, c.hooks, boot.boot_entry, c),
                ),
                releasing(esp),
            ),
    );
    assert(only(finish, last)) by {
        assert forall|esp: Mounted| only(#[trigger] releasing(esp), last) by {
            lemma_esp_leaves_subvolumes(boot, esp);
        }
        lemma_esp_leaves_subvolumes(boot, arbitrary());
        assert forall|point: Seq<char>| only(
            #[trigger] running_hooks(live, mount, point, c.hooks, boot.boot_entry, c),
            last,
        ) by {
            lemma_running_hooks(live, mount, point, c.hooks, boot.boot_entry, c, log);
            lemma_not_btrfs();
            lemma_only_weaker(
                running_hooks(live, mount, point, c.hooks, boot.boot_entry, c),
                hooked(live, mount, point, c.hooks, boot.boot_entry),
                last,
            );
        }
    }
    if o2 matches Some(Ok(_)) {
        assert(l.asked == drive(finish, l2).0.asked);
        lemma_only(finish, last, l2);
        assert(extends(l2, l));
        assert forall|i: int, j: int|
            at <= i < j < l.asked.len() && !first(#[trigger] l.asked[i]) implies last(
            #[trigger] l.asked[j],
        ) by {
            if i < l2.asked.len() {
                assert(l.asked[i] == l2.asked[i]);
                assert(first(l2.asked[i]));
            }
        }
    } else {
        assert(l.asked == l2.asked);
        assert forall|i: int| at <= i < l.asked.len() implies first(#[trigger] l.asked[i]) by {
            assert(first(l2.asked[i]));
        }
    }
}

/// A source without a snapshot on the target keeps none of the others from being brought up to
/// date: it is warned of, nothing is changed for it, and the next one has its turn.
pub proof fn lemma_missing_snapshot_skipped(c: Setup, mount: Seq<char>, i: int, log: Log)
    requires
        settled(log),
        0 <= i < c.sources.len(),
        log.asked.len() + 4 <= log.answers.len(),
        log.answers[log.asked.len() as int + 2] matches Answer::Ran(p) && !p.success,
    ensures
        ({
            let path = c.sources[i].path;
            let name = subvolume_name(path);
            let snapshot = joined_path(snapshots_dir(c.target, mount), name);
            let warning = Ask::Say {
                tone: Tone::Warning,
                text: "Snapshot subvolume not found at "@ + snapshot
                    + ", skipping live update for "@ + path,
            };
            exists|l: Log|
                {
                    &&& extends(log, l)
                    &&& l.asked.len() == log.asked.len() + 4
                    &&& l.asked[log.asked.len() as int + 2] == Ask::Run(showing(snapshot))
                    &&& l.asked.last() == warning
                    &&& forall|k: int|
                        log.asked.len() <= k < l.asked.len() && k != log.asked.len() + 2 ==> (
                        #[trigger] l.asked[k]) is Say
                    &&& drive(updating_subvolumes(c, mount, i), log) == #[trigger] drive(
                        updating_subvolumes(c, mount, i + 1),
                        l,
                    )
                }
        }),
{
    broadcast use {group_plan, lemma_drive_extends};

    reveal(checking_subvolume);
    reveal(querying);
    let path = c.sources[i].path;
    let name = subvolume_name(path);
    let snapshot = joined_path(snapshots_dir(c.target, mount), name);
    assert(crate::btrfs::show_call(snapshot).args =~= showing(snapshot).args);
    let l1 = drive(say(Tone::Substep, "Updating live subvolume: "@ + name), log).0;
    let l2 = drive(checking_subvolume(snapshot), l1).0;
    let text = "Snapshot subvolume not found at "@ + snapshot + ", skipping live update for "@
        + path;
    let l3 = drive(say(Tone::Warning, text), l2).0;
    assert(extends(l2, l3));
    assert(l3.asked[log.asked.len() as int + 2] == Ask::Run(showing(snapshot)));
    assert(drive(updating_subvolumes(c, mount, i), log) == drive(
        updating_subvolumes(c, mount, i + 1),
        l3,
    ));
}

} // verus!
