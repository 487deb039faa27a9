//! What is owed where nothing goes wrong: with a usable configuration, and answers none of which
//! is a failure, every command succeeds.

use crate::backup::{
    acquiring, announcing, backing_up, backing_up_all, backing_up_each, backing_up_one,
    backing_up_to_target, conclusion, locking_step, mounting_esp, mounting_location,
    mounting_target, preparing, preparing_mounted, preparing_on_target, running, sending,
    summing_up, telling_outcomes, telling_sources, updating_after, updating_live,
    updating_subvolume, updating_subvolumes, working, Outcome,
};
use crate::btrfs::{
    checking_filesystem, checking_subvolume, clearing_up, creating_snapshot, creating_snapshot_rw,
    creating_subvolume, deleting_subvolume, discarding, ensuring_dir, installing, judging_transfer,
    lemma_subvolume_name, making_room, naming, place_of, receiving_as, renaming, replacing_by_send,
    replacing_by_snapshot, setting_aside, settling, subvolume_name, transferring, Swap,
};
use crate::cli::Commands;
use crate::command_runner::{commanding, launching, querying, Area};
use crate::config::{
    esp_path_fault, judging, validating, validating_encryption, validating_live_boot,
    validating_rest, validating_source, validating_sources, validating_target, BootEntry,
    Encryption, HookConfig, LiveBoot, Location, Setup, Source, Target,
};
use crate::course::lemma_conclusion;
use crate::device::{
    checking_luks_at, checking_mounted, closing, guarding, guarding_encrypted, mounting,
    mounting_managed, opening_at, opening_with_passphrase, releasing, resolving, unmounting,
    Mounted,
};
use crate::error::Fault;
use crate::hooks::{
    copying, copying_kernel, dropping, emptying, finding_uuid, generating_fstab, regenerating_fstab,
    removing_files, removing_snapper, running_hooks, telling_entries,
};
use crate::journal::{
    ask, asking, bind, drive, run, Answer, Ask, Call, Log, Plan, Printed, Sent, TransferStats,
};
use crate::liveboot::{
    creating_entry, finding_luks, finding_luks_uuid, finding_root, installing_bootloader,
    preparing_live_boot, providing_subvolume, resolving_target, LuksBoot,
};
use crate::path::{file_name_of, joined_path, lemma_join_adds_component, lemma_joined_name};
use crate::snapper::lemma_snapper_place;
use crate::snapshot::{
    cleaning, cleaning_by_snapper, creating_by_snapper, creating_local, creating_manual,
    creating_with_parent, deleting_if_there, deleting_listed, finding_previous, finding_subvolume,
    listing, snapper_place, Owned,
};
use crate::text::{lossy_text, parsed, trimmed};
use crate::trace::{lemma_drive_extends, settled};
use vstd::prelude::*;

verus! {

/// Every run of the plan in which the answers are as `good` says ends in an outcome that
/// satisfies `post`.
#[verifier::opaque]
pub open spec fn ends<T>(
    p: Plan<T>,
    good: spec_fn(Ask, Answer) -> bool,
    post: spec_fn(T) -> bool,
) -> bool
    decreases p,
{
    match p {
        Plan::Done(t) => post(t),
        Plan::Ask(q, k) => forall|a: Answer| good(q, a) ==> ends(#[trigger] k(a), good, post),
    }
}

broadcast proof fn lemma_ends_done<T>(
    t: T,
    good: spec_fn(Ask, Answer) -> bool,
    post: spec_fn(T) -> bool,
)
    ensures
        #[trigger] ends(Plan::Done(t), good, post) == post(t),
{
    reveal(ends);
}

broadcast proof fn lemma_ends_ask(
    q: Ask,
    good: spec_fn(Ask, Answer) -> bool,
    post: spec_fn(Answer) -> bool,
)
    requires
        forall|a: Answer| good(q, a) ==> #[trigger] post(a),
    ensures
        #[trigger] ends(ask(q), good, post),
{
    reveal_with_fuel(ends, 2);
}

broadcast proof fn lemma_ends_bind<T, U>(
    p: Plan<T>,
    f: spec_fn(T) -> Plan<U>,
    good: spec_fn(Ask, Answer) -> bool,
    post: spec_fn(U) -> bool,
)
    ensures
        #[trigger] ends(bind(p, f), good, post) == ends(p, good, |t: T| ends(f(t), good, post)),
    decreases p,
{
    reveal(ends);
    reveal(bind);
    match p {
        Plan::Done(t) => {},
        Plan::Ask(q, k) => {
            assert forall|a: Answer| #[trigger] ends(bind(k(a), f), good, post) == ends(
                k(a),
                good,
                |t: T| ends(f(t), good, post),
            ) by {
                lemma_ends_bind(k(a), f, good, post);
            }
            let g = bind(p, f)->Ask_1;
            assert(bind(p, f) == Plan::Ask(q, g));
            assert forall|a: Answer| #[trigger] g(a) == bind(k(a), f) by {}
            let inner = |t: T| ends(f(t), good, post);
            if ends(p, good, inner) {
                assert forall|a: Answer| good(q, a) implies ends(#[trigger] g(a), good, post) by {
                    assert(ends(k(a), good, inner));
                    assert(ends(bind(k(a), f), good, post));
                }
            }
            if ends(bind(p, f), good, post) {
                assert forall|a: Answer| good(q, a) implies ends(#[trigger] k(a), good, inner) by {
                    assert(ends(g(a), good, post));
                    assert(ends(bind(k(a), f), good, post));
                }
            }
        },
    }
}

broadcast group group_ends {
    lemma_ends_done,
    lemma_ends_ask,
    lemma_ends_bind,
}

/// What `ends` says of a plan holds of each of its runs.
proof fn lemma_ends<T>(
    p: Plan<T>,
    good: spec_fn(Ask, Answer) -> bool,
    post: spec_fn(T) -> bool,
    log: Log,
)
    requires
        ends(p, good, post),
        settled(log),
        forall|i: int|
            log.asked.len() <= i < drive(p, log).0.asked.len() ==> good(
                #[trigger] drive(p, log).0.asked[i],
                drive(p, log).0.answers[i],
            ),
    ensures
        drive(p, log).1 matches Some(t) ==> post(t),
    decreases p,
{
    reveal(drive);
    reveal(ends);
    match p {
        Plan::Done(t) => {},
        Plan::Ask(q, k) => match asking(log, q) {
            (l, None) => {},
            (l, Some(a)) => {
                let n = log.asked.len() as int;
                let whole = drive(p, log).0;
                lemma_drive_extends(k(a), l);
                assert(whole.asked[n] == l.asked[n]);
                assert(good(q, a));
                lemma_ends(k(a), good, post, l);
            },
        },
    }
}

/// The path has to be there for the configuration to be usable.
pub open spec fn needed(c: Setup, path: Seq<char>) -> bool {
    ||| exists|i: int| 0 <= i < c.sources.len() && (#[trigger] c.sources[i]).path == path
    ||| c.target.location == Location::MountedPath(path)
    ||| c.live_boot matches Some(l) && l.esp_location == Location::MountedPath(path)
    ||| c.target.encryption matches Some(e) && e.keyfile == Some(path)
}

/// A question that has two good answers: whether something is mounted at a place.
pub open spec fn asks_mounted(call: Call) -> bool {
    call.program == "findmnt"@ && call.args.len() == 3
}

/// What a program prints where it is read: a device, a UUID, or a number.
pub open spec fn prints(call: Call, o: Printed) -> bool {
    let said = trimmed(lossy_text(o.stdout));
    let first = if call.args.len() > 0 {
        call.args[0]
    } else {
        Seq::empty()
    };
    &&& call.program == "findfs"@ ==> "/dev/"@.is_prefix_of(said)
    &&& call.program == "findmnt"@ ==> said.len() > 0
    &&& call.program == "cryptsetup"@ && first == "luksUUID"@ ==> said.len() > 0
    &&& call.program == "snapper"@ && call.args.len() > 2 && call.args[2] == "create"@ ==> parsed(
        said,
    ) is Ok
}

/// The answer is no failure: every program does well, every file operation is done, what the
/// configuration needs is there, and everything else may or may not be.
pub open spec fn no_failure(c: Setup) -> spec_fn(Ask, Answer) -> bool {
    |q: Ask, a: Answer|
        match q {
            Ask::Say { .. } | Ask::IsFile(_) | Ask::ModifiedAt(_) | Ask::StartClock => true,
            Ask::Run(call) => a matches Answer::Ran(o) && {
                ||| asks_mounted(call)
                ||| o.success && prints(call, o)
            },
            Ask::Exists(path) => a matches Answer::Flag(yes) && (needed(c, path) ==> yes),
            Ask::ReadDir(_) => a matches Answer::Entries { failure, .. } && failure is None,
            Ask::EnvVar(_) | Ask::TempRoot | Ask::MakeTempDir => a is Text,
            Ask::ReadClock => a is Elapsed,
            Ask::Transfer { .. } => a matches Answer::Sent(Sent::Ended { send, receive, .. })
                && send.success && receive.success,
            _ => a is Done,
        }
}

/// The outcome is a success.
pub open spec fn succeeds<T>() -> spec_fn(Result<T, Fault>) -> bool {
    |r: Result<T, Fault>| r is Ok
}

/// The programs that are told apart.
proof fn lemma_programs()
    ensures
        "btrfs"@ != "findmnt"@,
        "cryptsetup"@ != "findmnt"@,
        "snapper"@ != "findmnt"@,
        "bootctl"@ != "findmnt"@,
{
    reveal_strlit("btrfs");
    reveal_strlit("findmnt");
    reveal_strlit("cryptsetup");
    reveal_strlit("snapper");
    reveal_strlit("bootctl");
    assert("btrfs"@.len() == 5);
    assert("findmnt"@[0] == 'f');
    assert("cryptsetup"@[0] == 'c');
    assert("snapper"@[0] == 's');
    assert("bootctl"@[0] == 'b');
}

broadcast proof fn lemma_querying_ends(
    call: Call,
    c: Setup,
    post: spec_fn(Result<Printed, Fault>) -> bool,
)
    requires
        forall|o: Printed|
            asks_mounted(call) || o.success && prints(call, o) ==> #[trigger] post(Ok(o)),
    ensures
        #[trigger] ends(querying(call), no_failure(c), post),
{
    broadcast use group_ends;

    reveal(querying);
}

broadcast proof fn lemma_launching_ends(
    call: Call,
    c: Setup,
    post: spec_fn(Result<Printed, Fault>) -> bool,
)
    requires
        forall|o: Printed|
            asks_mounted(call) || o.success && prints(call, o) ==> #[trigger] post(Ok(o)),
    ensures
        #[trigger] ends(launching(call), no_failure(c), post),
{
    broadcast use group_ends;

    reveal(launching);
}

broadcast proof fn lemma_commanding_ends(
    area: Area,
    call: Call,
    msg: Seq<char>,
    c: Setup,
    post: spec_fn(Result<(), Fault>) -> bool,
)
    requires
        !asks_mounted(call),
        post(Ok(())),
    ensures
        #[trigger] ends(commanding(area, call, msg), no_failure(c), post),
{
    broadcast use {group_ends, lemma_launching_ends};

    reveal(commanding);
}

broadcast proof fn lemma_checking_ends(
    path: Seq<char>,
    c: Setup,
    post: spec_fn(Result<bool, Fault>) -> bool,
)
    requires
        post(Ok(true)),
    ensures
        #[trigger] ends(checking_subvolume(path), no_failure(c), post),
{
    broadcast use {group_ends, lemma_querying_ends};

    reveal(checking_subvolume);
    lemma_programs();
}

broadcast proof fn lemma_filesystem_ends(
    path: Seq<char>,
    c: Setup,
    post: spec_fn(Result<bool, Fault>) -> bool,
)
    requires
        post(Ok(true)),
    ensures
        #[trigger] ends(checking_filesystem(path), no_failure(c), post),
{
    broadcast use {group_ends, lemma_querying_ends};

    reveal(checking_filesystem);
    lemma_programs();
}

broadcast proof fn lemma_renaming_ends(
    from: Seq<char>,
    to: Seq<char>,
    c: Setup,
    post: spec_fn(Result<(), Fault>) -> bool,
)
    requires
        post(Ok(())),
    ensures
        #[trigger] ends(renaming(from, to), no_failure(c), post),
{
    broadcast use {group_ends, lemma_checking_ends};

    reveal(renaming);
}

broadcast proof fn lemma_ensuring_ends(
    dir: Seq<char>,
    c: Setup,
    post: spec_fn(Result<(), Fault>) -> bool,
)
    requires
        post(Ok(())),
    ensures
        #[trigger] ends(ensuring_dir(dir), no_failure(c), post),
{
    broadcast use group_ends;

    reveal(ensuring_dir);
}

broadcast proof fn lemma_transferring_ends(
    source: Seq<char>,
    parent: Option<Seq<char>>,
    dest: Seq<char>,
    c: Setup,
    post: spec_fn(Result<TransferStats, Fault>) -> bool,
)
    requires
        forall|s: TransferStats| #[trigger] post(Ok(s)),
    ensures
        #[trigger] ends(transferring(source, parent, dest), no_failure(c), post),
{
    broadcast use group_ends;

    reveal(transferring);
    reveal(judging_transfer);
}

broadcast proof fn lemma_snapshot_ends(
    source: Seq<char>,
    dest: Seq<char>,
    c: Setup,
    post: spec_fn(Result<(), Fault>) -> bool,
)
    requires
        post(Ok(())),
    ensures
        #[trigger] ends(creating_snapshot(source, dest), no_failure(c), post),
{
    broadcast use {group_ends, lemma_commanding_ends};

    reveal(creating_snapshot);
}

broadcast proof fn lemma_snapshot_rw_ends(
    source: Seq<char>,
    dest: Seq<char>,
    c: Setup,
    post: spec_fn(Result<(), Fault>) -> bool,
)
    requires
        post(Ok(())),
    ensures
        #[trigger] ends(creating_snapshot_rw(source, dest), no_failure(c), post),
{
    broadcast use {group_ends, lemma_commanding_ends};

    reveal(creating_snapshot_rw);
}

broadcast proof fn lemma_subvolume_ends(
    path: Seq<char>,
    c: Setup,
    post: spec_fn(Result<(), Fault>) -> bool,
)
    requires
        post(Ok(())),
    ensures
        #[trigger] ends(creating_subvolume(path), no_failure(c), post),
{
    broadcast use {group_ends, lemma_commanding_ends};

    reveal(creating_subvolume);
    lemma_programs();
}

broadcast proof fn lemma_deleting_ends(
    path: Seq<char>,
    c: Setup,
    post: spec_fn(Result<(), Fault>) -> bool,
)
    requires
        post(Ok(())),
    ensures
        #[trigger] ends(deleting_subvolume(path), no_failure(c), post),
{
    broadcast use {group_ends, lemma_commanding_ends};

    reveal(deleting_subvolume);
    lemma_programs();
}

broadcast group group_basic_ends {
    lemma_querying_ends,
    lemma_launching_ends,
    lemma_commanding_ends,
    lemma_checking_ends,
    lemma_filesystem_ends,
    lemma_renaming_ends,
    lemma_ensuring_ends,
    lemma_transferring_ends,
    lemma_snapshot_ends,
    lemma_snapshot_rw_ends,
    lemma_subvolume_ends,
    lemma_deleting_ends,
}

broadcast proof fn lemma_discarding_ends(
    aside: bool,
    backup: Seq<char>,
    c: Setup,
    post: spec_fn(Result<(), Fault>) -> bool,
)
    requires
        post(Ok(())),
    ensures
        #[trigger] ends(discarding(aside, backup), no_failure(c), post),
{
    broadcast use {group_ends, group_basic_ends};

    reveal(discarding);
}

broadcast proof fn lemma_setting_aside_ends(
    target: Seq<char>,
    backup: Seq<char>,
    c: Setup,
    post: spec_fn(Result<bool, Fault>) -> bool,
)
    requires
        forall|t: bool| #[trigger] post(Ok(t)),
    ensures
        #[trigger] ends(setting_aside(target, backup), no_failure(c), post),
{
    broadcast use {group_ends, group_basic_ends};

    reveal(setting_aside);
}

broadcast proof fn lemma_installing_ends(
    new: Seq<char>,
    target: Seq<char>,
    aside: bool,
    backup: Seq<char>,
    c: Setup,
    post: spec_fn(Result<(), Fault>) -> bool,
)
    requires
        post(Ok(())),
    ensures
        #[trigger] ends(installing(new, target, aside, backup), no_failure(c), post),
{
    broadcast use {group_ends, group_basic_ends};

    reveal(installing);
}

broadcast proof fn lemma_replacing_ends(
    target: Seq<char>,
    source: Seq<char>,
    suffix: Seq<char>,
    c: Setup,
    post: spec_fn(Result<(), Fault>) -> bool,
)
    requires
        place_of(target) is Ok,
        post(Ok(())),
    ensures
        #[trigger] ends(replacing_by_snapshot(target, source, suffix), no_failure(c), post),
{
    broadcast use {
        group_ends,
        group_basic_ends,
        lemma_discarding_ends,
        lemma_setting_aside_ends,
        lemma_installing_ends,
    };

    reveal(replacing_by_snapshot);
}

broadcast proof fn lemma_making_room_ends(
    w: Swap,
    c: Setup,
    post: spec_fn(Result<(), Fault>) -> bool,
)
    requires
        post(Ok(())),
    ensures
        #[trigger] ends(making_room(w), no_failure(c), post),
{
    broadcast use {group_ends, group_basic_ends};

    reveal(making_room);
}

broadcast proof fn lemma_settling_ends(
    w: Swap,
    rename: bool,
    stats: TransferStats,
    c: Setup,
    post: spec_fn(Result<TransferStats, Fault>) -> bool,
)
    requires
        forall|t: TransferStats| #[trigger] post(Ok(t)),
    ensures
        #[trigger] ends(settling(w, rename, stats), no_failure(c), post),
{
    broadcast use {group_ends, group_basic_ends, lemma_discarding_ends};

    reveal(settling);
    reveal(clearing_up);
}

broadcast proof fn lemma_receiving_ends(
    source: Seq<char>,
    parent: Option<Seq<char>>,
    dest: Seq<char>,
    suffix: Seq<char>,
    name: Seq<char>,
    base: Seq<char>,
    c: Setup,
    post: spec_fn(Result<TransferStats, Fault>) -> bool,
)
    requires
        forall|t: TransferStats| #[trigger] post(Ok(t)),
    ensures
        #[trigger] ends(
            receiving_as(source, parent, dest, suffix, name, base),
            no_failure(c),
            post,
        ),
{
    broadcast use {group_ends, group_basic_ends, lemma_making_room_ends, lemma_settling_ends};

    reveal(receiving_as);
}

broadcast proof fn lemma_replacing_by_send_ends(
    source: Seq<char>,
    parent: Option<Seq<char>>,
    dest: Seq<char>,
    suffix: Seq<char>,
    target_name: Option<Seq<char>>,
    c: Setup,
    post: spec_fn(Result<TransferStats, Fault>) -> bool,
)
    requires
        naming(source) is Ok,
        forall|t: TransferStats| #[trigger] post(Ok(t)),
    ensures
        #[trigger] ends(
            replacing_by_send(source, parent, dest, suffix, target_name),
            no_failure(c),
            post,
        ),
{
    broadcast use {group_ends, group_basic_ends, lemma_receiving_ends};

    reveal(replacing_by_send);
}

broadcast proof fn lemma_sending_ends(
    source: Source,
    target: Target,
    snapshot: Seq<char>,
    parent: Option<Seq<char>>,
    mount: Seq<char>,
    c: Setup,
    post: spec_fn(Result<TransferStats, Fault>) -> bool,
)
    requires
        naming(snapshot) is Ok,
        forall|t: TransferStats| #[trigger] post(Ok(t)),
    ensures
        #[trigger] ends(sending(source, target, snapshot, parent, mount), no_failure(c), post),
{
    broadcast use {group_ends, group_basic_ends, lemma_replacing_by_send_ends};

    reveal(sending);
}

broadcast proof fn lemma_finding_subvolume_ends(
    path: Seq<char>,
    c: Setup,
    post: spec_fn(Result<bool, Fault>) -> bool,
)
    requires
        forall|t: bool| #[trigger] post(Ok(t)),
    ensures
        #[trigger] ends(finding_subvolume(path), no_failure(c), post),
{
    broadcast use {group_ends, group_basic_ends};

    reveal(finding_subvolume);
}

broadcast proof fn lemma_if_there_ends(
    path: Seq<char>,
    msg: Seq<char>,
    c: Setup,
    post: spec_fn(Result<(), Fault>) -> bool,
)
    requires
        post(Ok(())),
    ensures
        #[trigger] ends(deleting_if_there(path, msg), no_failure(c), post),
{
    broadcast use {group_ends, group_basic_ends, lemma_finding_subvolume_ends};

    reveal(deleting_if_there);
}

broadcast proof fn lemma_resolving_ends(
    device: Seq<char>,
    c: Setup,
    post: spec_fn(Result<Seq<char>, Fault>) -> bool,
)
    requires
        forall|t: Seq<char>| #[trigger] post(Ok(t)),
    ensures
        #[trigger] ends(resolving(device), no_failure(c), post),
{
    broadcast use {group_ends, group_basic_ends};

    reveal(resolving);
}

broadcast proof fn lemma_mounted_ends(
    path: Seq<char>,
    c: Setup,
    post: spec_fn(Result<bool, Fault>) -> bool,
)
    requires
        forall|t: bool| #[trigger] post(Ok(t)),
    ensures
        #[trigger] ends(checking_mounted(path), no_failure(c), post),
{
    broadcast use {group_ends, group_basic_ends};

    reveal(checking_mounted);
}

broadcast proof fn lemma_mounting_ends(
    device: Seq<char>,
    point: Seq<char>,
    c: Setup,
    post: spec_fn(Result<(), Fault>) -> bool,
)
    requires
        post(Ok(())),
    ensures
        #[trigger] ends(mounting(device, point), no_failure(c), post),
{
    broadcast use {group_ends, group_basic_ends, lemma_mounted_ends};

    reveal(mounting);
}

broadcast proof fn lemma_unmounting_ends(
    point: Seq<char>,
    c: Setup,
    post: spec_fn(Result<(), Fault>) -> bool,
)
    requires
        post(Ok(())),
    ensures
        #[trigger] ends(unmounting(point), no_failure(c), post),
{
    broadcast use {group_ends, group_basic_ends};

    reveal(unmounting);
}

broadcast proof fn lemma_closing_ends(
    mapping: Seq<char>,
    c: Setup,
    post: spec_fn(Result<(), Fault>) -> bool,
)
    requires
        post(Ok(())),
    ensures
        #[trigger] ends(closing(mapping), no_failure(c), post),
{
    broadcast use {group_ends, group_basic_ends};

    reveal(closing);
}

broadcast proof fn lemma_managed_ends(
    device: Seq<char>,
    c: Setup,
    post: spec_fn(Result<Seq<char>, Fault>) -> bool,
)
    requires
        forall|t: Seq<char>| #[trigger] post(Ok(t)),
    ensures
        #[trigger] ends(mounting_managed(device), no_failure(c), post),
{
    broadcast use {group_ends, group_basic_ends, lemma_resolving_ends, lemma_mounting_ends};

    reveal(mounting_managed);
}

broadcast proof fn lemma_luks_ends(
    device: Seq<char>,
    c: Setup,
    post: spec_fn(Result<bool, Fault>) -> bool,
)
    requires
        post(Ok(true)),
    ensures
        #[trigger] ends(checking_luks_at(device), no_failure(c), post),
{
    broadcast use {group_ends, group_basic_ends};

    reveal(checking_luks_at);
}

broadcast proof fn lemma_opening_ends(
    device: Seq<char>,
    mapping: Seq<char>,
    keyfile: Option<Seq<char>>,
    variable: Option<Seq<char>>,
    c: Setup,
    post: spec_fn(Result<Seq<char>, Fault>) -> bool,
)
    requires
        keyfile is Some || variable is Some,
        forall|t: Seq<char>| #[trigger] post(Ok(t)),
    ensures
        #[trigger] ends(opening_at(device, mapping, keyfile, variable), no_failure(c), post),
{
    broadcast use {group_ends, group_basic_ends};

    reveal(opening_at);
    reveal(opening_with_passphrase);
}

broadcast proof fn lemma_guarding_ends(
    device: Seq<char>,
    c: Setup,
    post: spec_fn(Result<Mounted, Fault>) -> bool,
)
    requires
        forall|t: Mounted| #[trigger] post(Ok(t)),
    ensures
        #[trigger] ends(guarding(device), no_failure(c), post),
{
    broadcast use {group_ends, lemma_managed_ends};

    reveal(guarding);
}

broadcast proof fn lemma_guarding_encrypted_ends(
    device: Seq<char>,
    e: Encryption,
    c: Setup,
    post: spec_fn(Result<Mounted, Fault>) -> bool,
)
    requires
        e.keyfile is Some || e.passphrase_env is Some,
        forall|t: Mounted| #[trigger] post(Ok(t)),
    ensures
        #[trigger] ends(guarding_encrypted(device, e), no_failure(c), post),
{
    broadcast use {
        group_ends,
        lemma_resolving_ends,
        lemma_luks_ends,
        lemma_opening_ends,
        lemma_managed_ends,
    };

    reveal(guarding_encrypted);
}

broadcast proof fn lemma_location_ends(
    location: Location,
    unlock: Option<Encryption>,
    missing: Seq<char>,
    c: Setup,
    post: spec_fn(Result<Mounted, Fault>) -> bool,
)
    requires
        location matches Location::MountedPath(p) ==> needed(c, p),
        unlock matches Some(e) ==> e.keyfile is Some || e.passphrase_env is Some,
        forall|t: Mounted| #[trigger] post(Ok(t)),
    ensures
        #[trigger] ends(mounting_location(location, unlock, missing), no_failure(c), post),
{
    broadcast use {group_ends, lemma_guarding_ends, lemma_guarding_encrypted_ends};

    reveal(mounting_location);
}

broadcast proof fn lemma_releasing_ends(
    m: Mounted,
    c: Setup,
    post: spec_fn(Result<(), Fault>) -> bool,
)
    requires
        post(Ok(())),
    ensures
        #[trigger] ends(releasing(m), no_failure(c), post),
{
    broadcast use {group_ends, lemma_unmounting_ends, lemma_closing_ends};

    reveal(releasing);
}

broadcast proof fn lemma_by_snapper_ends(
    w: Owned,
    c: Setup,
    post: spec_fn(Result<Seq<char>, Fault>) -> bool,
)
    requires
        w.source.snapper_config is Some,
        forall|id: u64| post(Ok(#[trigger] snapper_place(id))),
    ensures
        #[trigger] ends(creating_by_snapper(w), no_failure(c), post),
{
    broadcast use {group_ends, group_basic_ends};

    reveal(creating_by_snapper);
    lemma_programs();
    let call = crate::snapshot::create_call(w.snapper()->Ok_0, w.description());
    assert(call.args[2] == "create"@);
}

broadcast proof fn lemma_listing_ends(
    w: Owned,
    c: Setup,
    post: spec_fn(Result<Seq<u64>, Fault>) -> bool,
)
    requires
        w.source.snapper_config is Some,
        forall|t: Seq<u64>| #[trigger] post(Ok(t)),
    ensures
        #[trigger] ends(listing(w), no_failure(c), post),
{
    broadcast use group_ends;

    reveal(listing);
    lemma_programs();
}

broadcast proof fn lemma_previous_ends(
    w: Owned,
    dir: Seq<char>,
    c: Setup,
    post: spec_fn(Result<Option<Seq<char>>, Fault>) -> bool,
)
    requires
        w.source.snapper_config is Some,
        forall|t: Option<Seq<char>>| #[trigger] post(Ok(t)),
    ensures
        #[trigger] ends(finding_previous(w, dir), no_failure(c), post),
{
    broadcast use {group_ends, group_basic_ends, lemma_listing_ends};

    reveal(finding_previous);
}

broadcast proof fn lemma_with_parent_ends(
    w: Owned,
    dir: Seq<char>,
    c: Setup,
    post: spec_fn(Result<(Seq<char>, Option<Seq<char>>), Fault>) -> bool,
)
    requires
        w.source.snapper_config is Some,
        forall|made: (Seq<char>, Option<Seq<char>>)|
            naming(made.0) is Ok ==> #[trigger] post(Ok(made)),
    ensures
        #[trigger] ends(creating_with_parent(w, dir), no_failure(c), post),
{
    broadcast use {group_ends, group_basic_ends, lemma_by_snapper_ends, lemma_previous_ends};

    reveal(creating_with_parent);
    assert forall|id: u64| naming(joined_path(dir, #[trigger] snapper_place(id))) is Ok by {
        lemma_snapper_place(dir, id);
    }
}

broadcast proof fn lemma_manual_ends(
    source: Source,
    path: Seq<char>,
    dir: Seq<char>,
    config: Seq<char>,
    c: Setup,
    post: spec_fn(Result<(Seq<char>, Option<Seq<char>>), Fault>) -> bool,
)
    requires
        naming(joined_path(dir, Owned { source, config }.base_name())) is Ok,
        forall|made: (Seq<char>, Option<Seq<char>>)|
            naming(made.0) is Ok ==> #[trigger] post(Ok(made)),
    ensures
        #[trigger] ends(creating_manual(source, path, dir, config), no_failure(c), post),
{
    broadcast use {group_ends, group_basic_ends, lemma_if_there_ends, lemma_finding_subvolume_ends};

    reveal(creating_manual);
}


/// A source whose snapshots can be named: snapper is configured where it is used, and without it
/// the snapshot has a name.
pub open spec fn can_be_named(source: Source, config: Seq<char>) -> bool {
    if source.use_snapper {
        source.snapper_config is Some
    } else {
        file_name_of(
            joined_path(
                joined_path(source.path, source.snapshot_dir),
                source.snapshot_name + "_"@ + config,
            ),
        ) is Some
    }
}

broadcast proof fn lemma_local_ends(
    w: Owned,
    c: Setup,
    post: spec_fn(Result<(Seq<char>, Option<Seq<char>>), Fault>) -> bool,
)
    requires
        can_be_named(w.source, w.config),
        forall|made: (Seq<char>, Option<Seq<char>>)|
            naming(made.0) is Ok ==> #[trigger] post(Ok(made)),
    ensures
        #[trigger] ends(creating_local(w), no_failure(c), post),
{
    broadcast use {group_ends, group_basic_ends, lemma_with_parent_ends, lemma_manual_ends};

    reveal(creating_local);
}

broadcast proof fn lemma_deleting_listed_ends(
    config: Seq<char>,
    ids: Seq<u64>,
    i: int,
    c: Setup,
    post: spec_fn(Result<(), Fault>) -> bool,
)
    requires
        post(Ok(())),
    ensures
        #[trigger] ends(deleting_listed(config, ids, i), no_failure(c), post),
    decreases ids.len() - i,
{
    broadcast use group_ends;

    lemma_programs();
    if 0 <= i < ids.len() {
        lemma_deleting_listed_ends(config, ids, i + 1, c, post);
    }
}

broadcast proof fn lemma_cleaning_ends(
    w: Owned,
    parent: Option<Seq<char>>,
    c: Setup,
    post: spec_fn(Result<(), Fault>) -> bool,
)
    requires
        w.source.use_snapper ==> w.source.snapper_config is Some,
        post(Ok(())),
    ensures
        #[trigger] ends(cleaning(w, parent), no_failure(c), post),
{
    broadcast use {group_ends, lemma_listing_ends, lemma_deleting_listed_ends, lemma_if_there_ends};

    reveal(cleaning);
    reveal(cleaning_by_snapper);
}

broadcast proof fn lemma_backing_up_ends(
    source: Source,
    target: Target,
    mount: Seq<char>,
    config: Seq<char>,
    c: Setup,
    post: spec_fn(Result<TransferStats, Fault>) -> bool,
)
    requires
        can_be_named(source, config),
        forall|t: TransferStats| #[trigger] post(Ok(t)),
    ensures
        #[trigger] ends(backing_up(source, target, mount, config), no_failure(c), post),
{
    broadcast use {group_ends, lemma_local_ends, lemma_sending_ends, lemma_cleaning_ends};

    reveal(backing_up);
}

broadcast proof fn lemma_copying_ends(
    from: Seq<char>,
    to: Seq<char>,
    said: Seq<char>,
    missing: Option<Seq<char>>,
    c: Setup,
    post: spec_fn(Result<(), Fault>) -> bool,
)
    requires
        post(Ok(())),
    ensures
        #[trigger] ends(copying(from, to, said, missing), no_failure(c), post),
{
    broadcast use group_ends;

    reveal(copying);
}

broadcast proof fn lemma_kernel_ends(
    root_vol: Seq<char>,
    esp: Seq<char>,
    entry: BootEntry,
    c: Setup,
    post: spec_fn(Result<(), Fault>) -> bool,
)
    requires
        post(Ok(())),
    ensures
        #[trigger] ends(copying_kernel(root_vol, esp, entry), no_failure(c), post),
{
    broadcast use {group_ends, lemma_copying_ends};

    reveal(copying_kernel);
}

broadcast proof fn lemma_uuid_ends(
    point: Seq<char>,
    c: Setup,
    post: spec_fn(Result<Seq<char>, Fault>) -> bool,
)
    requires
        forall|r: Result<Seq<char>, Fault>| #[trigger] post(r),
    ensures
        #[trigger] ends(finding_uuid(point), no_failure(c), post),
{
    broadcast use {group_ends, group_basic_ends};

    reveal(finding_uuid);
}

broadcast proof fn lemma_fstab_ends(
    root_vol: Seq<char>,
    target_mount: Seq<char>,
    esp: Seq<char>,
    setup: Setup,
    c: Setup,
    post: spec_fn(Result<Seq<char>, Fault>) -> bool,
)
    requires
        forall|t: Seq<char>| #[trigger] post(Ok(t)),
    ensures
        #[trigger] ends(generating_fstab(root_vol, target_mount, esp, setup), no_failure(c), post),
{
    broadcast use {group_ends, lemma_uuid_ends};

    reveal(generating_fstab);
}

broadcast proof fn lemma_telling_entries_ends(
    entries: Seq<Seq<char>>,
    i: int,
    c: Setup,
    post: spec_fn(Result<(), Fault>) -> bool,
)
    requires
        post(Ok(())),
    ensures
        #[trigger] ends(telling_entries(entries, i), no_failure(c), post),
    decreases entries.len() - i,
{
    broadcast use group_ends;

    if 0 <= i < entries.len() {
        lemma_telling_entries_ends(entries, i + 1, c, post);
    }
}

broadcast proof fn lemma_regenerating_ends(
    root_vol: Seq<char>,
    target_mount: Seq<char>,
    esp: Seq<char>,
    setup: Setup,
    c: Setup,
    post: spec_fn(Result<(), Fault>) -> bool,
)
    requires
        post(Ok(())),
    ensures
        #[trigger] ends(
            regenerating_fstab(root_vol, target_mount, esp, setup),
            no_failure(c),
            post,
        ),
{
    broadcast use {group_ends, lemma_fstab_ends, lemma_telling_entries_ends};

    reveal(regenerating_fstab);
}

broadcast proof fn lemma_removing_files_ends(
    paths: Seq<Seq<char>>,
    i: int,
    c: Setup,
    post: spec_fn(Result<(), Fault>) -> bool,
)
    requires
        post(Ok(())),
    ensures
        #[trigger] ends(removing_files(paths, i), no_failure(c), post),
    decreases paths.len() - i,
{
    broadcast use group_ends;

    if 0 <= i < paths.len() {
        lemma_removing_files_ends(paths, i + 1, c, post);
    }
}

broadcast proof fn lemma_removing_snapper_ends(
    root: Seq<char>,
    c: Setup,
    post: spec_fn(Result<(), Fault>) -> bool,
)
    requires
        post(Ok(())),
    ensures
        #[trigger] ends(removing_snapper(root), no_failure(c), post),
{
    broadcast use {group_ends, lemma_removing_files_ends};

    reveal(removing_snapper);
    reveal(emptying);
    reveal(dropping);
}

broadcast proof fn lemma_hooks_ends(
    live: Seq<char>,
    target_mount: Seq<char>,
    esp: Seq<char>,
    hooks: HookConfig,
    entry: BootEntry,
    setup: Setup,
    c: Setup,
    post: spec_fn(Result<(), Fault>) -> bool,
)
    requires
        post(Ok(())),
    ensures
        #[trigger] ends(
            running_hooks(live, target_mount, esp, hooks, entry, setup),
            no_failure(c),
            post,
        ),
{
    broadcast use {
        group_ends,
        lemma_kernel_ends,
        lemma_regenerating_ends,
        lemma_removing_snapper_ends,
    };

    reveal(running_hooks);
}

broadcast proof fn lemma_root_ends(
    mount: Seq<char>,
    c: Setup,
    post: spec_fn(Result<Seq<char>, Fault>) -> bool,
)
    requires
        forall|t: Seq<char>| #[trigger] post(Ok(t)),
    ensures
        #[trigger] ends(finding_root(mount), no_failure(c), post),
{
    broadcast use {group_ends, group_basic_ends};

    reveal(finding_root);
    assert(crate::hooks::uuid_call(mount).args.len() == 6);
}

broadcast proof fn lemma_resolving_target_ends(
    device: Seq<char>,
    c: Setup,
    post: spec_fn(Result<Seq<char>, Fault>) -> bool,
)
    requires
        forall|t: Seq<char>| #[trigger] post(Ok(t)),
    ensures
        #[trigger] ends(resolving_target(device), no_failure(c), post),
{
    broadcast use {group_ends, group_basic_ends};

    reveal(resolving_target);
}

broadcast proof fn lemma_luks_uuid_ends(
    device: Seq<char>,
    c: Setup,
    post: spec_fn(Result<Seq<char>, Fault>) -> bool,
)
    requires
        forall|t: Seq<char>| #[trigger] post(Ok(t)),
    ensures
        #[trigger] ends(finding_luks_uuid(device), no_failure(c), post),
{
    broadcast use {group_ends, group_basic_ends};

    reveal(finding_luks_uuid);
    lemma_programs();
}

broadcast proof fn lemma_finding_luks_ends(
    target: Target,
    c: Setup,
    post: spec_fn(Result<Option<LuksBoot>, Fault>) -> bool,
)
    requires
        forall|t: Option<LuksBoot>| #[trigger] post(Ok(t)),
    ensures
        #[trigger] ends(finding_luks(target), no_failure(c), post),
{
    broadcast use {group_ends, lemma_resolving_target_ends, lemma_luks_uuid_ends};

    reveal(finding_luks);
}

broadcast proof fn lemma_entry_ends(
    mount: Seq<char>,
    esp: Seq<char>,
    entry: BootEntry,
    target: Target,
    live_root: Seq<char>,
    c: Setup,
    post: spec_fn(Result<(), Fault>) -> bool,
)
    requires
        post(Ok(())),
    ensures
        #[trigger] ends(creating_entry(mount, esp, entry, target, live_root), no_failure(c), post),
{
    broadcast use {group_ends, lemma_root_ends, lemma_finding_luks_ends};

    reveal(creating_entry);
}

broadcast proof fn lemma_bootloader_ends(
    esp: Seq<char>,
    c: Setup,
    post: spec_fn(Result<(), Fault>) -> bool,
)
    requires
        post(Ok(())),
    ensures
        #[trigger] ends(installing_bootloader(esp), no_failure(c), post),
{
    broadcast use {group_ends, group_basic_ends};

    reveal(installing_bootloader);
    lemma_programs();
}

broadcast proof fn lemma_providing_ends(
    path: Seq<char>,
    msg: Seq<char>,
    c: Setup,
    post: spec_fn(Result<(), Fault>) -> bool,
)
    requires
        post(Ok(())),
    ensures
        #[trigger] ends(providing_subvolume(path, msg), no_failure(c), post),
{
    broadcast use {group_ends, group_basic_ends};

    reveal(providing_subvolume);
}

broadcast proof fn lemma_live_boot_ends(
    mount: Seq<char>,
    l: LiveBoot,
    target: Target,
    esp: Seq<char>,
    live_root: Seq<char>,
    snapshots: Seq<char>,
    c: Setup,
    post: spec_fn(Result<(), Fault>) -> bool,
)
    requires
        post(Ok(())),
    ensures
        #[trigger] ends(
            preparing_live_boot(mount, l, target, esp, live_root, snapshots),
            no_failure(c),
            post,
        ),
{
    broadcast use {group_ends, lemma_providing_ends, lemma_bootloader_ends, lemma_entry_ends};

    reveal(preparing_live_boot);
}

broadcast proof fn lemma_updating_one_ends(
    live: Seq<char>,
    snapshot: Seq<char>,
    name: Seq<char>,
    c: Setup,
    post: spec_fn(Result<(), Fault>) -> bool,
)
    requires
        place_of(joined_path(live, name)) is Ok,
        post(Ok(())),
    ensures
        #[trigger] ends(updating_subvolume(live, snapshot, name), no_failure(c), post),
{
    broadcast use {group_ends, lemma_replacing_ends};

    reveal(updating_subvolume);
}

broadcast proof fn lemma_updating_each_ends(
    setup: Setup,
    mount: Seq<char>,
    i: int,
    c: Setup,
    post: spec_fn(Result<(), Fault>) -> bool,
)
    requires
        post(Ok(())),
    ensures
        #[trigger] ends(updating_subvolumes(setup, mount, i), no_failure(c), post),
    decreases setup.sources.len() - i,
{
    broadcast use {group_ends, group_basic_ends, lemma_updating_one_ends};

    if 0 <= i < setup.sources.len() {
        let live = joined_path(mount, setup.target.live_root());
        let name = subvolume_name(setup.sources[i].path);
        lemma_live_place(live, setup.sources[i].path);
        lemma_updating_each_ends(setup, mount, i + 1, c, post);
    }
}

/// A live subvolume has a directory and a name.
proof fn lemma_live_place(live: Seq<char>, path: Seq<char>)
    ensures
        place_of(joined_path(live, subvolume_name(path))) is Ok,
{
    let name = subvolume_name(path);
    lemma_subvolume_name(path);
    lemma_join_adds_component(live, name);
    reveal_strlit("..");
    reveal_strlit("_vol");
    reveal_strlit("/");
    assert(name != ".."@) by {
        assert(name.subrange(name.len() - 4, name.len() as int)[0] == '_');
    }
    lemma_joined_name(live, name);
    assert(name != "/"@) by {
        if name == "/"@ {
            assert(name.contains(name[0]));
        }
    }
}


/// The configuration can be used as far as it does not depend on the system: it has a name and
/// sources whose snapshots can be named, live boot is configured where it is enabled, with a
/// usable mount point, and an encrypted target has a key.
pub open spec fn well_configured(c: Setup) -> bool {
    &&& trimmed(c.name).len() > 0
    &&& c.sources.len() > 0
    &&& forall|i: int| 0 <= i < c.sources.len() ==> can_be_named(#[trigger] c.sources[i], c.name)
    &&& c.target.enable_live_boot ==> c.live_boot is Some
    &&& c.live_boot matches Some(l) ==> esp_path_fault(l.esp_path) is None
    &&& c.target.encryption matches Some(e) ==> e.keyfile is Some || e.passphrase_env is Some
}

broadcast proof fn lemma_source_ends(
    source: Source,
    c: Setup,
    post: spec_fn(Result<(), Fault>) -> bool,
)
    requires
        needed(c, source.path),
        source.use_snapper ==> source.snapper_config is Some,
        post(Ok(())),
    ensures
        #[trigger] ends(validating_source(source), no_failure(c), post),
{
    broadcast use {group_ends, group_basic_ends};

    reveal(validating_source);
    reveal(judging);
}

proof fn lemma_sources_end(c: Setup, i: int, post: spec_fn(Result<(), Fault>) -> bool)
    requires
        well_configured(c),
        0 <= i <= c.sources.len(),
        post(Ok(())),
    ensures
        ends(validating_sources(c.sources, i), no_failure(c), post),
    decreases c.sources.len() - i,
{
    broadcast use {group_ends, lemma_source_ends};

    if i < c.sources.len() {
        assert(can_be_named(c.sources[i], c.name));
        assert(needed(c, c.sources[i].path));
        lemma_sources_end(c, i + 1, post);
    }
}

broadcast proof fn lemma_validating_ends(c: Setup, post: spec_fn(Result<(), Fault>) -> bool)
    requires
        well_configured(c),
        post(Ok(())),
    ensures
        #[trigger] ends(validating(c), no_failure(c), post),
{
    broadcast use {group_ends, group_basic_ends};

    reveal(validating);
    reveal(validating_target);
    reveal(validating_live_boot);
    reveal(validating_encryption);
    reveal(judging);
    let good = no_failure(c);
    let sources = validating_sources(c.sources, 0);
    assert forall|q: spec_fn(Result<(), Fault>) -> bool| q(Ok(())) implies #[trigger] ends(
        sources,
        good,
        q,
    ) by {
        lemma_sources_end(c, 0, q);
    }
    assert(ends(validating_rest(c), good, post));
}

broadcast proof fn lemma_acquiring_ends(
    name: Seq<char>,
    c: Setup,
    post: spec_fn(Result<Seq<char>, Fault>) -> bool,
)
    requires
        forall|t: Seq<char>| #[trigger] post(Ok(t)),
    ensures
        #[trigger] ends(acquiring(name), no_failure(c), post),
{
    broadcast use group_ends;

    reveal(acquiring);
    reveal(locking_step);
}

broadcast proof fn lemma_telling_outcomes_ends(
    outcomes: Seq<Outcome>,
    i: int,
    c: Setup,
    post: spec_fn(Result<(), Fault>) -> bool,
)
    requires
        post(Ok(())),
    ensures
        #[trigger] ends(telling_outcomes(outcomes, i), no_failure(c), post),
    decreases outcomes.len() - i,
{
    broadcast use group_ends;

    if 0 <= i < outcomes.len() {
        lemma_telling_outcomes_ends(outcomes, i + 1, c, post);
    }
}

broadcast proof fn lemma_telling_sources_ends(
    sources: Seq<Source>,
    i: int,
    c: Setup,
    post: spec_fn(Result<(), Fault>) -> bool,
)
    requires
        post(Ok(())),
    ensures
        #[trigger] ends(telling_sources(sources, i), no_failure(c), post),
    decreases sources.len() - i,
{
    broadcast use group_ends;

    if 0 <= i < sources.len() {
        lemma_telling_sources_ends(sources, i + 1, c, post);
    }
}

broadcast proof fn lemma_summing_up_ends(
    outcomes: Seq<Outcome>,
    c: Setup,
    post: spec_fn(Result<(), Fault>) -> bool,
)
    requires
        post(Ok(())),
    ensures
        #[trigger] ends(summing_up(outcomes), no_failure(c), post),
{
    broadcast use {group_ends, lemma_telling_outcomes_ends};

    reveal(summing_up);
}

broadcast proof fn lemma_announcing_ends(
    setup: Setup,
    c: Setup,
    post: spec_fn(Result<(), Fault>) -> bool,
)
    requires
        post(Ok(())),
    ensures
        #[trigger] ends(announcing(setup), no_failure(c), post),
{
    broadcast use {group_ends, lemma_telling_sources_ends};

    reveal(announcing);
}

broadcast proof fn lemma_one_ends(
    c: Setup,
    mount: Seq<char>,
    i: int,
    post: spec_fn(Result<Outcome, Fault>) -> bool,
)
    requires
        can_be_named(c.sources[i], c.name),
        forall|o: Outcome| o.result is Ok ==> #[trigger] post(Ok(o)),
    ensures
        #[trigger] ends(backing_up_one(c, mount, i), no_failure(c), post),
{
    broadcast use {group_ends, lemma_backing_up_ends};

    reveal(backing_up_one);
}

/// Every one of the sources was backed up.
spec fn all_ok(outcomes: Seq<Outcome>) -> bool {
    forall|i: int| 0 <= i < outcomes.len() ==> (#[trigger] outcomes[i]).result is Ok
}

proof fn lemma_each_ends(
    c: Setup,
    mount: Seq<char>,
    i: int,
    done: Seq<Outcome>,
    post: spec_fn(Result<Seq<Outcome>, Fault>) -> bool,
)
    requires
        well_configured(c),
        0 <= i <= c.sources.len(),
        all_ok(done),
        forall|all: Seq<Outcome>| all_ok(all) ==> #[trigger] post(Ok(all)),
    ensures
        ends(backing_up_each(c, mount, i, done), no_failure(c), post),
    decreases c.sources.len() - i,
{
    broadcast use {group_ends, lemma_one_ends};

    if i < c.sources.len() {
        assert(can_be_named(c.sources[i], c.name));
        assert forall|o: Outcome| o.result is Ok implies ends(
            backing_up_each(c, mount, i + 1, #[trigger] done.push(o)),
            no_failure(c),
            post,
        ) by {
            lemma_each_ends(c, mount, i + 1, done.push(o), post);
        }
    }
}

broadcast proof fn lemma_esp_ends(
    l: LiveBoot,
    c: Setup,
    post: spec_fn(Result<Mounted, Fault>) -> bool,
)
    requires
        c.live_boot == Some(l),
        forall|t: Mounted| #[trigger] post(Ok(t)),
    ensures
        #[trigger] ends(mounting_esp(l), no_failure(c), post),
{
    broadcast use {group_ends, lemma_location_ends};

    reveal(mounting_esp);
}

broadcast proof fn lemma_target_ends(
    c: Setup,
    post: spec_fn(Result<Mounted, Fault>) -> bool,
)
    requires
        well_configured(c),
        forall|t: Mounted| #[trigger] post(Ok(t)),
    ensures
        #[trigger] ends(mounting_target(c.target), no_failure(c), post),
{
    broadcast use {group_ends, lemma_location_ends};

    reveal(mounting_target);
}

broadcast proof fn lemma_live_ends(
    c: Setup,
    mount: Seq<char>,
    post: spec_fn(Result<(), Fault>) -> bool,
)
    requires
        post(Ok(())),
    ensures
        #[trigger] ends(updating_live(c, mount), no_failure(c), post),
{
    broadcast use {
        group_ends,
        lemma_updating_each_ends,
        lemma_esp_ends,
        lemma_hooks_ends,
        lemma_releasing_ends,
    };

    reveal(updating_live);
}

broadcast proof fn lemma_all_ends(
    c: Setup,
    mount: Seq<char>,
    post: spec_fn(Result<(), Fault>) -> bool,
)
    requires
        well_configured(c),
        post(Ok(())),
    ensures
        #[trigger] ends(backing_up_all(c, mount), no_failure(c), post),
{
    broadcast use {group_ends, lemma_live_ends, lemma_summing_up_ends};

    reveal(backing_up_all);
    let good = no_failure(c);
    assert forall|all: Seq<Outcome>, q: spec_fn(Result<Option<Fault>, Fault>) -> bool|
        q(Ok(None)) implies #[trigger] ends(updating_after(c, mount, all), good, q) by {
        reveal(updating_after);
    }
    assert forall|all: Seq<Outcome>| all_ok(all) implies #[trigger] conclusion(all, None) is Ok by {
        lemma_conclusion(all, None);
    }
    let each = backing_up_each(c, mount, 0, Seq::empty());
    assert forall|q: spec_fn(Result<Seq<Outcome>, Fault>) -> bool|
        (forall|all: Seq<Outcome>| all_ok(all) ==> #[trigger] q(Ok(all))) implies #[trigger] ends(
        each,
        good,
        q,
    ) by {
        lemma_each_ends(c, mount, 0, Seq::empty(), q);
    }
}

broadcast proof fn lemma_to_target_ends(c: Setup, post: spec_fn(Result<(), Fault>) -> bool)
    requires
        well_configured(c),
        post(Ok(())),
    ensures
        #[trigger] ends(backing_up_to_target(c), no_failure(c), post),
{
    broadcast use {group_ends, lemma_target_ends, lemma_all_ends, lemma_releasing_ends};

    reveal(backing_up_to_target);
}

broadcast proof fn lemma_running_ends(
    c: Setup,
    dry_run: bool,
    post: spec_fn(Result<(), Fault>) -> bool,
)
    requires
        well_configured(c),
        post(Ok(())),
    ensures
        #[trigger] ends(running(c, dry_run), no_failure(c), post),
{
    broadcast use {
        group_ends,
        lemma_validating_ends,
        lemma_acquiring_ends,
        lemma_announcing_ends,
        lemma_to_target_ends,
    };

    reveal(running);
    reveal(working);
}

broadcast proof fn lemma_preparing_ends(c: Setup, post: spec_fn(Result<(), Fault>) -> bool)
    requires
        well_configured(c),
        c.target.enable_live_boot,
        post(Ok(())),
    ensures
        #[trigger] ends(preparing(c), no_failure(c), post),
{
    broadcast use {
        group_ends,
        lemma_validating_ends,
        lemma_target_ends,
        lemma_esp_ends,
        lemma_live_boot_ends,
        lemma_releasing_ends,
    };

    reveal(preparing);
    reveal(preparing_on_target);
    reveal(preparing_mounted);
}

/// Where the configuration can be used and no answer is a failure, every command succeeds;
/// preparing live boot does so where it is enabled.
pub proof fn lemma_nothing_fails(command: Commands, c: Setup, log: Log)
    requires
        settled(log),
        well_configured(c),
        command is PrepareLive ==> c.target.enable_live_boot,
        forall|i: int|
            log.asked.len() <= i < drive(command.executing(c), log).0.asked.len() ==> no_failure(c)(
                #[trigger] drive(command.executing(c), log).0.asked[i],
                drive(command.executing(c), log).0.answers[i],
            ),
    ensures
        drive(command.executing(c), log).1 matches Some(r) ==> r is Ok,
{
    broadcast use {
        group_ends,
        lemma_validating_ends,
        lemma_running_ends,
        lemma_preparing_ends,
    };

    let plan = command.executing(c);
    assert(ends(plan, no_failure(c), succeeds::<()>()));
    lemma_ends(plan, no_failure(c), succeeds::<()>(), log);
}

} // verus!
