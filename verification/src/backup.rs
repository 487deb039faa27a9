//! The backup procedure, and the preparation of a target for live boot.

use crate::btrfs::{
    checking_subvolume, ensure_dir, ensuring_dir, get_subvolume_name_with_suffix, is_subvolume,
    replacing_by_send, replacing_by_snapshot, send_and_replace_safely, snapshot_and_replace_safely,
    subvolume_name,
};
use crate::command_runner::{failed, ignore, ignoring, Area};
use crate::config::{
    validating, Config, Encryption, LiveBoot, LiveBootConfig, Location, Setup, Source, SourceConfig,
    Target, TargetConfig, TargetLocation,
};
use crate::device::{already_mounted, guarding, guarding_encrypted, releasing, MountGuard, Mounted};
use crate::error::{fault_text, BackupError, Fault, IoFault};
use crate::hooks::{run_hooks, running_hooks};
#[allow(unused_imports)]
use crate::journal::{
    ask, attempt, bind, drive, fail, fetch, group_plan, ok, perform, present, say, shown, then,
    unexpected, unexpected_reply, Answer, Ask, Plan, Reply, Request, Session, Stop, Tone,
    TransferStats, Try,
};
use crate::liveboot::{prepare_live_boot, preparing_live_boot};
use crate::path::{join, joined_path, quoted as quote_path, quoted_path};
use crate::snapshot::{cleaning, creating_local, Owned, SourceSnapshot};
use crate::text::{
    cat2, cat3, cat4, cat5, cat6, decimal, join as join_texts, joined, number, quoted as quote_text,
    quoted_text,
};
use crate::ui::{bytes_text, duration_text, format_bytes, format_duration, numbered, step_text};
use vstd::prelude::*;

verus! {

/// Keeps other runs with the same configuration name out.
#[derive(Debug)]
pub struct ConfigLock {
    /// The lock file.
    pub path: String,
}

impl DeepView for ConfigLock {
    type V = Seq<char>;

    open spec fn deep_view(&self) -> Seq<char> {
        self.path@
    }
}

/// Where the lock files are.
pub open spec fn locks_dir(temp: Seq<char>) -> Seq<char> {
    joined_path(temp, "btrbak_locks"@)
}

/// Work that has to succeed before the lock is held.
#[verifier::opaque]
pub open spec fn locking_step(q: Ask, msg: Seq<char>) -> Try<()> {
    then(
        attempt(q),
        |e: Option<IoFault>|
            match e {
                None => ok(()),
                Some(e) => fail(Fault::Lock(msg + e.message)),
            },
    )
}

/// Takes the lock for a configuration name; the outcome is the lock file.
#[verifier::opaque]
pub open spec fn acquiring(name: Seq<char>) -> Try<Seq<char>> {
    then(
        fetch(Ask::TempRoot),
        |temp: Seq<char>|
            then(
                locking_step(
                    Ask::CreateDirAll(locks_dir(temp)),
                    "Failed to create lock parent directory: "@,
                ),
                |u: ()|
                    then(
                        locking_step(
                            Ask::OpenLock(joined_path(locks_dir(temp), name + ".lock"@)),
                            "Failed to create lock file: "@,
                        ),
                        |u: ()|
                            then(
                                attempt(
                                    Ask::TryLock(joined_path(locks_dir(temp), name + ".lock"@)),
                                ),
                                |e: Option<IoFault>|
                                    match e {
                                        None => ok(joined_path(locks_dir(temp), name + ".lock"@)),
                                        Some(_) => fail(
                                            Fault::Lock(
                                                "Another btrbak instance is already running with config name '"@
                                                    + name + "'"@,
                                            ),
                                        ),
                                    },
                            ),
                    ),
            ),
    )
}

/// Work that has to succeed before the lock is held.
fn lock_step(s: &mut Session, request: Request, msg: &str) -> (r: Result<(), Stop>)
    ensures
        drive(locking_step(request.deep_view(), msg@), old(s)@) == (final(s)@, shown(r)),
{
    broadcast use group_plan;

    reveal(locking_step);
    match s.attempt(request)? {
        None => Ok(()),
        Some(e) => Err(Stop::Failed(BackupError::Lock(cat2(msg, e.message.as_str())))),
    }
}

impl ConfigLock {
    /// Takes the lock for a configuration name.
    pub fn acquire(s: &mut Session, config_name: &str) -> (r: Result<Self, Stop>)
        ensures
            drive(acquiring(config_name@), old(s)@) == (final(s)@, shown(r)),
    {
        broadcast use group_plan;

        reveal(acquiring);
        let temp = s.fetch(Request::TempRoot)?;
        let dir = join(temp.as_str(), "btrbak_locks");
        lock_step(
            s,
            Request::CreateDirAll(dir.clone()),
            "Failed to create lock parent directory: ",
        )?;
        let path = join(dir.as_str(), cat2(config_name, ".lock").as_str());
        lock_step(s, Request::OpenLock(path.clone()), "Failed to create lock file: ")?;
        match s.attempt(Request::TryLock(path.clone()))? {
            None => Ok(ConfigLock { path }),
            Some(_) => {
                let msg = cat3(
                    "Another btrbak instance is already running with config name '",
                    config_name,
                    "'",
                );
                Err(Stop::Failed(BackupError::Lock(msg)))
            },
        }
    }
}

/// The plan `p` and then, whatever came of it, the plan `q`. The outcome is that of `p`.
pub open spec fn finally<T>(p: Try<T>, q: Try<()>) -> Try<T> {
    bind(p, |r: Result<T, Fault>| bind(q, |x: Result<(), Fault>| Plan::Done(r)))
}

/// Mounts what a configuration names as a mounted path or a device.
#[verifier::opaque]
pub open spec fn mounting_location(
    location: Location,
    unlock: Option<Encryption>,
    missing: Seq<char>,
) -> Try<Mounted> {
    match location {
        Location::MountedPath(path) => then(
            present(path),
            |there: bool|
                if there {
                    ok(already_mounted(path))
                } else {
                    fail(Fault::Mount(missing + quoted_path(path)))
                },
        ),
        Location::Device(device) => match unlock {
            Some(e) => guarding_encrypted(device, e),
            None => guarding(device),
        },
    }
}

/// Mounts the target.
#[verifier::opaque]
pub open spec fn mounting_target(target: Target) -> Try<Mounted> {
    mounting_location(
        target.location,
        target.encryption,
        "Target mounted path does not exist: "@,
    )
}

/// Mounts the EFI system partition.
#[verifier::opaque]
pub open spec fn mounting_esp(l: LiveBoot) -> Try<Mounted> {
    mounting_location(l.esp_location, None, "ESP mounted path does not exist: "@)
}

/// A path that has to be mounted already.
fn require_mounted(s: &mut Session, path: &str, missing: &str) -> (r: Result<MountGuard, Stop>)
    ensures
        drive(
            mounting_location(Location::MountedPath(path@), None, missing@),
            old(s)@,
        ) == (final(s)@, shown(r)),
{
    broadcast use group_plan;

    reveal(mounting_location);
    if s.present(path)? {
        Ok(MountGuard::for_mounted_path(path))
    } else {
        Err(failed(Area::Mount, cat2(missing, quote_path(path).as_str())))
    }
}

/// Mounts the target.
pub fn mount_target(s: &mut Session, config: &Config) -> (r: Result<MountGuard, Stop>)
    ensures
        drive(mounting_target(config.deep_view().target), old(s)@) == (final(s)@, shown(r)),
{
    broadcast use group_plan;

    reveal(mounting_target);
    reveal(mounting_location);
    match &config.target.location {
        TargetLocation::MountedPath(path) => require_mounted(
            s,
            path.as_str(),
            "Target mounted path does not exist: ",
        ),
        TargetLocation::Device(device) => match &config.target.encryption {
            Some(encryption) => MountGuard::new_encrypted(s, device.as_str(), encryption),
            None => MountGuard::new(s, device.as_str()),
        },
    }
}

/// Mounts the EFI system partition.
pub fn mount_esp(s: &mut Session, live_boot_config: &LiveBootConfig) -> (r: Result<
    MountGuard,
    Stop,
>)
    ensures
        drive(mounting_esp(live_boot_config.deep_view()), old(s)@) == (final(s)@, shown(r)),
{
    reveal(mounting_esp);
    reveal(mounting_location);
    match &live_boot_config.esp_location {
        TargetLocation::MountedPath(path) => require_mounted(
            s,
            path.as_str(),
            "ESP mounted path does not exist: ",
        ),
        TargetLocation::Device(device) => MountGuard::new(s, device.as_str()),
    }
}

/// Where the snapshots go on a mounted target: the subvolume that is named; without one, the
/// usual one where there is a live boot environment, else the target itself.
pub open spec fn snapshots_dir(target: Target, mount: Seq<char>) -> Seq<char> {
    match target.snapshot_subvolume {
        None if !target.enable_live_boot => mount,
        _ => joined_path(mount, target.snapshots()),
    }
}

/// Where the snapshots go on a mounted target.
pub fn find_snapshots_dir(target: &TargetConfig, mount: &str) -> (r: String)
    ensures
        r@ == snapshots_dir(target.deep_view(), mount@),
{
    if target.snapshot_subvolume.is_none() && !target.enable_live_boot {
        mount.to_owned()
    } else {
        join(mount, target.snapshots().as_str())
    }
}

/// Sends a snapshot to the target, where it replaces the one that stands for the source.
#[verifier::opaque]
pub open spec fn sending(
    source: Source,
    target: Target,
    snapshot: Seq<char>,
    parent: Option<Seq<char>>,
    mount: Seq<char>,
) -> Try<TransferStats> {
    let dir = snapshots_dir(target, mount);
    let name = subvolume_name(source.path);
    then(
        ensuring_dir(dir),
        |u: ()|
            then(
                replacing_by_send(snapshot, parent, dir, "old"@, Some(name)),
                |stats: TransferStats|
                    then(
                        say(Tone::Detail, "Sent snapshot to: "@ + dir + "/"@ + name),
                        |u: ()| ok(stats),
                    ),
            ),
    )
}

/// Sends a snapshot to the target.
pub fn send_snapshot(
    s: &mut Session,
    source: &SourceConfig,
    target_config: &TargetConfig,
    snapshot_path: &str,
    parent_snapshot: Option<&str>,
    target_mount: &str,
) -> (r: Result<TransferStats, Stop>)
    ensures
        drive(
            sending(
                source.deep_view(),
                target_config.deep_view(),
                snapshot_path@,
                parent_snapshot.deep_view(),
                target_mount@,
            ),
            old(s)@,
        ) == (final(s)@, shown(r)),
{
    broadcast use group_plan;

    reveal(sending);
    let name = get_subvolume_name_with_suffix(source.path.as_str());
    let dir = find_snapshots_dir(target_config, target_mount);
    ensure_dir(s, dir.as_str())?;
    let stats = send_and_replace_safely(
        s,
        snapshot_path,
        parent_snapshot,
        dir.as_str(),
        "old",
        Some(name.as_str()),
    )?;
    let msg = cat4("Sent snapshot to: ", dir.as_str(), "/", name.as_str());
    s.say(Tone::Detail, msg.as_str())?;
    Ok(stats)
}

/// How a snapshot is sent: as what changed since its parent, or as a whole.
pub open spec fn mode_text(parent: Option<Seq<char>>) -> Seq<char> {
    match parent {
        Some(_) => "incremental"@,
        None => "full"@,
    }
}

/// Backs up a source: snapshot, transfer, cleanup.
#[verifier::opaque]
pub open spec fn backing_up(
    source: Source,
    target: Target,
    mount: Seq<char>,
    config: Seq<char>,
) -> Try<TransferStats> {
    let w = Owned { source, config };
    then(
        say(Tone::Substep, "Creating local snapshot"@),
        |u: ()|
            then(
                creating_local(w),
                |made: (Seq<char>, Option<Seq<char>>)|
                    then(
                        say(
                            Tone::Substep,
                            "Sending snapshot to target ("@ + mode_text(made.1) + ")"@,
                        ),
                        |u: ()|
                            then(
                                sending(source, target, made.0, made.1, mount),
                                |stats: TransferStats|
                                    then(
                                        say(Tone::Substep, "Cleaning up old snapshots"@),
                                        |u: ()|
                                            then(cleaning(w, made.1), |u: ()| ok(stats)),
                                    ),
                            ),
                    ),
            ),
    )
}

/// Backs up a source.
pub fn backup_single_source(
    s: &mut Session,
    source: &SourceConfig,
    target_config: &TargetConfig,
    target_mount: &str,
    config_name: &str,
) -> (r: Result<TransferStats, Stop>)
    ensures
        drive(
            backing_up(
                source.deep_view(),
                target_config.deep_view(),
                target_mount@,
                config_name@,
            ),
            old(s)@,
        ) == (final(s)@, shown(r)),
{
    broadcast use group_plan;

    reveal(backing_up);
    let workflow = SourceSnapshot::new(source, config_name);
    s.say(Tone::Substep, "Creating local snapshot")?;
    let (snapshot, parent) = workflow.create_local_snapshot(s)?;
    let parent_path: Option<&str> = match &parent {
        Some(p) => Some(p.as_str()),
        None => None,
    };
    let mode = if parent.is_some() {
        "incremental"
    } else {
        "full"
    };
    s.say(Tone::Substep, cat3("Sending snapshot to target (", mode, ")").as_str())?;
    let stats = send_snapshot(
        s,
        source,
        target_config,
        snapshot.as_str(),
        parent_path,
        target_mount,
    )?;
    s.say(Tone::Substep, "Cleaning up old snapshots")?;
    workflow.cleanup_old_snapshot(s, parent)?;
    Ok(stats)
}

/// How the backup of a source ended.
pub struct SourceOutcome {
    /// The source.
    pub path: String,
    /// What was transferred, or what went wrong.
    pub result: Result<TransferStats, BackupError>,
}

/// What a [`SourceOutcome`] holds.
pub struct Outcome {
    pub path: Seq<char>,
    pub result: Result<TransferStats, Fault>,
}

impl DeepView for SourceOutcome {
    type V = Outcome;

    open spec fn deep_view(&self) -> Outcome {
        Outcome {
            path: self.path@,
            result: match self.result {
                Ok(stats) => Ok(stats),
                Err(e) => Err(e.deep_view()),
            },
        }
    }
}

/// How many steps a backup has: mounting, each source, the live boot environment where there
/// is one, and the summary.
pub open spec fn steps_of(c: Setup) -> nat {
    2 + c.sources.len() + (if c.target.enable_live_boot {
        1nat
    } else {
        0
    })
}

/// How many steps a backup has.
pub fn compute_backup_steps(config: &Config) -> (r: usize)
    requires
        config.sources@.len() + 3 <= usize::MAX,
    ensures
        r == steps_of(config.deep_view()),
{
    let mut steps: usize = 0;
    steps += 1;
    steps += config.sources.len();
    if config.target.enable_live_boot {
        steps += 1;
    }
    steps += 1;
    assert(config.deep_view().sources.len() == config.sources@.len());
    steps
}

/// The lines for what went wrong, in order.
pub open spec fn complaints(outcomes: Seq<Outcome>) -> Seq<Seq<char>>
    decreases outcomes.len(),
{
    if outcomes.len() == 0 {
        Seq::empty()
    } else {
        let rest = complaints(outcomes.drop_last());
        match outcomes.last().result {
            Ok(_) => rest,
            Err(e) => rest.push(outcomes.last().path + ": "@ + fault_text(e)),
        }
    }
}

/// How many bytes were transferred in all, modulo two to the power of 64.
pub open spec fn total_bytes(outcomes: Seq<Outcome>) -> nat
    decreases outcomes.len(),
{
    if outcomes.len() == 0 {
        0
    } else {
        let rest = total_bytes(outcomes.drop_last());
        match outcomes.last().result {
            Ok(stats) => (rest + stats.bytes as nat) % 0x1_0000_0000_0000_0000,
            Err(_) => rest,
        }
    }
}

/// The line of the summary for a source.
pub open spec fn outcome_line(o: Outcome) -> (Tone, Seq<char>) {
    match o.result {
        Ok(stats) => (
            Tone::Success,
            o.path + ": "@ + bytes_text(stats.bytes as nat) + " ("@ + bytes_text(
                stats.bytes_per_sec as nat,
            ) + "/s)"@,
        ),
        Err(_) => (Tone::Error, o.path + ": failed"@),
    }
}

/// Shows the lines of the summary from `i` on.
pub open spec fn telling_outcomes(outcomes: Seq<Outcome>, i: int) -> Try<()>
    decreases outcomes.len() - i,
{
    if i < 0 || i >= outcomes.len() {
        ok(())
    } else {
        then(
            say(outcome_line(outcomes[i]).0, outcome_line(outcomes[i]).1),
            |u: ()| telling_outcomes(outcomes, i + 1),
        )
    }
}

/// The last line of the summary.
pub open spec fn verdict(outcomes: Seq<Outcome>) -> (Tone, Seq<char>) {
    let failures = complaints(outcomes).len();
    let successes = (outcomes.len() - failures) as nat;
    if failures == 0 {
        (
            Tone::Success,
            "Backup completed successfully ("@ + decimal(successes) + " sources)"@,
        )
    } else {
        (
            Tone::Warning,
            "Backup completed with errors ("@ + decimal(successes) + " succeeded, "@ + decimal(
                failures,
            ) + " failed)"@,
        )
    }
}

/// The time in an answer to `ReadClock`.
pub open spec fn elapsed_in(a: Answer) -> Result<(u64, Seq<char>), Fault> {
    match a {
        Answer::Elapsed { secs, short } => Ok((secs, short)),
        Answer::Failed(e) => Err(Fault::Io(e)),
        _ => Err(Fault::Io(unexpected())),
    }
}

/// Shows the summary.
#[verifier::opaque]
pub open spec fn summing_up(outcomes: Seq<Outcome>) -> Try<()> {
    then(
        telling_outcomes(outcomes, 0),
        |u: ()|
            bind(
                ask(Ask::ReadClock),
                |a: Answer|
                    match elapsed_in(a) {
                        Err(e) => fail(e),
                        Ok((secs, short)) => then(
                            say(
                                Tone::Info,
                                "Total: "@ + bytes_text(total_bytes(outcomes))
                                    + " transferred in "@ + duration_text(secs as nat, short),
                            ),
                            |u: ()| say(verdict(outcomes).0, verdict(outcomes).1),
                        ),
                    },
            ),
    )
}

/// The lines for what went wrong.
fn complain_of(outcomes: &Vec<SourceOutcome>) -> (r: Vec<String>)
    ensures
        r.deep_view() == complaints(outcomes.deep_view()),
        r@.len() <= outcomes@.len(),
{
    let ghost all = outcomes.deep_view();
    let mut out: Vec<String> = Vec::new();
    let mut i: usize = 0;
    assert(all.take(0) =~= Seq::<Outcome>::empty());
    while i < outcomes.len()
        invariant
            i <= outcomes@.len(),
            all == outcomes.deep_view(),
            out@.len() <= i,
            out.deep_view() =~= complaints(all.take(i as int)),
        decreases outcomes@.len() - i,
    {
        let ghost before = out.deep_view();
        assert(all[i as int] == outcomes@[i as int].deep_view());
        assert(all.take(i + 1).drop_last() =~= all.take(i as int));
        match &outcomes[i].result {
            Ok(_) => {},
            Err(e) => {
                let text = cat3(outcomes[i].path.as_str(), ": ", e.message().as_str());
                out.push(text);
                assert(out.deep_view() =~= before.push(text@));
            },
        }
        i += 1;
    }
    assert(all.take(i as int) =~= all);
    out
}

/// How many bytes were transferred in all.
fn count_bytes(outcomes: &Vec<SourceOutcome>) -> (r: u64)
    ensures
        r == total_bytes(outcomes.deep_view()),
{
    let ghost all = outcomes.deep_view();
    let mut total: u64 = 0;
    let mut i: usize = 0;
    assert(all.take(0) =~= Seq::<Outcome>::empty());
    while i < outcomes.len()
        invariant
            i <= outcomes@.len(),
            all == outcomes.deep_view(),
            total == total_bytes(all.take(i as int)),
        decreases outcomes@.len() - i,
    {
        assert(all[i as int] == outcomes@[i as int].deep_view());
        assert(all.take(i + 1).drop_last() =~= all.take(i as int));
        match &outcomes[i].result {
            Ok(stats) => {
                total = total.wrapping_add(stats.bytes);
            },
            Err(_) => {},
        }
        i += 1;
    }
    assert(all.take(i as int) =~= all);
    total
}

/// Shows the line of the summary for a source.
fn tell_outcome(s: &mut Session, o: &SourceOutcome) -> (r: Result<(), Stop>)
    ensures
        drive(
            say(outcome_line(o.deep_view()).0, outcome_line(o.deep_view()).1),
            old(s)@,
        ) == (final(s)@, shown(r)),
{
    match &o.result {
        Ok(stats) => {
            let text = cat6(
                o.path.as_str(),
                ": ",
                format_bytes(stats.bytes).as_str(),
                " (",
                format_bytes(stats.speed()).as_str(),
                "/s)",
            );
            s.say(Tone::Success, text.as_str())
        },
        Err(_) => s.say(Tone::Error, cat2(o.path.as_str(), ": failed").as_str()),
    }
}

/// Shows the summary.
pub fn print_summary(s: &mut Session, results: &Vec<SourceOutcome>) -> (r: Result<(), Stop>)
    ensures
        drive(summing_up(results.deep_view()), old(s)@) == (final(s)@, shown(r)),
{
    broadcast use group_plan;

    reveal(summing_up);
    let ghost all = results.deep_view();
    let mut i: usize = 0;
    while i < results.len()
        invariant
            i <= results@.len(),
            all == results.deep_view(),
            drive(telling_outcomes(all, 0), old(s)@) == drive(
                telling_outcomes(all, i as int),
                s@,
            ),
        decreases results@.len() - i,
    {
        broadcast use group_plan;

        reveal(summing_up);
        assert(all[i as int] == results@[i as int].deep_view());
        tell_outcome(s, &results[i])?;
        i += 1;
    }
    let total = format_bytes(count_bytes(results));
    let time = match s.ask(Request::ReadClock)? {
        Reply::Elapsed { secs, short } => format_duration(*secs, short.as_str()),
        Reply::Failed(e) => return Err(Stop::Failed(BackupError::Io(e.duplicate()))),
        _ => return Err(Stop::Failed(BackupError::Io(unexpected_reply()))),
    };
    let text = cat4("Total: ", total.as_str(), " transferred in ", time.as_str());
    s.say(Tone::Info, text.as_str())?;
    let failures: usize = complain_of(results).len();
    assert(all.len() == results@.len());
    let successes = number((results.len() - failures) as u64);
    if failures == 0 {
        let text = cat3("Backup completed successfully (", successes.as_str(), " sources)");
        s.say(Tone::Success, text.as_str())
    } else {
        let text = cat5(
            "Backup completed with errors (",
            successes.as_str(),
            " succeeded, ",
            number(failures as u64).as_str(),
            " failed)",
        );
        s.say(Tone::Warning, text.as_str())
    }
}

/// Brings the live subvolumes of the sources from `i` on up to date. A source without a
/// snapshot on the target is skipped with a warning.
pub open spec fn updating_subvolumes(c: Setup, mount: Seq<char>, i: int) -> Try<()>
    decreases c.sources.len() - i,
{
    if i < 0 || i >= c.sources.len() {
        ok(())
    } else {
        let path = c.sources[i].path;
        let name = subvolume_name(path);
        let snapshot = joined_path(snapshots_dir(c.target, mount), name);
        then(
            say(Tone::Substep, "Updating live subvolume: "@ + name),
            |u: ()|
                then(
                    checking_subvolume(snapshot),
                    |there: bool|
                        then(
                            if there {
                                updating_subvolume(
                                    joined_path(mount, c.target.live_root()),
                                    snapshot,
                                    name,
                                )
                            } else {
                                say(
                                    Tone::Warning,
                                    "Snapshot subvolume not found at "@ + snapshot
                                        + ", skipping live update for "@ + path,
                                )
                            },
                            |u: ()| updating_subvolumes(c, mount, i + 1),
                        ),
                ),
        )
    }
}

/// Replaces a live subvolume by its latest snapshot.
#[verifier::opaque]
pub open spec fn updating_subvolume(
    live_boot_path: Seq<char>,
    snapshot: Seq<char>,
    name: Seq<char>,
) -> Try<()> {
    then(
        replacing_by_snapshot(joined_path(live_boot_path, name), snapshot, "old"@),
        |u: ()|
            say(Tone::Detail, "Updated subvolume "@ + name + " with latest snapshot"@),
    )
}

/// Brings the live boot environment up to date, where there is one, and runs the hooks.
#[verifier::opaque]
pub open spec fn updating_live(c: Setup, mount: Seq<char>) -> Try<()> {
    match c.live_boot {
        None => ok(()),
        Some(l) => then(
            say(
                Tone::Detail,
                "Updating live boot for "@ + decimal(c.sources.len()) + " sources"@,
            ),
            |u: ()|
                then(
                    updating_subvolumes(c, mount, 0),
                    |u: ()|
                        then(
                            mounting_esp(l),
                            |esp: Mounted|
                                finally(
                                    then(
                                        say(Tone::Substep, "Running post-backup hooks"@),
                                        |u: ()|
                                            running_hooks(
                                                joined_path(mount, c.target.live_root()),
                                                mount,
                                                esp.point,
                                                c.hooks,
                                                l.boot_entry,
                                                c,
                                            ),
                                    ),
                                    releasing(esp),
                                ),
                        ),
                ),
        ),
    }
}

/// Brings the live boot environment on a target up to date.
pub struct LiveEnvironmentUpdater<'a> {
    config: &'a Config,
    target_mount: &'a str,
}

impl<'a> LiveEnvironmentUpdater<'a> {
    /// The configuration.
    pub closed spec fn setup(self) -> Setup {
        self.config.deep_view()
    }

    /// Where the target is mounted.
    pub closed spec fn mount(self) -> Seq<char> {
        self.target_mount@
    }

    /// For a configuration and a mounted target.
    pub fn new(config: &'a Config, target_mount: &'a str) -> (r: Self)
        ensures
            r.setup() == config.deep_view(),
            r.mount() == target_mount@,
    {
        LiveEnvironmentUpdater { config, target_mount }
    }

    /// Brings the live boot environment up to date, where there is one, and runs the hooks.
    pub fn update(&self, s: &mut Session) -> (r: Result<(), Stop>)
        ensures
            drive(updating_live(self.setup(), self.mount()), old(s)@) == (final(s)@, shown(r)),
    {
        broadcast use group_plan;

        reveal(updating_live);
        let l = match &self.config.live_boot {
            Some(l) => l,
            None => return Ok(()),
        };
        let live_root = self.config.target.live_root();
        let live_boot_path = join(self.target_mount, live_root.as_str());
        let count = number(self.config.sources.len() as u64);
        assert(self.setup().sources.len() == self.config.sources@.len());
        s.say(
            Tone::Detail,
            cat3("Updating live boot for ", count.as_str(), " sources").as_str(),
        )?;
        self.update_live_subvolumes(s, live_boot_path.as_str())?;
        let esp = mount_esp(s, l)?;
        let r = self.run_all_hooks(s, l, live_boot_path.as_str(), esp.mount_point());
        match r {
            Err(Stop::Pending) => Err(Stop::Pending),
            _ => {
                ignore(esp.release(s))?;
                r
            },
        }
    }

    /// Runs the hooks.
    fn run_all_hooks(
        &self,
        s: &mut Session,
        l: &LiveBootConfig,
        live_boot_path: &str,
        esp: &str,
    ) -> (r: Result<(), Stop>)
        ensures
            drive(
                then(
                    say(Tone::Substep, "Running post-backup hooks"@),
                    |u: ()|
                        running_hooks(
                            live_boot_path@,
                            self.mount(),
                            esp@,
                            self.setup().hooks,
                            l.deep_view().boot_entry,
                            self.setup(),
                        ),
                ),
                old(s)@,
            ) == (final(s)@, shown(r)),
    {
        broadcast use group_plan;

        s.say(Tone::Substep, "Running post-backup hooks")?;
        run_hooks(
            s,
            live_boot_path,
            self.target_mount,
            esp,
            &self.config.hooks,
            &l.boot_entry,
            self.config,
        )
    }

    /// Brings the live subvolumes of the sources up to date.
    fn update_live_subvolumes(&self, s: &mut Session, live_boot_path: &str) -> (r: Result<(), Stop>)
        requires
            live_boot_path@ == joined_path(self.mount(), self.setup().target.live_root()),
        ensures
            drive(updating_subvolumes(self.setup(), self.mount(), 0), old(s)@) == (
                final(s)@,
                shown(r),
            ),
    {
        broadcast use group_plan;

        let ghost c = self.setup();
        let ghost mount = self.mount();
        let dir = find_snapshots_dir(&self.config.target, self.target_mount);
        let mut i: usize = 0;
        while i < self.config.sources.len()
            invariant
                i <= self.config.sources@.len(),
                c == self.setup(),
                mount == self.mount(),
                dir@ == snapshots_dir(c.target, mount),
                live_boot_path@ == joined_path(mount, c.target.live_root()),
                drive(updating_subvolumes(c, mount, 0), old(s)@) == drive(
                    updating_subvolumes(c, mount, i as int),
                    s@,
                ),
            decreases self.config.sources@.len() - i,
        {
            broadcast use group_plan;

            assert(c.sources[i as int] == self.config.sources@[i as int].deep_view());
            let path = self.config.sources[i].path.as_str();
            let name = get_subvolume_name_with_suffix(path);
            s.say(
                Tone::Substep,
                cat2("Updating live subvolume: ", name.as_str()).as_str(),
            )?;
            let snapshot = join(dir.as_str(), name.as_str());
            if is_subvolume(s, snapshot.as_str())? {
                self.update_live_subvolume(s, live_boot_path, snapshot.as_str(), name.as_str())?;
            } else {
                let msg = cat4(
                    "Snapshot subvolume not found at ",
                    snapshot.as_str(),
                    ", skipping live update for ",
                    path,
                );
                s.say(Tone::Warning, msg.as_str())?;
            }
            i += 1;
        }
        assert(c.sources.len() == self.config.sources@.len());
        Ok(())
    }

    /// Replaces a live subvolume by its latest snapshot.
    pub fn update_live_subvolume(
        &self,
        s: &mut Session,
        live_boot_path: &str,
        snapshot: &str,
        volume_name: &str,
    ) -> (r: Result<(), Stop>)
        ensures
            drive(updating_subvolume(live_boot_path@, snapshot@, volume_name@), old(s)@) == (
                final(s)@,
                shown(r),
            ),
    {
        broadcast use group_plan;

        reveal(updating_subvolume);
        let target = join(live_boot_path, volume_name);
        snapshot_and_replace_safely(s, target.as_str(), snapshot, "old")?;
        s.say(
            Tone::Detail,
            cat3("Updated subvolume ", volume_name, " with latest snapshot").as_str(),
        )
    }
}

/// What is said of a source once its backup ended.
pub open spec fn ending_line(path: Seq<char>, r: Result<TransferStats, Fault>) -> (
    Tone,
    Seq<char>,
) {
    match r {
        Ok(_) => (Tone::Success, "Backed up "@ + path),
        Err(e) => (Tone::Error, "Failed to backup "@ + path + ": "@ + fault_text(e)),
    }
}

/// Backs up the source with the number `i`. What goes wrong with it is part of the outcome.
#[verifier::opaque]
pub open spec fn backing_up_one(c: Setup, mount: Seq<char>, i: int) -> Try<Outcome> {
    let source = c.sources[i];
    then(
        say(Tone::Step, step_text((i + 2) as nat, steps_of(c), "Backing up "@ + source.path)),
        |u: ()|
            bind(
                backing_up(source, c.target, mount, c.name),
                |r: Result<TransferStats, Fault>|
                    then(
                        say(ending_line(source.path, r).0, ending_line(source.path, r).1),
                        |u: ()| ok(Outcome { path: source.path, result: r }),
                    ),
            ),
    )
}

/// Backs up the sources from `i` on, after those that ended in `done`. What goes wrong with
/// one keeps none of the others from its turn.
pub open spec fn backing_up_each(c: Setup, mount: Seq<char>, i: int, done: Seq<Outcome>) -> Try<
    Seq<Outcome>,
>
    decreases c.sources.len() - i,
{
    if i < 0 || i >= c.sources.len() {
        ok(done)
    } else {
        then(
            backing_up_one(c, mount, i),
            |o: Outcome| backing_up_each(c, mount, i + 1, done.push(o)),
        )
    }
}

/// Brings the live boot environment up to date where there is one and nothing went wrong
/// before. The outcome is what went wrong with that.
#[verifier::opaque]
pub open spec fn updating_after(c: Setup, mount: Seq<char>, outcomes: Seq<Outcome>) -> Try<
    Option<Fault>,
> {
    if c.target.enable_live_boot && complaints(outcomes).len() == 0 {
        then(
            say(
                Tone::Step,
                step_text(c.sources.len() + 2, steps_of(c), "Updating live boot environment"@),
            ),
            |u: ()|
                bind(
                    updating_live(c, mount),
                    |r: Result<(), Fault>|
                        match r {
                            Ok(_) => then(
                                say(Tone::Success, "Live boot environment updated"@),
                                |u: ()| ok(None),
                            ),
                            Err(e) => then(
                                say(
                                    Tone::Error,
                                    "Failed to update live boot environment: "@ + fault_text(e),
                                ),
                                |u: ()| ok(Some(e)),
                            ),
                        },
                ),
        )
    } else {
        ok(None)
    }
}

/// The number of the last step.
pub open spec fn last_step(c: Setup, outcomes: Seq<Outcome>) -> nat {
    if c.target.enable_live_boot && complaints(outcomes).len() == 0 {
        c.sources.len() + 3
    } else {
        c.sources.len() + 2
    }
}

/// Everything that went wrong, in order.
pub open spec fn all_complaints(outcomes: Seq<Outcome>, live: Option<Fault>) -> Seq<Seq<char>> {
    match live {
        None => complaints(outcomes),
        Some(e) => complaints(outcomes).push("live_boot"@ + ": "@ + fault_text(e)),
    }
}

/// The result of a backup: it fails where anything went wrong.
pub open spec fn conclusion(outcomes: Seq<Outcome>, live: Option<Fault>) -> Result<(), Fault> {
    let all = all_complaints(outcomes, live);
    if all.len() == 0 {
        Ok(())
    } else {
        Err(Fault::Btrfs("Backup completed with errors: "@ + joined(all, "; "@)))
    }
}

/// The backup on a mounted target.
#[verifier::opaque]
pub open spec fn backing_up_all(c: Setup, mount: Seq<char>) -> Try<()> {
    then(
        backing_up_each(c, mount, 0, Seq::empty()),
        |outcomes: Seq<Outcome>|
            then(
                updating_after(c, mount, outcomes),
                |live: Option<Fault>|
                    then(
                        say(
                            Tone::Step,
                            step_text(last_step(c, outcomes), steps_of(c), "Summary"@),
                        ),
                        |u: ()|
                            then(
                                summing_up(outcomes),
                                |u: ()|
                                    then(
                                        say(Tone::SectionEnd, Seq::empty()),
                                        |u: ()| Plan::Done(conclusion(outcomes, live)),
                                    ),
                            ),
                    ),
            ),
    )
}

/// A location as it is shown.
pub open spec fn location_text(l: Location) -> Seq<char> {
    match l {
        Location::MountedPath(path) => "MountedPath("@ + quoted_path(path) + ")"@,
        Location::Device(device) => "Device("@ + quoted_text(device) + ")"@,
    }
}

/// Shows the sources from `i` on.
pub open spec fn telling_sources(sources: Seq<Source>, i: int) -> Try<()>
    decreases sources.len() - i,
{
    if i < 0 || i >= sources.len() {
        ok(())
    } else {
        then(
            say(Tone::Info, "  "@ + sources[i].path),
            |u: ()| telling_sources(sources, i + 1),
        )
    }
}

/// Shows what is backed up where.
#[verifier::opaque]
pub open spec fn announcing(c: Setup) -> Try<()> {
    then(
        say(Tone::Header, "Backup: "@ + c.name),
        |u: ()|
            then(
                say(Tone::Info, "Sources:"@),
                |u: ()|
                    then(
                        telling_sources(c.sources, 0),
                        |u: ()| say(Tone::Info, "Target: "@ + location_text(c.target.location)),
                    ),
            ),
    )
}

/// Mounts the target, backs up, and gives the target back.
#[verifier::opaque]
pub open spec fn backing_up_to_target(c: Setup) -> Try<()> {
    then(
        ignoring(perform(Ask::StartClock)),
        |u: ()|
            then(
                say(Tone::Step, step_text(1, steps_of(c), "Mounting target"@)),
                |u: ()|
                    then(
                        mounting_target(c.target),
                        |m: Mounted|
                            finally(
                                then(
                                    say(Tone::Success, "Target mounted"@),
                                    |u: ()| backing_up_all(c, m.point),
                                ),
                                releasing(m),
                            ),
                    ),
            ),
    )
}

/// A backup, or only its announcement.
#[verifier::opaque]
pub open spec fn working(c: Setup, dry_run: bool) -> Try<()> {
    then(
        announcing(c),
        |u: ()|
            if dry_run {
                say(Tone::Info, "Dry run mode - no changes will be made"@)
            } else {
                backing_up_to_target(c)
            },
    )
}

/// A backup under the lock of its configuration.
#[verifier::opaque]
pub open spec fn running(c: Setup, dry_run: bool) -> Try<()> {
    then(
        validating(c),
        |u: ()|
            then(
                acquiring(c.name),
                |lock: Seq<char>|
                    finally(working(c, dry_run), perform(Ask::Unlock(lock))),
            ),
    )
}

/// Shows the sources.
fn tell_sources(s: &mut Session, sources: &Vec<SourceConfig>) -> (r: Result<(), Stop>)
    ensures
        drive(telling_sources(sources.deep_view(), 0), old(s)@) == (final(s)@, shown(r)),
{
    broadcast use group_plan;

    let ghost all = sources.deep_view();
    let mut i: usize = 0;
    while i < sources.len()
        invariant
            i <= sources@.len(),
            all == sources.deep_view(),
            drive(telling_sources(all, 0), old(s)@) == drive(telling_sources(all, i as int), s@),
        decreases sources@.len() - i,
    {
        broadcast use group_plan;

        assert(all[i as int] == sources@[i as int].deep_view());
        s.say(Tone::Info, cat2("  ", sources[i].path.as_str()).as_str())?;
        i += 1;
    }
    Ok(())
}

/// A location as it is shown.
fn show_location(l: &TargetLocation) -> (r: String)
    ensures
        r@ == location_text(l.deep_view()),
{
    match l {
        TargetLocation::MountedPath(path) => cat3(
            "MountedPath(",
            quote_path(path.as_str()).as_str(),
            ")",
        ),
        TargetLocation::Device(device) => cat3("Device(", quote_text(device.as_str()).as_str(), ")"),
    }
}

/// Shows what is backed up where.
fn announce(s: &mut Session, config: &Config) -> (r: Result<(), Stop>)
    ensures
        drive(announcing(config.deep_view()), old(s)@) == (final(s)@, shown(r)),
{
    broadcast use group_plan;

    reveal(announcing);
    s.say(Tone::Header, cat2("Backup: ", config.name.as_str()).as_str())?;
    s.say(Tone::Info, "Sources:")?;
    tell_sources(s, &config.sources)?;
    let location = show_location(&config.target.location);
    s.say(Tone::Info, cat2("Target: ", location.as_str()).as_str())
}

/// Backs up the source with the number `i`.
fn back_up_one(s: &mut Session, config: &Config, mount: &str, i: usize) -> (r: Result<
    SourceOutcome,
    Stop,
>)
    requires
        i < config.sources@.len(),
        config.sources@.len() + 3 <= usize::MAX,
    ensures
        drive(backing_up_one(config.deep_view(), mount@, i as int), old(s)@) == (
            final(s)@,
            shown(r),
        ),
{
    broadcast use group_plan;

    reveal(backing_up_one);
    let ghost c = config.deep_view();
    assert(c.sources[i as int] == config.sources@[i as int].deep_view());
    let total: usize = compute_backup_steps(config);
    let source = &config.sources[i];
    let path = source.path.as_str();
    let title = numbered(i + 2, total, cat2("Backing up ", path).as_str());
    s.say(Tone::Step, title.as_str())?;
    match backup_single_source(s, source, &config.target, mount, config.name.as_str()) {
        Ok(stats) => {
            s.say(Tone::Success, cat2("Backed up ", path).as_str())?;
            Ok(SourceOutcome { path: path.to_owned(), result: Ok(stats) })
        },
        Err(Stop::Pending) => Err(Stop::Pending),
        Err(Stop::Failed(e)) => {
            let text = cat4("Failed to backup ", path, ": ", e.message().as_str());
            s.say(Tone::Error, text.as_str())?;
            Ok(SourceOutcome { path: path.to_owned(), result: Err(e) })
        },
    }
}

/// Backs up the sources.
fn back_up_each(s: &mut Session, config: &Config, mount: &str) -> (r: Result<
    Vec<SourceOutcome>,
    Stop,
>)
    requires
        config.sources@.len() + 3 <= usize::MAX,
    ensures
        drive(
            backing_up_each(config.deep_view(), mount@, 0, Seq::empty()),
            old(s)@,
        ) == (final(s)@, shown(r)),
{
    broadcast use group_plan;

    let ghost c = config.deep_view();
    let n: usize = config.sources.len();
    let mut done: Vec<SourceOutcome> = Vec::new();
    let mut i: usize = 0;
    assert(done.deep_view() =~= Seq::<Outcome>::empty());
    assert(c.sources.len() == n);
    while i < n
        invariant
            i <= n,
            n == config.sources@.len(),
            n == c.sources.len(),
            n + 3 <= usize::MAX,
            c == config.deep_view(),
            drive(backing_up_each(c, mount@, 0, Seq::empty()), old(s)@) == drive(
                backing_up_each(c, mount@, i as int, done.deep_view()),
                s@,
            ),
        decreases n - i,
    {
        broadcast use group_plan;

        let ghost before = done.deep_view();
        let outcome = back_up_one(s, config, mount, i)?;
        done.push(outcome);
        assert(done.deep_view() =~= before.push(outcome.deep_view()));
        i += 1;
    }
    Ok(done)
}

/// Brings the live boot environment up to date.
fn update_after(s: &mut Session, config: &Config, mount: &str, outcomes: &Vec<SourceOutcome>) -> (r:
    Result<Option<BackupError>, Stop>)
    requires
        config.sources@.len() + 3 <= usize::MAX,
    ensures
        drive(
            updating_after(config.deep_view(), mount@, outcomes.deep_view()),
            old(s)@,
        ) == (final(s)@, shown(r)),
{
    broadcast use group_plan;

    reveal(updating_after);
    let clean = complain_of(outcomes).len() == 0;
    if !config.target.enable_live_boot || !clean {
        return Ok(None);
    }
    assert(config.deep_view().sources.len() == config.sources@.len());
    let total: usize = compute_backup_steps(config);
    let title = numbered(config.sources.len() + 2, total, "Updating live boot environment");
    s.say(Tone::Step, title.as_str())?;
    match LiveEnvironmentUpdater::new(config, mount).update(s) {
        Ok(_) => {
            s.say(Tone::Success, "Live boot environment updated")?;
            Ok(None)
        },
        Err(Stop::Pending) => Err(Stop::Pending),
        Err(Stop::Failed(e)) => {
            let text = cat2("Failed to update live boot environment: ", e.message().as_str());
            s.say(Tone::Error, text.as_str())?;
            Ok(Some(e))
        },
    }
}

/// The result of a backup: it fails where anything went wrong.
fn conclude(outcomes: &Vec<SourceOutcome>, live: &Option<BackupError>) -> (r: Result<(), Stop>)
    ensures
        shown(r) == Some(conclusion(outcomes.deep_view(), live.deep_view())),
{
    let mut all = complain_of(outcomes);
    let ghost before = all.deep_view();
    if let Some(e) = live {
        let text = cat3("live_boot", ": ", e.message().as_str());
        all.push(text);
        assert(all.deep_view() =~= before.push(text@));
    }
    assert(all.deep_view().len() == all@.len());
    if all.len() == 0 {
        Ok(())
    } else {
        let text = join_texts(&all, "; ");
        Err(failed(Area::Btrfs, cat2("Backup completed with errors: ", text.as_str())))
    }
}

/// The backup on a mounted target.
fn back_up_all(s: &mut Session, config: &Config, mount: &str) -> (r: Result<(), Stop>)
    requires
        config.sources@.len() + 3 <= usize::MAX,
    ensures
        drive(backing_up_all(config.deep_view(), mount@), old(s)@) == (final(s)@, shown(r)),
{
    broadcast use group_plan;

    reveal(backing_up_all);
    let outcomes = back_up_each(s, config, mount)?;
    let live = update_after(s, config, mount, &outcomes)?;
    let clean = complain_of(&outcomes).len() == 0;
    assert(config.deep_view().sources.len() == config.sources@.len());
    let last: usize = if config.target.enable_live_boot && clean {
        config.sources.len() + 3
    } else {
        config.sources.len() + 2
    };
    let total: usize = compute_backup_steps(config);
    s.say(Tone::Step, numbered(last, total, "Summary").as_str())?;
    print_summary(s, &outcomes)?;
    s.say(Tone::SectionEnd, String::new().as_str())?;
    conclude(&outcomes, &live)
}

/// Backs up to a mounted target.
fn back_up_mounted(s: &mut Session, config: &Config, mount: &str) -> (r: Result<(), Stop>)
    requires
        config.sources@.len() + 3 <= usize::MAX,
    ensures
        drive(
            then(
                say(Tone::Success, "Target mounted"@),
                |u: ()| backing_up_all(config.deep_view(), mount@),
            ),
            old(s)@,
        ) == (final(s)@, shown(r)),
{
    broadcast use group_plan;

    s.say(Tone::Success, "Target mounted")?;
    back_up_all(s, config, mount)
}

/// Mounts the target, backs up, and gives the target back.
fn back_up_to_target(s: &mut Session, config: &Config) -> (r: Result<(), Stop>)
    requires
        config.sources@.len() + 3 <= usize::MAX,
    ensures
        drive(backing_up_to_target(config.deep_view()), old(s)@) == (final(s)@, shown(r)),
{
    broadcast use group_plan;

    reveal(backing_up_to_target);
    ignore(s.perform(Request::StartClock))?;
    let total: usize = compute_backup_steps(config);
    s.say(Tone::Step, numbered(1, total, "Mounting target").as_str())?;
    let guard = mount_target(s, config)?;
    let r = back_up_mounted(s, config, guard.mount_point());
    match r {
        Err(Stop::Pending) => Err(Stop::Pending),
        _ => {
            ignore(guard.release(s))?;
            r
        },
    }
}

/// A backup, or only its announcement.
fn work(s: &mut Session, config: &Config, dry_run: bool) -> (r: Result<(), Stop>)
    requires
        config.sources@.len() + 3 <= usize::MAX,
    ensures
        drive(working(config.deep_view(), dry_run), old(s)@) == (final(s)@, shown(r)),
{
    broadcast use group_plan;

    reveal(working);
    announce(s, config)?;
    if dry_run {
        s.say(Tone::Info, "Dry run mode - no changes will be made")
    } else {
        back_up_to_target(s, config)
    }
}

/// Runs a backup; with `dry_run`, only checks the configuration and shows what would be done.
pub fn run_backup(s: &mut Session, config: &Config, dry_run: bool) -> (r: Result<(), Stop>)
    requires
        config.sources@.len() + 3 <= usize::MAX,
    ensures
        drive(running(config.deep_view(), dry_run), old(s)@) == (final(s)@, shown(r)),
{
    broadcast use group_plan;

    reveal(running);
    config.validate(s)?;
    let lock = ConfigLock::acquire(s, config.name.as_str())?;
    let r = work(s, config, dry_run);
    match r {
        Err(Stop::Pending) => Err(Stop::Pending),
        _ => {
            ignore(s.perform(Request::Unlock(lock.path)))?;
            r
        },
    }
}

/// Sets up live boot on a target with both places mounted.
#[verifier::opaque]
pub open spec fn preparing_mounted(c: Setup, l: LiveBoot, mount: Seq<char>, esp: Seq<char>) -> Try<
    (),
> {
    then(
        preparing_live_boot(mount, l, c.target, esp, c.target.live_root(), c.target.snapshots()),
        |u: ()|
            then(
                say(Tone::Success, "Live boot environment prepared successfully"@),
                |u: ()| say(Tone::SectionEnd, Seq::empty()),
            ),
    )
}

/// Sets up live boot on a mounted target.
#[verifier::opaque]
pub open spec fn preparing_on_target(c: Setup, l: LiveBoot, mount: Seq<char>) -> Try<()> {
    then(
        say(Tone::Success, "Target mounted"@),
        |u: ()|
            then(
                say(Tone::Step, step_text(2, 2, "Setting up live boot"@)),
                |u: ()|
                    then(
                        mounting_esp(l),
                        |esp: Mounted|
                            finally(preparing_mounted(c, l, mount, esp.point), releasing(esp)),
                    ),
            ),
    )
}

/// Sets up live boot on the target of a configuration.
#[verifier::opaque]
pub open spec fn preparing(c: Setup) -> Try<()> {
    then(
        validating(c),
        |u: ()|
            if !c.target.enable_live_boot {
                fail(Fault::Config("Live boot not enabled in configuration"@))
            } else {
                match c.live_boot {
                    None => fail(Fault::Config("Live boot configuration missing"@)),
                    Some(l) => then(
                        say(Tone::Header, "Prepare Live Boot Environment"@),
                        |u: ()|
                            then(
                                say(Tone::Step, step_text(1, 2, "Mounting target"@)),
                                |u: ()|
                                    then(
                                        mounting_target(c.target),
                                        |m: Mounted|
                                            finally(
                                                preparing_on_target(c, l, m.point),
                                                releasing(m),
                                            ),
                                    ),
                            ),
                    ),
                }
            },
    )
}

/// Sets up live boot on a target with both places mounted.
fn prepare_mounted(
    s: &mut Session,
    config: &Config,
    l: &LiveBootConfig,
    mount: &str,
    esp: &str,
) -> (r: Result<(), Stop>)
    ensures
        drive(preparing_mounted(config.deep_view(), l.deep_view(), mount@, esp@), old(s)@) == (
            final(s)@,
            shown(r),
        ),
{
    broadcast use group_plan;

    reveal(preparing_mounted);
    let live_root = config.target.live_root();
    let snapshots = config.target.snapshots();
    prepare_live_boot(
        s,
        mount,
        l,
        &config.target,
        esp,
        live_root.as_str(),
        snapshots.as_str(),
    )?;
    s.say(Tone::Success, "Live boot environment prepared successfully")?;
    s.say(Tone::SectionEnd, String::new().as_str())
}

/// Sets up live boot on a mounted target.
fn prepare_on_target(s: &mut Session, config: &Config, l: &LiveBootConfig, mount: &str) -> (r:
    Result<(), Stop>)
    ensures
        drive(preparing_on_target(config.deep_view(), l.deep_view(), mount@), old(s)@) == (
            final(s)@,
            shown(r),
        ),
{
    broadcast use group_plan;

    reveal(preparing_on_target);
    s.say(Tone::Success, "Target mounted")?;
    s.say(Tone::Step, numbered(2, 2, "Setting up live boot").as_str())?;
    let esp = mount_esp(s, l)?;
    let r = prepare_mounted(s, config, l, mount, esp.mount_point());
    match r {
        Err(Stop::Pending) => Err(Stop::Pending),
        _ => {
            ignore(esp.release(s))?;
            r
        },
    }
}

/// Sets up live boot on the target of a configuration.
pub fn prepare_live_environment(s: &mut Session, config: &Config) -> (r: Result<(), Stop>)
    ensures
        drive(preparing(config.deep_view()), old(s)@) == (final(s)@, shown(r)),
{
    broadcast use group_plan;

    reveal(preparing);
    config.validate(s)?;
    if !config.target.enable_live_boot {
        return Err(
            Stop::Failed(
                BackupError::Config("Live boot not enabled in configuration".to_owned()),
            ),
        );
    }
    let l = match &config.live_boot {
        Some(l) => l,
        None => return Err(
            Stop::Failed(BackupError::Config("Live boot configuration missing".to_owned())),
        ),
    };
    s.say(Tone::Header, "Prepare Live Boot Environment")?;
    s.say(Tone::Step, numbered(1, 2, "Mounting target").as_str())?;
    let guard = mount_target(s, config)?;
    let r = prepare_on_target(s, config, l, guard.mount_point());
    match r {
        Err(Stop::Pending) => Err(Stop::Pending),
        _ => {
            ignore(guard.release(s))?;
            r
        },
    }
}

}
