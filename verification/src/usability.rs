//! Which configurations pass validation.

use crate::backup::{preparing, running};
use crate::btrfs::{checking_filesystem, checking_subvolume, filesystem_call, show_call};
use crate::cli::Commands;
use crate::command_runner::querying;
use crate::config::{
    esp_path_fault, judging, unusable, validating, validating_encryption, validating_live_boot,
    validating_rest, validating_source, validating_sources, validating_target, Encryption, LiveBoot,
    Location, Setup, Source,
};
use crate::error::Fault;
#[allow(unused_imports)]
use crate::journal::{
    ask, bind, drive, fail, flag_in, group_plan, ok, output_in, present, run, say, then, Answer,
    Ask, Call, Log, Plan, Printed, Tone, Try,
};
use crate::path::quoted_path;
use crate::text::trimmed;
use crate::trace::lemma_drive_extends;
use crate::ui::command_text;
use vstd::prelude::*;

verus! {

/// What is the case in the file system.
pub struct Facts {
    /// Which paths exist.
    pub existing: spec_fn(Seq<char>) -> bool,
    /// Which paths are subvolumes.
    pub subvolumes: spec_fn(Seq<char>) -> bool,
    /// Which paths are on a Btrfs file system.
    pub btrfs: spec_fn(Seq<char>) -> bool,
}

/// The answer to the request is true to the facts.
pub open spec fn is_true(facts: Facts, q: Ask, a: Answer) -> bool {
    match q {
        Ask::Exists(p) => a == Answer::Flag((facts.existing)(p)),
        Ask::Run(c) => {
            &&& forall|p: Seq<char>|
                c == #[trigger] show_call(p) ==> (a matches Answer::Ran(o) && o.success == (
                facts.subvolumes)(p))
            &&& forall|p: Seq<char>|
                c == #[trigger] filesystem_call(p) ==> (a matches Answer::Ran(o) && o.success == (
                facts.btrfs)(p))
        },
        _ => true,
    }
}

/// All answers in the log are true to the facts.
pub open spec fn truthful(log: Log, facts: Facts) -> bool {
    forall|i: int|
        #![trigger log.asked[i]]
        0 <= i < log.asked.len() ==> is_true(facts, log.asked[i], log.answers[i])
}

/// A source is an existing subvolume, and its snapper configuration is named where it is
/// needed.
pub open spec fn usable_source(source: Source, facts: Facts) -> bool {
    &&& (facts.existing)(source.path)
    &&& (facts.subvolumes)(source.path)
    &&& source.use_snapper ==> source.snapper_config is Some
}

/// A mounted target exists on a Btrfs file system.
pub open spec fn usable_target(location: Location, facts: Facts) -> bool {
    location matches Location::MountedPath(p) ==> (facts.existing)(p) && (facts.btrfs)(p)
}

/// The live boot environment has a usable mount point for an EFI system partition that exists
/// or is a device.
pub open spec fn usable_live_boot(l: LiveBoot, facts: Facts) -> bool {
    &&& esp_path_fault(l.esp_path) is None
    &&& l.esp_location matches Location::MountedPath(p) ==> (facts.existing)(p)
}

/// There is a key: a file that exists, or a variable.
pub open spec fn usable_encryption(e: Encryption, facts: Facts) -> bool {
    match e.keyfile {
        Some(k) => (facts.existing)(k),
        None => e.passphrase_env is Some,
    }
}

/// The configuration can be used.
pub open spec fn usable(c: Setup, facts: Facts) -> bool {
    &&& trimmed(c.name).len() > 0
    &&& c.sources.len() > 0
    &&& forall|i: int| 0 <= i < c.sources.len() ==> usable_source(#[trigger] c.sources[i], facts)
    &&& usable_target(c.target.location, facts)
    &&& c.target.enable_live_boot ==> c.live_boot is Some
    &&& c.live_boot matches Some(l) ==> usable_live_boot(l, facts)
    &&& c.target.encryption matches Some(e) ==> usable_encryption(e, facts)
}

/// A run with true answers, where the log ends in `l`.
pub open spec fn true_run<T>(p: Plan<T>, log: Log, facts: Facts) -> bool {
    log.asked.len() <= log.answers.len() && truthful(drive(p, log).0, facts)
}

proof fn lemma_true_bind<T, U>(p: Plan<T>, f: spec_fn(T) -> Plan<U>, log: Log, facts: Facts)
    requires
        true_run(bind(p, f), log, facts),
    ensures
        true_run(p, log, facts),
        drive(p, log) matches (l, Some(t)) ==> true_run(f(t), l, facts) && drive(bind(p, f), log)
            == drive(f(t), l),
        drive(p, log) matches (l, None) ==> drive(bind(p, f), log) == (l, None::<U>),
{
    broadcast use group_plan;

    lemma_drive_extends(p, log);
    let l = drive(p, log).0;
    let m = drive(bind(p, f), log).0;
    if let (_, Some(t)) = drive(p, log) {
        lemma_drive_extends(f(t), l);
        assert forall|i: int| 0 <= i < l.asked.len() implies is_true(
            facts,
            #[trigger] l.asked[i],
            l.answers[i],
        ) by {
            assert(l.asked[i] == m.asked[i]);
        }
    }
}

proof fn lemma_true_then<T, U>(p: Try<T>, f: spec_fn(T) -> Try<U>, log: Log, facts: Facts)
    requires
        true_run(then(p, f), log, facts),
    ensures
        true_run(p, log, facts),
        drive(p, log) matches (l, Some(Ok(t))) ==> true_run(f(t), l, facts) && drive(
            then(p, f),
            log,
        ) == drive(f(t), l),
        drive(p, log) matches (l, Some(Err(e))) ==> drive(then(p, f), log) == (
            l,
            Some(Err::<U, Fault>(e)),
        ),
        drive(p, log) matches (l, None) ==> drive(then(p, f), log) == (
            l,
            None::<Result<U, Fault>>,
        ),
{
    broadcast use group_plan;

    lemma_true_bind(
        p,
        |r: Result<T, Fault>|
            match r {
                Ok(t) => f(t),
                Err(e) => fail(e),
            },
        log,
        facts,
    );
}

proof fn lemma_true_ask(q: Ask, log: Log, facts: Facts)
    requires
        true_run(ask(q), log, facts),
    ensures
        drive(ask(q), log).1 matches Some(a) ==> is_true(facts, q, a),
{
    broadcast use group_plan;

    let (l, o) = drive(ask(q), log);
    if log.asked.len() < log.answers.len() {
        assert(l.asked[log.asked.len() as int] == q);
    }
}

proof fn lemma_true_present(p: Seq<char>, log: Log, facts: Facts)
    requires
        true_run(present(p), log, facts),
    ensures
        drive(present(p), log).1 matches Some(r) ==> r == Ok::<bool, Fault>((facts.existing)(p)),
{
    broadcast use group_plan;

    lemma_true_bind(
        ask(Ask::Exists(p)),
        |a: Answer| ok(flag_in(a)),
        log,
        facts,
    );
    lemma_true_ask(Ask::Exists(p), log, facts);
}

proof fn lemma_true_query(c: Call, log: Log, facts: Facts)
    requires
        true_run(querying(c), log, facts),
    ensures
        drive(querying(c), log).1 matches Some(Ok(o)) ==> is_true(
            facts,
            Ask::Run(c),
            Answer::Ran(o),
        ),
        drive(querying(c), log).1 matches Some(Err(_)) ==> exists|a: Answer|
            !(a is Ran) && #[trigger] is_true(facts, Ask::Run(c), a),
{
    broadcast use group_plan;

    reveal(querying);
    let p1 = say(Tone::Detail, "$ "@ + command_text(c));
    lemma_true_then(p1, |u: ()| run(c), log, facts);
    let (l1, o1) = drive(p1, log);
    lemma_drive_extends(p1, log);
    if o1 is Some {
        lemma_true_bind(
            ask(Ask::Run(c)),
            |a: Answer|
                match output_in(a) {
                    Ok(o) => ok(o),
                    Err(e) => fail(Fault::Io(e)),
                },
            l1,
            facts,
        );
        lemma_true_ask(Ask::Run(c), l1, facts);
        if let Some(a) = drive(ask(Ask::Run(c)), l1).1 {
            assert(is_true(facts, Ask::Run(c), a));
        }
    }
}

proof fn lemma_true_checks(p: Seq<char>, log: Log, facts: Facts)
    ensures
        true_run(checking_subvolume(p), log, facts) ==> (drive(
            checking_subvolume(p),
            log,
        ).1 matches Some(r) ==> r == Ok::<bool, Fault>((facts.subvolumes)(p))),
        true_run(checking_filesystem(p), log, facts) ==> (drive(
            checking_filesystem(p),
            log,
        ).1 matches Some(r) ==> r == Ok::<bool, Fault>((facts.btrfs)(p))),
{
    broadcast use group_plan;

    reveal(checking_subvolume);
    reveal(checking_filesystem);
    let k = |o: Printed| ok(o.success);
    if true_run(checking_subvolume(p), log, facts) {
        lemma_true_then(querying(show_call(p)), k, log, facts);
        lemma_true_query(show_call(p), log, facts);
    }
    if true_run(checking_filesystem(p), log, facts) {
        lemma_true_then(querying(filesystem_call(p)), k, log, facts);
        lemma_true_query(filesystem_call(p), log, facts);
    }
}

proof fn lemma_true_source(source: Source, log: Log, facts: Facts)
    requires
        true_run(validating_source(source), log, facts),
    ensures
        drive(validating_source(source), log).1 matches Some(r) ==> r is Ok == usable_source(
            source,
            facts,
        ),
{
    broadcast use group_plan;

    reveal(validating_source);
    reveal(judging);
    let judge = |r: Result<bool, Fault>|
        judging(
            r,
            "Source path is not a btrfs subvolume: "@ + quoted_path(source.path),
            "Failed to check btrfs subvolume status: "@,
        );
    let last = |u: ()|
        if source.use_snapper && source.snapper_config is None {
            unusable(
                "snapper_config must be set when use_snapper is true for source: "@
                    + quoted_path(source.path),
            )
        } else {
            ok(())
        };
    let k = |there: bool|
        if !there {
            unusable(
                "Source path does not exist: "@ + quoted_path(source.path),
            )
        } else {
            then(bind(checking_subvolume(source.path), judge), last)
        };
    lemma_true_then(present(source.path), k, log, facts);
    lemma_true_present(source.path, log, facts);
    let (l1, o1) = drive(present(source.path), log);
    if o1 == Some(Ok::<bool, Fault>(true)) {
        lemma_true_then(bind(checking_subvolume(source.path), judge), last, l1, facts);
        lemma_true_bind(checking_subvolume(source.path), judge, l1, facts);
        lemma_true_checks(source.path, l1, facts);
    }
}

proof fn lemma_true_sources(sources: Seq<Source>, i: int, log: Log, facts: Facts)
    requires
        true_run(validating_sources(sources, i), log, facts),
        0 <= i,
    ensures
        drive(validating_sources(sources, i), log).1 matches Some(r) ==> r is Ok == (forall|j: int|
            i <= j < sources.len() ==> usable_source(#[trigger] sources[j], facts)),
    decreases sources.len() - i,
{
    broadcast use group_plan;

    if i < sources.len() {
        let k = |u: ()| validating_sources(sources, i + 1);
        lemma_true_then(validating_source(sources[i]), k, log, facts);
        lemma_true_source(sources[i], log, facts);
        let (l1, o1) = drive(validating_source(sources[i]), log);
        if o1 == Some(Ok::<(), Fault>(())) {
            lemma_true_sources(sources, i + 1, l1, facts);
        }
    }
}

proof fn lemma_true_target(location: Location, log: Log, facts: Facts)
    requires
        true_run(validating_target(location), log, facts),
    ensures
        drive(validating_target(location), log).1 matches Some(r) ==> r is Ok == usable_target(
            location,
            facts,
        ),
{
    broadcast use group_plan;

    reveal(validating_target);
    reveal(judging);
    if let Location::MountedPath(p) = location {
        let judge = |r: Result<bool, Fault>|
            judging(
                r,
                "Target mounted path is not a btrfs filesystem: "@ + quoted_path(p),
                "Failed to check btrfs filesystem status: "@,
            );
        let k = |there: bool|
            if !there {
                unusable(
                    "Target mounted path does not exist: "@ + quoted_path(p),
                )
            } else {
                bind(checking_filesystem(p), judge)
            };
        lemma_true_then(present(p), k, log, facts);
        lemma_true_present(p, log, facts);
        let (l1, o1) = drive(present(p), log);
        if o1 == Some(Ok::<bool, Fault>(true)) {
            lemma_true_bind(checking_filesystem(p), judge, l1, facts);
            lemma_true_checks(p, l1, facts);
        }
    }
}

proof fn lemma_true_path(p: Seq<char>, msg: Seq<char>, log: Log, facts: Facts)
    requires
        true_run(
            then(
                present(p),
                |there: bool|
                    if there {
                        ok(())
                    } else {
                        unusable(msg + quoted_path(p))
                    },
            ),
            log,
            facts,
        ),
    ensures
        drive(
            then(
                present(p),
                |there: bool|
                    if there {
                        ok(())
                    } else {
                        unusable(msg + quoted_path(p))
                    },
            ),
            log,
        ).1 matches Some(r) ==> r is Ok == (facts.existing)(p),
{
    broadcast use group_plan;

    lemma_true_then(
        present(p),
        |there: bool|
            if there {
                ok(())
            } else {
                unusable(msg + quoted_path(p))
            },
        log,
        facts,
    );
    lemma_true_present(p, log, facts);
}

proof fn lemma_true_rest(c: Setup, log: Log, facts: Facts)
    requires
        true_run(validating_rest(c), log, facts),
    ensures
        drive(validating_rest(c), log).1 matches Some(r) ==> r is Ok == {
            &&& c.target.enable_live_boot ==> c.live_boot is Some
            &&& c.live_boot matches Some(l) ==> usable_live_boot(l, facts)
            &&& c.target.encryption matches Some(e) ==> usable_encryption(e, facts)
        },
{
    broadcast use group_plan;

    reveal(validating_live_boot);
    reveal(validating_encryption);
    if !(c.target.enable_live_boot && c.live_boot is None) {
        let first = match c.live_boot {
            Some(l) => validating_live_boot(l),
            None => ok(()),
        };
        let second = |u: ()|
            match c.target.encryption {
                Some(e) => validating_encryption(e),
                None => ok(()),
            };
        lemma_true_then(first, second, log, facts);
        if let Some(l) = c.live_boot {
            if esp_path_fault(l.esp_path) is None {
                if let Location::MountedPath(p) = l.esp_location {
                    lemma_true_path(p, "ESP mounted path does not exist: "@, log, facts);
                }
            }
        }
        let (l1, o1) = drive(first, log);
        if o1 == Some(Ok::<(), Fault>(())) {
            if let Some(e) = c.target.encryption {
                if let Some(k) = e.keyfile {
                    lemma_true_path(k, "Encryption keyfile does not exist: "@, l1, facts);
                }
            }
        }
    }
}

/// Validation accepts exactly the usable configurations, as long as the answers that it gets
/// are true.
pub proof fn lemma_validation_is_exact(c: Setup, log: Log, facts: Facts)
    requires
        true_run(validating(c), log, facts),
    ensures
        drive(validating(c), log).1 matches Some(r) ==> r is Ok == usable(c, facts),
{
    broadcast use group_plan;

    reveal(validating);
    if trimmed(c.name).len() > 0 && c.sources.len() > 0 {
        let second = |u: ()|
            then(validating_target(c.target.location), |u: ()| validating_rest(c));
        lemma_true_then(validating_sources(c.sources, 0), second, log, facts);
        lemma_true_sources(c.sources, 0, log, facts);
        let (l1, o1) = drive(validating_sources(c.sources, 0), log);
        if o1 == Some(Ok::<(), Fault>(())) {
            let third = |u: ()| validating_rest(c);
            lemma_true_then(validating_target(c.target.location), third, l1, facts);
            lemma_true_target(c.target.location, l1, facts);
            let (l2, o2) = drive(validating_target(c.target.location), l1);
            if o2 == Some(Ok::<(), Fault>(())) {
                lemma_true_rest(c, l2, facts);
            }
        }
    }
}

/// Every command validates first: with a configuration that cannot be used it fails, and asks for
/// nothing more. Validating as a command succeeds exactly with one that can.
pub proof fn lemma_commands_validate(command: Commands, c: Setup, log: Log, facts: Facts)
    requires
        true_run(validating(c), log, facts),
    ensures
        ({
            let (l, o) = drive(command.executing(c), log);
            o matches Some(r) ==> {
                &&& command is Validate ==> r is Ok == usable(c, facts)
                &&& !usable(c, facts) ==> r is Err && l == drive(validating(c), log).0
            }
        }),
{
    broadcast use group_plan;

    lemma_validation_is_exact(c, log, facts);
    reveal(running);
    reveal(preparing);
}

}
