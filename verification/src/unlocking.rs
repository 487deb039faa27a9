//! Unlocking a device and locking it again.
//!
//! The unlocked devices are a model: the names under which they go. A name is given once, and
//! only a name that is given can be taken back.

use crate::change::{
    after, goes, lemma_goes_ask, lemma_goes_bind, lemma_goes_idle, lemma_goes_then, Step,
};
use crate::command_runner::{commanding, complaining, launching, Area};
use crate::device::{
    closing, mapped_path, opening, opening_at, opening_with_passphrase, resolving,
};
use crate::error::Fault;
use crate::holding::{
    hands_off, keeps_hands_off, lemma_hands_off_complaining, lemma_hands_off_resolving,
    lemma_programs, locks_again, succeeded, unlocks,
};
#[allow(unused_imports)]
use crate::journal::{
    ask, call, drive, fail, flag_in, group_plan, ok, output_in, present, run, say, text_in, then,
    Answer, Ask, Call, Log, Plan, Printed, Tone,
};
use crate::trace::{extends, group_only, only};
use crate::ui::command_text;
use vstd::prelude::*;

verus! {

/// The names of the unlocked devices.
pub type Mappings = Set<Seq<char>>;

/// The path of a device exists where the device is unlocked.
pub open spec fn fits(s: Mappings, path: Seq<char>, there: bool) -> bool {
    forall|m: Seq<char>| path == #[trigger] mapped_path(m) ==> there == s.contains(m)
}

/// How the unlocked devices change: unlocking is successful only under a name that is not
/// taken, locking only with a name that is, and neither changes anything where it fails. What
/// exists below `/dev/mapper` are the unlocked devices.
pub open spec fn maps() -> Step<Mappings> {
    |s: Mappings, q: Ask, a: Answer, t: Mappings|
        match q {
            Ask::Run(c) => match (unlocks(c), locks_again(c)) {
                (Some(m), _) if succeeded(a) => !s.contains(m) && t == s.insert(m),
                (None, Some(m)) if succeeded(a) => s.contains(m) && t == s.remove(m),
                _ => t == s,
            },
            Ask::Exists(p) => t == s && (a matches Answer::Flag(there) ==> fits(s, p, there)),
            _ => t == s,
        }
}

/// Every program in the log could be run.
pub open spec fn ran(log: Log) -> bool {
    forall|i: int|
        #![trigger log.asked[i]]
        0 <= i < log.asked.len() && log.asked[i] is Run ==> log.answers[i] is Ran
}

/// Requests that have nothing to do with the unlocked devices.
proof fn lemma_idle<T>(p: Plan<T>, log: Log, ss: spec_fn(int) -> Mappings)
    requires
        goes(maps(), p, log, ss),
        only(p, hands_off()),
    ensures
        extends(log, drive(p, log).0),
        after(drive(p, log).0, ss) == after(log, ss),
{
    assert forall|s: Mappings, q: Ask, a: Answer, t: Mappings|
        hands_off()(q) && #[trigger] maps()(s, q, a, t) implies t == s by {
        assert(keeps_hands_off(q));
    }
    lemma_goes_idle(maps(), p, hands_off(), log, ss);
}

/// One command, and what it did to the unlocked devices.
proof fn lemma_running(c: Call, log: Log, ss: spec_fn(int) -> Mappings)
    requires
        goes(maps(), run(c), log, ss),
    ensures
        ({
            let (l, o) = drive(run(c), log);
            &&& extends(log, l)
            &&& o matches Some(Ok(r)) ==> maps()(after(log, ss), Ask::Run(c), Answer::Ran(r), after(
                l,
                ss,
            ))
            &&& o matches Some(Err(_)) ==> after(l, ss) == after(log, ss) && !ran(l)
        }),
{
    broadcast use group_plan;

    lemma_goes_bind(
        maps(),
        ask(Ask::Run(c)),
        |a: Answer|
            match output_in(a) {
                Ok(o) => ok(o),
                Err(e) => fail(Fault::Io(e)),
            },
        log,
        ss,
    );
    lemma_goes_ask(maps(), Ask::Run(c), log, ss);
    let (l, o) = drive(ask(Ask::Run(c)), log);
    if o is Some {
        let n = log.asked.len() as int;
        assert(l.asked[n] == Ask::Run(c));
    }
}

/// A command that has to be successful, and what it did to the unlocked devices.
proof fn lemma_must_run(area: Area, c: Call, msg: Seq<char>, log: Log, ss: spec_fn(int) -> Mappings)
    requires
        goes(maps(), commanding(area, c, msg), log, ss),
    ensures
        ({
            let (l, o) = drive(commanding(area, c, msg), log);
            &&& extends(log, l)
            &&& o matches Some(Ok(_)) ==> exists|a: Answer|
                succeeded(a) && #[trigger] maps()(after(log, ss), Ask::Run(c), a, after(l, ss))
            &&& o matches Some(Err(e)) ==> after(l, ss) == after(log, ss) && (ran(l) && area
                == Area::Mount ==> e is Mount)
        }),
{
    broadcast use {group_plan, group_only, lemma_hands_off_complaining};

    reveal(commanding);
    reveal(launching);
    let k = |o: Printed|
        if o.success {
            ok(())
        } else {
            complaining::<()>(area, msg, o)
        };
    let announce = say(Tone::CmdStart, command_text(c));
    let (l, o) = drive(commanding(area, c, msg), log);
    lemma_goes_then(maps(), launching(c), k, log, ss);
    lemma_goes_then(maps(), announce, |u: ()| run(c), log, ss);
    lemma_idle(announce, log, ss);
    let (l1, o1) = drive(announce, log);
    if o1 is Some {
        lemma_running(c, l1, ss);
        let (l2, o2) = drive(run(c), l1);
        if let Some(Ok(r)) = o2 {
            if r.success {
                assert(succeeded(Answer::Ran(r)));
            } else {
                lemma_idle(complaining::<()>(area, msg, r), l2, ss);
                reveal(complaining);
            }
        }
    }
}

/// Locking: the name is free afterwards. Where it was not taken, locking fails.
pub proof fn lemma_closing(mapping: Seq<char>, log: Log, ss: spec_fn(int) -> Mappings)
    requires
        goes(maps(), closing(mapping), log, ss),
    ensures
        ({
            let (l, o) = drive(closing(mapping), log);
            let s = after(log, ss);
            &&& extends(log, l)
            &&& o matches Some(Ok(_)) ==> s.contains(mapping) && after(l, ss) == s.remove(mapping)
            &&& o matches Some(Err(e)) ==> after(l, ss) == s && (ran(l) ==> e is Mount)
        }),
{
    reveal(closing);
    lemma_programs();
    let c = call("cryptsetup"@).arg("close"@).arg(mapping);
    assert(c.args =~= seq!["close"@, mapping]);
    assert(locks_again(c) == Some(mapping) && unlocks(c) is None);
    lemma_must_run(Area::Mount, c, "Failed to close LUKS mapping "@ + mapping + ": "@, log, ss);
}

proof fn lemma_opening_with_passphrase(
    device: Seq<char>,
    mapping: Seq<char>,
    variable: Seq<char>,
    log: Log,
    ss: spec_fn(int) -> Mappings,
)
    requires
        goes(maps(), opening_with_passphrase(device, mapping, variable), log, ss),
    ensures
        ({
            let (l, o) = drive(opening_with_passphrase(device, mapping, variable), log);
            let s = after(log, ss);
            &&& extends(log, l)
            &&& o matches Some(Ok(path)) ==> path == mapped_path(mapping) && !s.contains(mapping)
                && after(l, ss) == s.insert(mapping)
            &&& o matches Some(Err(_)) ==> after(l, ss) == s
        }),
{
    broadcast use {group_plan, group_only, lemma_hands_off_complaining};

    reveal(opening_with_passphrase);
    let q = Ask::EnvVar(variable);
    let judge = |o: Printed|
        if o.success {
            ok(mapped_path(mapping))
        } else {
            complaining::<Seq<char>>(
                Area::Mount,
                "Failed to open LUKS device "@ + device + ": "@,
                o,
            )
        };
    let announce = say(Tone::CmdStart, "cryptsetup open --key-file - "@ + device + " "@ + mapping);
    let k = |a: Answer|
        match text_in(a) {
            Err(e) => fail(
                Fault::Mount(
                    "Failed to get passphrase from environment variable "@ + variable + ": "@
                        + e.message,
                ),
            ),
            Ok(passphrase) => then(
                announce,
                |u: ()|
                    then(
                        run(
                            call("cryptsetup"@).arg("open"@).arg("--key-file"@).arg("-"@).arg(
                                device,
                            ).arg(mapping).fed(passphrase),
                        ),
                        judge,
                    ),
            ),
        };
    lemma_goes_bind(maps(), ask(q), k, log, ss);
    lemma_goes_ask(maps(), q, log, ss);
    let (l1, o1) = drive(ask(q), log);
    if let Some(a) = o1 {
        if let Ok(passphrase) = text_in(a) {
            let c = call("cryptsetup"@).arg("open"@).arg("--key-file"@).arg("-"@).arg(device).arg(
                mapping,
            ).fed(passphrase);
            assert(c.args[0] == "open"@ && c.args.last() == mapping && c.args.len() > 1);
            assert(unlocks(c) == Some(mapping));
            lemma_goes_then(maps(), announce, |u: ()| then(run(c), judge), l1, ss);
            lemma_idle(announce, l1, ss);
            let (l2, o2) = drive(announce, l1);
            if o2 is Some {
                lemma_goes_then(maps(), run(c), judge, l2, ss);
                lemma_running(c, l2, ss);
                let (l3, o3) = drive(run(c), l2);
                if let Some(Ok(r)) = o3 {
                    if !r.success {
                        lemma_idle(judge(r), l3, ss);
                        reveal(complaining);
                    }
                }
            }
        }
    }
}

/// Unlocking: the device goes by the name that was asked for, which nothing had before.
pub proof fn lemma_opening(
    device: Seq<char>,
    mapping: Seq<char>,
    keyfile: Option<Seq<char>>,
    passphrase_env: Option<Seq<char>>,
    log: Log,
    ss: spec_fn(int) -> Mappings,
)
    requires
        goes(maps(), opening(device, mapping, keyfile, passphrase_env), log, ss),
    ensures
        ({
            let (l, o) = drive(opening(device, mapping, keyfile, passphrase_env), log);
            let s = after(log, ss);
            &&& extends(log, l)
            &&& o matches Some(Ok(path)) ==> path == mapped_path(mapping) && !s.contains(mapping)
                && after(l, ss) == s.insert(mapping)
            &&& o matches Some(Err(_)) ==> after(l, ss) == s
        }),
{
    broadcast use {group_plan, lemma_hands_off_resolving};

    reveal(opening);
    reveal(opening_at);
    let k = |resolved: Seq<char>| opening_at(resolved, mapping, keyfile, passphrase_env);
    lemma_goes_then(maps(), resolving(device), k, log, ss);
    lemma_idle(resolving(device), log, ss);
    let (l1, o1) = drive(resolving(device), log);
    if let Some(Ok(resolved)) = o1 {
        match (keyfile, passphrase_env) {
            (Some(file), _) => {
                let c = call("cryptsetup"@).arg("open"@).arg("--key-file"@).arg(file).arg(
                    resolved,
                ).arg(mapping);
                let msg = "Failed to open LUKS device "@ + resolved + ": "@;
                assert(c.args[0] == "open"@ && c.args.last() == mapping && c.args.len() > 1);
                assert(unlocks(c) == Some(mapping));
                lemma_goes_then(
                    maps(),
                    commanding(Area::Mount, c, msg),
                    |u: ()| ok(mapped_path(mapping)),
                    l1,
                    ss,
                );
                lemma_must_run(Area::Mount, c, msg, l1, ss);
            },
            (None, Some(variable)) => {
                lemma_opening_with_passphrase(resolved, mapping, variable, l1, ss);
            },
            (None, None) => {},
        }
    }
}

/// What was unlocked can be locked again, once: after a device was unlocked, it goes by its
/// name and its path is given; after it was locked, the unlocked devices are those there were
/// before, and the path no longer exists. Locking it again fails, as it does with any name that
/// is not taken.
pub proof fn lemma_open_and_close(
    device: Seq<char>,
    mapping: Seq<char>,
    keyfile: Option<Seq<char>>,
    passphrase_env: Option<Seq<char>>,
    log: Log,
    ss: spec_fn(int) -> Mappings,
)
    requires
        ({
            let plan = opening(device, mapping, keyfile, passphrase_env);
            let opened = drive(plan, log).0;
            let closed = drive(closing(mapping), opened).0;
            let looked = drive(present(mapped_path(mapping)), closed).0;
            &&& goes(maps(), plan, log, ss)
            &&& goes(maps(), closing(mapping), opened, ss)
            &&& goes(maps(), present(mapped_path(mapping)), closed, ss)
            &&& goes(maps(), closing(mapping), looked, ss)
        }),
    ensures
        ({
            let path = mapped_path(mapping);
            let (opened, o1) = drive(opening(device, mapping, keyfile, passphrase_env), log);
            let (closed, o2) = drive(closing(mapping), opened);
            let (looked, o3) = drive(present(path), closed);
            let (last, o4) = drive(closing(mapping), looked);
            o1 matches Some(Ok(p)) ==> {
                &&& p == path
                &&& after(opened, ss) == after(log, ss).insert(mapping)
                &&& o2 matches Some(Ok(_)) ==> {
                    &&& after(closed, ss) == after(log, ss)
                    &&& !after(closed, ss).contains(mapping)
                    &&& o3 matches Some(r) ==> r == Ok::<bool, Fault>(false)
                    &&& o3 is Some ==> (o4 matches Some(r) ==> r matches Err(e) && (ran(last)
                        ==> e is Mount))
                }
            }
        }),
{
    broadcast use group_plan;

    let path = mapped_path(mapping);
    let (opened, o1) = drive(opening(device, mapping, keyfile, passphrase_env), log);
    let (closed, o2) = drive(closing(mapping), opened);
    let (looked, o3) = drive(present(path), closed);
    lemma_opening(device, mapping, keyfile, passphrase_env, log, ss);
    lemma_closing(mapping, opened, ss);
    lemma_closing(mapping, looked, ss);
    lemma_goes_bind(maps(), ask(Ask::Exists(path)), |a: Answer| ok(flag_in(a)), closed, ss);
    lemma_goes_ask(maps(), Ask::Exists(path), closed, ss);
    if o1 matches Some(Ok(_)) && o2 matches Some(Ok(_)) {
        assert(after(log, ss).insert(mapping).remove(mapping) =~= after(log, ss));
    }
}

}
