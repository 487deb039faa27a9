//! A part of the system that changes from request to request.

use crate::error::Fault;
#[allow(unused_imports)]
use crate::journal::{ask, asking, bind, drive, fail, group_plan, then, Answer, Ask, Log, Plan, Try};
use crate::trace::{extends, lemma_drive_extends, only};
use vstd::prelude::*;

verus! {

/// What a request can be answered with, and how it changes the system: before it, the request,
/// the answer, after it.
pub type Step<S> = spec_fn(S, Ask, Answer, S) -> bool;

/// The system goes through `ss` while the requests in the log are answered: the request with
/// the number `i` finds it as `ss(i)` and leaves it as `ss(i + 1)`.
pub open spec fn allowed<S>(step: Step<S>, log: Log, ss: spec_fn(int) -> S) -> bool {
    forall|i: int|
        #![trigger log.asked[i]]
        0 <= i < log.asked.len() ==> step(ss(i), log.asked[i], log.answers[i], ss(i + 1))
}

/// The system at the end of a log.
pub open spec fn after<S>(log: Log, ss: spec_fn(int) -> S) -> S {
    ss(log.asked.len() as int)
}

/// The system changes as it can while a plan is followed.
pub open spec fn goes<S, T>(step: Step<S>, p: Plan<T>, log: Log, ss: spec_fn(int) -> S) -> bool {
    log.asked.len() <= log.answers.len() && allowed(step, drive(p, log).0, ss)
}

/// What holds of a log holds of its beginning.
pub(crate) proof fn lemma_allowed_earlier<S>(
    step: Step<S>,
    l: Log,
    m: Log,
    ss: spec_fn(int) -> S,
)
    requires
        extends(l, m),
        allowed(step, m, ss),
    ensures
        allowed(step, l, ss),
{
    assert forall|i: int| 0 <= i < l.asked.len() implies step(
        ss(i),
        #[trigger] l.asked[i],
        l.answers[i],
        ss(i + 1),
    ) by {
        assert(m.asked[i] == l.asked[i]);
    }
}

pub(crate) proof fn lemma_goes_bind<S, T, U>(
    step: Step<S>,
    p: Plan<T>,
    f: spec_fn(T) -> Plan<U>,
    log: Log,
    ss: spec_fn(int) -> S,
)
    requires
        goes(step, bind(p, f), log, ss),
    ensures
        goes(step, p, log, ss),
        extends(log, drive(p, log).0),
        drive(p, log) matches (l, Some(t)) ==> goes(step, f(t), l, ss) && drive(bind(p, f), log)
            == drive(f(t), l),
        drive(p, log) matches (l, None) ==> drive(bind(p, f), log) == (l, None::<U>),
{
    broadcast use group_plan;

    lemma_drive_extends(p, log);
    let l = drive(p, log).0;
    let m = drive(bind(p, f), log).0;
    if let (_, Some(t)) = drive(p, log) {
        lemma_drive_extends(f(t), l);
        lemma_allowed_earlier(step, l, m, ss);
    }
}

pub(crate) proof fn lemma_goes_then<S, T, U>(
    step: Step<S>,
    p: Try<T>,
    f: spec_fn(T) -> Try<U>,
    log: Log,
    ss: spec_fn(int) -> S,
)
    requires
        goes(step, then(p, f), log, ss),
    ensures
        goes(step, p, log, ss),
        extends(log, drive(p, log).0),
        drive(p, log) matches (l, Some(Ok(t))) ==> goes(step, f(t), l, ss) && drive(
            then(p, f),
            log,
        ) == drive(f(t), l),
        drive(p, log) matches (l, Some(Err(e))) ==> drive(then(p, f), log) == (
            l,
            Some(Err::<U, Fault>(e)),
        ),
        drive(p, log) matches (l, None) ==> drive(then(p, f), log) == (
            l,
            None::<Result<U, Fault>>,
        ),
{
    broadcast use group_plan;

    lemma_goes_bind(
        step,
        p,
        |r: Result<T, Fault>|
            match r {
                Ok(t) => f(t),
                Err(e) => fail(e),
            },
        log,
        ss,
    );
}

pub(crate) proof fn lemma_goes_ask<S>(step: Step<S>, q: Ask, log: Log, ss: spec_fn(int) -> S)
    requires
        goes(step, ask(q), log, ss),
    ensures
        ({
            let (l, o) = drive(ask(q), log);
            &&& extends(log, l)
            &&& o matches Some(a) ==> l.asked == log.asked.push(q) && a
                == l.answers[log.asked.len() as int] && step(after(log, ss), q, a, after(l, ss))
            &&& o is None ==> l.asked == log.asked
        }),
{
    broadcast use group_plan;

    lemma_drive_extends(ask(q), log);
    let (l, o) = drive(ask(q), log);
    if log.asked.len() < log.answers.len() {
        assert(l.asked[log.asked.len() as int] == q);
    }
}

/// Requests that change nothing change nothing, however many there are.
pub(crate) proof fn lemma_goes_idle<S, T>(
    step: Step<S>,
    p: Plan<T>,
    pred: spec_fn(Ask) -> bool,
    log: Log,
    ss: spec_fn(int) -> S,
)
    requires
        goes(step, p, log, ss),
        only(p, pred),
        forall|s: S, q: Ask, a: Answer, t: S|
            pred(q) && #[trigger] step(s, q, a, t) ==> t == s,
    ensures
        extends(log, drive(p, log).0),
        after(drive(p, log).0, ss) == after(log, ss),
    decreases p,
{
    reveal(drive);
    reveal(only);
    lemma_drive_extends(p, log);
    match p {
        Plan::Done(t) => {},
        Plan::Ask(q, k) => match asking(log, q) {
            (l, None) => {},
            (l, Some(a)) => {
                lemma_drive_extends(k(a), l);
                let m = drive(p, log).0;
                let n = log.asked.len() as int;
                assert(l.asked[n] == q);
                assert(m.asked[n] == q);
                assert(step(ss(n), q, a, ss(n + 1)));
                lemma_goes_idle(step, k(a), pred, l, ss);
            },
        },
    }
}

}
