//! What holds of every run of a plan.

#[allow(unused_imports)]
use crate::journal::{ask, asking, bind, drive, then, Answer, Ask, Log, Plan, Try};
use vstd::prelude::*;

verus! {

/// The log with more answers known.
pub open spec fn with_more(log: Log, more: Seq<Answer>) -> Log {
    Log { answers: log.answers + more, ..log }
}

/// The log has an answer for everything that was asked for, and nothing waits.
pub open spec fn settled(log: Log) -> bool {
    log.asked.len() <= log.answers.len() && log.pending is None
}

/// `after` continues `before`: the same answers are known, and what had been asked for stands.
pub open spec fn extends(before: Log, after: Log) -> bool {
    &&& after.answers == before.answers
    &&& before.asked.is_prefix_of(after.asked)
    &&& after.asked.len() <= after.answers.len()
}

/// A run only adds to the log. Nothing waits once it has come to its end.
pub broadcast proof fn lemma_drive_extends<T>(p: Plan<T>, log: Log)
    requires
        log.asked.len() <= log.answers.len(),
    ensures
        #![trigger drive(p, log)]
        extends(log, drive(p, log).0),
        drive(p, log).1 is Some ==> drive(p, log).0.pending == log.pending,
    decreases p,
{
    reveal(drive);
    match p {
        Plan::Done(t) => {
            assert(log.asked.is_prefix_of(log.asked));
        },
        Plan::Ask(q, k) => match asking(log, q) {
            (l, None) => {},
            (l, Some(a)) => {
                lemma_drive_extends(k(a), l);
                assert(log.asked.is_prefix_of(l.asked));
                assert(log.asked.is_prefix_of(drive(p, log).0.asked));
            },
        },
    }
}

/// Knowing more answers changes nothing about what a run has done already: a run that came to
/// its end does the same, and one that waits goes on with the request that it waits for. So a
/// caller that starts a procedure again after every reply sees each request exactly once, in
/// the order in which the procedure makes them.
pub proof fn lemma_replay<T>(p: Plan<T>, log: Log, more: Seq<Answer>)
    requires
        settled(log),
    ensures
        ({
            let (l, o) = drive(p, log);
            let (l2, o2) = drive(p, with_more(log, more));
            &&& o is Some ==> o2 == o && l2 == with_more(l, more)
            &&& o is None ==> l.pending is Some && l.asked.len() == l.answers.len()
            &&& o is None && more.len() > 0 ==> l.asked.push(l.pending->0).is_prefix_of(l2.asked)
        }),
    decreases p,
{
    reveal(drive);
    match p {
        Plan::Done(t) => {},
        Plan::Ask(q, k) => match asking(log, q) {
            (l, None) => {
                if more.len() > 0 {
                    let l2 = asking(with_more(log, more), q).0;
                    let a = more[0];
                    assert(with_more(log, more).answers[log.asked.len() as int] == a);
                    lemma_drive_extends(k(a), l2);
                    assert(l2.asked == l.asked.push(q));
                }
            },
            (l, Some(a)) => {
                assert(with_more(log, more).answers[log.asked.len() as int] == a);
                assert(asking(with_more(log, more), q) == (with_more(l, more), Some(a)));
                lemma_replay(k(a), l, more);
            },
        },
    }
}

/// Every request that the plan can make, whatever the answers are, satisfies `pred`.
#[verifier::opaque]
pub open spec fn only<T>(p: Plan<T>, pred: spec_fn(Ask) -> bool) -> bool
    decreases p,
{
    match p {
        Plan::Done(t) => true,
        Plan::Ask(q, k) => pred(q) && forall|a: Answer| only(#[trigger] k(a), pred),
    }
}

pub broadcast proof fn lemma_only_done<T>(t: T, pred: spec_fn(Ask) -> bool)
    ensures
        #[trigger] only(Plan::Done(t), pred),
{
    reveal(only);
}

pub broadcast proof fn lemma_only_ask(q: Ask, pred: spec_fn(Ask) -> bool)
    ensures
        #[trigger] only(ask(q), pred) == pred(q),
{
    reveal_with_fuel(only, 2);
}

pub broadcast proof fn lemma_only_bind<T, U>(
    p: Plan<T>,
    f: spec_fn(T) -> Plan<U>,
    pred: spec_fn(Ask) -> bool,
)
    requires
        only(p, pred),
        forall|t: T| only(#[trigger] f(t), pred),
    ensures
        #[trigger] only(bind(p, f), pred),
    decreases p,
{
    reveal(only);
    reveal(bind);
    match p {
        Plan::Done(t) => {},
        Plan::Ask(q, k) => {
            assert forall|a: Answer| only(bind(#[trigger] k(a), f), pred) by {
                lemma_only_bind(k(a), f, pred);
            }
        },
    }
}

pub broadcast proof fn lemma_only_then<T, U>(
    p: Try<T>,
    f: spec_fn(T) -> Try<U>,
    pred: spec_fn(Ask) -> bool,
)
    requires
        only(p, pred),
        forall|t: T| only(#[trigger] f(t), pred),
    ensures
        #[trigger] only(then(p, f), pred),
{
    broadcast use {lemma_only_bind, lemma_only_done};

}

pub broadcast group group_only {
    lemma_only_done,
    lemma_only_ask,
    lemma_only_bind,
    lemma_only_then,
}

/// What `only` says of a plan holds of each of its runs.
pub proof fn lemma_only<T>(p: Plan<T>, pred: spec_fn(Ask) -> bool, log: Log)
    requires
        only(p, pred),
        settled(log),
    ensures
        ({
            let l = drive(p, log).0;
            &&& forall|i: int| log.asked.len() <= i < l.asked.len() ==> pred(#[trigger] l.asked[i])
            &&& l.pending is Some ==> pred(l.pending->0)
        }),
    decreases p,
{
    reveal(drive);
    reveal(only);
    match p {
        Plan::Done(t) => {},
        Plan::Ask(q, k) => match asking(log, q) {
            (l, None) => {},
            (l, Some(a)) => {
                lemma_only(k(a), pred, l);
                lemma_drive_extends(k(a), l);
                let l1 = drive(p, log).0;
                assert forall|i: int| log.asked.len() <= i < l1.asked.len() implies pred(
                    #[trigger] l1.asked[i],
                ) by {
                    if i == log.asked.len() {
                        assert(l1.asked[i] == l.asked[i]);
                    }
                }
            },
        },
    }
}

/// What holds of every request holds of it in a weaker form.
pub(crate) proof fn lemma_only_weaker<T>(
    p: Plan<T>,
    pred: spec_fn(Ask) -> bool,
    weaker: spec_fn(Ask) -> bool,
)
    requires
        only(p, pred),
        forall|q: Ask| #[trigger] pred(q) ==> weaker(q),
    ensures
        only(p, weaker),
    decreases p,
{
    reveal(only);
    match p {
        Plan::Done(t) => {},
        Plan::Ask(q, k) => {
            assert(pred(q));
            assert forall|a: Answer| only(#[trigger] k(a), weaker) by {
                lemma_only_weaker(k(a), pred, weaker);
            }
        },
    }
}

}
