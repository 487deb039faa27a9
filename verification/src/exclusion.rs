//! Who holds a lock.
//!
//! The locks are a model: the places of the lock files that somebody holds, be it this run or
//! another one. Lock files can be made, and a lock that nobody holds is granted.

use crate::backup::{acquiring, locking_step, locks_dir};
use crate::change::{after, goes, lemma_goes_ask, lemma_goes_bind, lemma_goes_then, Step};
use crate::disk::{place, Place};
use crate::error::{Fault, IoFault};
#[allow(unused_imports)]
use crate::journal::{
    ask, attempt, drive, fail, failure_in, fetch, group_plan, ok, perform, text_in, then, Answer,
    Ask, Log,
};
use crate::path::{joined_path, lemma_join_adds_component};
use crate::trace::extends;
use vstd::prelude::*;

verus! {

/// The lock files that somebody holds.
pub type Held = Set<Place>;

/// The lock file of a configuration name.
pub open spec fn lock_file(temp: Seq<char>, name: Seq<char>) -> Seq<char> {
    joined_path(locks_dir(temp), name + ".lock"@)
}

/// How the locks change: a lock that somebody holds is refused, one that nobody holds is
/// granted, and one that is given back is free.
pub open spec fn grants(temp: Seq<char>) -> Step<Held> {
    |s: Held, q: Ask, a: Answer, t: Held|
        match q {
            Ask::TempRoot => t == s && a == Answer::Text(temp),
            Ask::CreateDirAll(_) | Ask::OpenLock(_) => t == s && a is Done,
            Ask::TryLock(p) => if s.contains(place(p)) {
                t == s && a is Failed
            } else {
                t == s.insert(place(p)) && a is Done
            },
            Ask::Unlock(p) => t == s.remove(place(p)) && a is Done,
            _ => t == s,
        }
}

/// What a run says that finds its lock taken.
pub open spec fn taken(name: Seq<char>) -> Fault {
    Fault::Lock(
        "Another btrbak instance is already running with config name '"@ + name + "'"@,
    )
}

proof fn lemma_locking_step(
    q: Ask,
    msg: Seq<char>,
    temp: Seq<char>,
    log: Log,
    ss: spec_fn(int) -> Held,
)
    requires
        goes(grants(temp), locking_step(q, msg), log, ss),
        q is CreateDirAll || q is OpenLock,
    ensures
        ({
            let (l, o) = drive(locking_step(q, msg), log);
            &&& extends(log, l)
            &&& o is Some ==> o == Some(Ok::<(), Fault>(())) && after(l, ss) == after(log, ss)
        }),
{
    broadcast use group_plan;

    reveal(locking_step);
    let k = |e: Option<IoFault>|
        match e {
            None => ok(()),
            Some(e) => fail(Fault::Lock(msg + e.message)),
        };
    lemma_goes_then(grants(temp), attempt(q), k, log, ss);
    lemma_goes_bind(grants(temp), ask(q), |a: Answer| ok(failure_in(a)), log, ss);
    lemma_goes_ask(grants(temp), q, log, ss);
}

/// The lock of a name is refused while somebody holds it, and granted otherwise.
pub proof fn lemma_acquiring(
    name: Seq<char>,
    temp: Seq<char>,
    log: Log,
    ss: spec_fn(int) -> Held,
)
    requires
        goes(grants(temp), acquiring(name), log, ss),
    ensures
        ({
            let (l, o) = drive(acquiring(name), log);
            let file = lock_file(temp, name);
            let held = after(log, ss);
            &&& extends(log, l)
            &&& o matches Some(r) ==> if held.contains(place(file)) {
                r == Err::<Seq<char>, Fault>(taken(name)) && after(l, ss) == held
            } else {
                r == Ok::<Seq<char>, Fault>(file) && after(l, ss) == held.insert(place(file))
            }
        }),
{
    broadcast use group_plan;

    reveal(acquiring);
    let g = grants(temp);
    let rest = |temp: Seq<char>|
        then(
            locking_step(
                Ask::CreateDirAll(locks_dir(temp)),
                "Failed to create lock parent directory: "@,
            ),
            |u: ()|
                then(
                    locking_step(
                        Ask::OpenLock(joined_path(locks_dir(temp), name + ".lock"@)),
                        "Failed to create lock file: "@,
                    ),
                    |u: ()|
                        then(
                            attempt(Ask::TryLock(joined_path(locks_dir(temp), name + ".lock"@))),
                            |e: Option<IoFault>|
                                match e {
                                    None => ok(joined_path(locks_dir(temp), name + ".lock"@)),
                                    Some(_) => fail(taken(name)),
                                },
                        ),
                ),
        );
    lemma_goes_then(g, fetch(Ask::TempRoot), rest, log, ss);
    lemma_goes_bind(
        g,
        ask(Ask::TempRoot),
        |a: Answer|
            match text_in(a) {
                Ok(t) => ok(t),
                Err(e) => fail(Fault::Io(e)),
            },
        log,
        ss,
    );
    lemma_goes_ask(g, Ask::TempRoot, log, ss);
    let (l1, o1) = drive(fetch(Ask::TempRoot), log);
    if o1 is Some {
        let file = lock_file(temp, name);
        let judge = |e: Option<IoFault>|
            match e {
                None => ok(joined_path(locks_dir(temp), name + ".lock"@)),
                Some(_) => fail(taken(name)),
            };
        let third = |u: ()| then(attempt(Ask::TryLock(file)), judge);
        let (q2, q3) = (Ask::CreateDirAll(locks_dir(temp)), Ask::OpenLock(file));
        let m2 = "Failed to create lock parent directory: "@;
        let m3 = "Failed to create lock file: "@;
        lemma_goes_then(g, locking_step(q2, m2), |u: ()| then(locking_step(q3, m3), third), l1, ss);
        lemma_locking_step(q2, m2, temp, l1, ss);
        let (l2, o2) = drive(locking_step(q2, m2), l1);
        if o2 is Some {
            lemma_goes_then(g, locking_step(q3, m3), third, l2, ss);
            lemma_locking_step(q3, m3, temp, l2, ss);
            let (l3, o3) = drive(locking_step(q3, m3), l2);
            if o3 is Some {
                let q4 = Ask::TryLock(file);
                lemma_goes_then(g, attempt(q4), judge, l3, ss);
                lemma_goes_bind(g, ask(q4), |a: Answer| ok(failure_in(a)), l3, ss);
                lemma_goes_ask(g, q4, l3, ss);
            }
        }
    }
}

/// Different names without separators have different lock files.
proof fn lemma_lock_files(temp: Seq<char>, name: Seq<char>, other: Seq<char>)
    requires
        name != other,
        !name.contains('/'),
        !other.contains('/'),
    ensures
        place(lock_file(temp, name)) != place(lock_file(temp, other)),
{
    reveal_strlit(".lock");
    reveal_strlit(".");
    let dir = locks_dir(temp);
    let (x, y) = (name + ".lock"@, other + ".lock"@);
    assert forall|i: int| 0 <= i < x.len() implies x[i] != '/' by {
        if i < name.len() {
            assert(name.contains(name[i]));
        }
    }
    assert forall|i: int| 0 <= i < y.len() implies y[i] != '/' by {
        if i < other.len() {
            assert(other.contains(other[i]));
        }
    }
    assert(x.len() >= 5 && y.len() >= 5);
    lemma_join_adds_component(dir, x);
    lemma_join_adds_component(dir, y);
    if x == y {
        assert(name.len() == other.len());
        assert(x.take(name.len() as int) =~= name);
        assert(y.take(name.len() as int) =~= other);
    }
    assert(place(dir).push(x).last() == x);
    assert(place(dir).push(y).last() == y);
}

/// A lock keeps others out, and only those with the same name. Once a run has the lock of a
/// name, the next one with that name is refused and is told why; a run with another name is not
/// concerned. Once the lock is given back, it is granted again.
///
/// The names must not hold a separator, with which two names can mean the same file.
pub proof fn lemma_lock_excludes(
    name: Seq<char>,
    other: Seq<char>,
    temp: Seq<char>,
    log: Log,
    ss: spec_fn(int) -> Held,
)
    requires
        name != other,
        !name.contains('/'),
        !other.contains('/'),
        !after(log, ss).contains(place(lock_file(temp, name))),
        !after(log, ss).contains(place(lock_file(temp, other))),
        ({
            let first = drive(acquiring(name), log).0;
            let second = drive(acquiring(name), first).0;
            let third = drive(acquiring(other), second).0;
            let free = drive(perform(Ask::Unlock(lock_file(temp, name))), third).0;
            &&& goes(grants(temp), acquiring(name), log, ss)
            &&& goes(grants(temp), acquiring(name), first, ss)
            &&& goes(grants(temp), acquiring(other), second, ss)
            &&& goes(grants(temp), perform(Ask::Unlock(lock_file(temp, name))), third, ss)
            &&& goes(grants(temp), acquiring(name), free, ss)
        }),
    ensures
        ({
            let file = lock_file(temp, name);
            let (first, o1) = drive(acquiring(name), log);
            let (second, o2) = drive(acquiring(name), first);
            let (third, o3) = drive(acquiring(other), second);
            let (free, o4) = drive(perform(Ask::Unlock(file)), third);
            let (last, o5) = drive(acquiring(name), free);
            o1 is Some && o2 is Some && o3 is Some && o4 is Some && o5 is Some ==> {
                &&& o1 == Some(Ok::<Seq<char>, Fault>(file))
                &&& o2 == Some(Err::<Seq<char>, Fault>(taken(name)))
                &&& o3 == Some(Ok::<Seq<char>, Fault>(lock_file(temp, other)))
                &&& o4 == Some(Ok::<(), Fault>(()))
                &&& o5 == Some(Ok::<Seq<char>, Fault>(file))
            }
        }),
{
    broadcast use group_plan;

    let g = grants(temp);
    let file = lock_file(temp, name);
    let (first, o1) = drive(acquiring(name), log);
    let (second, o2) = drive(acquiring(name), first);
    let (third, o3) = drive(acquiring(other), second);
    let q = Ask::Unlock(file);
    let (free, o4) = drive(perform(q), third);
    lemma_acquiring(name, temp, log, ss);
    lemma_acquiring(name, temp, first, ss);
    lemma_acquiring(other, temp, second, ss);
    lemma_acquiring(name, temp, free, ss);
    lemma_lock_files(temp, name, other);
    let k = |e: Option<IoFault>|
        match e {
            None => ok(()),
            Some(e) => fail(Fault::Io(e)),
        };
    lemma_goes_then(g, attempt(q), k, third, ss);
    lemma_goes_bind(g, ask(q), |a: Answer| ok(failure_in(a)), third, ss);
    lemma_goes_ask(g, q, third, ss);
}

}
