//! What the procedures do to the subvolumes on a disk.
//!
//! The disk is a model: at every place there is a subvolume with some content, something else,
//! or nothing. [`may`] says which answers a request can get and what the disk looks like
//! afterwards. Anything may fail at any time. A path always names the same place: links and
//! `..` are left out of account.

use crate::btrfs::{
    backup_place, checking_subvolume, create_call, creating_snapshot, creating_snapshot_rw,
    delete_call, deleting_subvolume, discarding, filesystem_call, installing, new_place, place_of,
    renaming, replacing_by_move, replacing_by_snapshot, setting_aside, show_call, snapshot_call,
    snapshot_rw_call,
};
use crate::command_runner::{commanding, complaining, ignoring, launching, querying, Area};
use crate::error::{Fault, IoFault};
use crate::holding::succeeded;
#[allow(unused_imports)]
use crate::journal::{
    ask, asking, attempt, bind, drive, fail, failure_in, flag_in, group_plan, ok, output_in,
    perform, present, run, say, then, Answer, Ask, Call, Log, Plan, Printed, Sent, Tone, Try,
};
use crate::path::{components_of, file_name_of, lemma_join_adds_component, lemma_parent_and_name};
use crate::trace::{extends, group_only, lemma_drive_extends, only};
use crate::ui::command_text;
use vstd::prelude::*;

verus! {

/// A place in the file system: the components of its path.
pub type Place = Seq<Seq<char>>;

/// The place that a path names.
pub open spec fn place(path: Seq<char>) -> Place {
    components_of(path)
}

/// What stands at a place.
pub enum Thing {
    /// A subvolume. Two subvolumes with the same number hold the same files; directories and
    /// subvolumes in them do not count.
    Subvolume(int),
    /// A file, or a directory that is no subvolume.
    Other,
}

/// What tells a subvolume from others with the same content.
pub struct Tag {
    /// The ID of the subvolume, which no other one has.
    pub id: int,
    /// Whether the subvolume is read-only.
    pub read_only: bool,
}

/// The disk: what stands at every place, if anything, and the tags of the subvolumes. Where no
/// subvolume stands, the tag means nothing.
pub struct Disk {
    pub at: spec_fn(Place) -> Option<Thing>,
    pub tag: spec_fn(Place) -> Tag,
}

impl Disk {
    /// What stands at the place that a path names.
    pub open spec fn on(self, path: Seq<char>) -> Option<Thing> {
        (self.at)(place(path))
    }

    /// A subvolume stands at the place that a path names.
    pub open spec fn has_subvolume(self, path: Seq<char>) -> bool {
        self.on(path) matches Some(Thing::Subvolume(_))
    }

    /// The tag of the subvolume at the place that a path names.
    pub open spec fn tag_on(self, path: Seq<char>) -> Tag {
        (self.tag)(place(path))
    }

    /// No subvolume has the ID.
    pub open spec fn is_free(self, id: int) -> bool {
        forall|p: Place|
            #![trigger (self.at)(p)]
            ((self.at)(p) matches Some(Thing::Subvolume(_))) ==> (self.tag)(p).id != id
    }
}

/// `p` is the place `q` or below it.
pub open spec fn within(p: Place, q: Place) -> bool {
    q.is_prefix_of(p)
}

/// The disks differ at most at or below `q`.
pub open spec fn same_beside(d: Disk, e: Disk, q: Place) -> bool {
    &&& forall|p: Place| !within(p, q) ==> #[trigger] (e.at)(p) == (d.at)(p)
    &&& forall|p: Place| !within(p, q) ==> #[trigger] (e.tag)(p) == (d.tag)(p)
}

/// The disks differ at most at or below one of the two places.
pub open spec fn same_beside_both(d: Disk, e: Disk, q: Place, r: Place) -> bool {
    &&& forall|p: Place| !within(p, q) && !within(p, r) ==> #[trigger] (e.at)(p) == (d.at)(p)
    &&& forall|p: Place| !within(p, q) && !within(p, r) ==> #[trigger] (e.tag)(p) == (d.tag)(p)
}

/// What stood at `from` has been moved to `to`. Nothing can be moved onto a subvolume.
pub open spec fn moved(d: Disk, from: Place, to: Place, e: Disk) -> bool {
    &&& (d.at)(from) is Some
    &&& !((d.at)(to) matches Some(Thing::Subvolume(_)))
    &&& (e.at)(to) == (d.at)(from)
    &&& (e.tag)(to) == (d.tag)(from)
    &&& from != to ==> (e.at)(from) is None
    &&& same_beside_both(d, e, from, to)
}

/// A snapshot of what stands at `from` has been made, as a new subvolume. Where something stood
/// at `to`, it lies inside.
pub open spec fn snapped(d: Disk, from: Place, to: Place, read_only: bool, e: Disk) -> bool {
    &&& (d.at)(from) matches Some(Thing::Subvolume(_))
    &&& (d.at)(to) is None ==> d.is_free((e.tag)(to).id) && (e.tag)(to).read_only == read_only
    &&& (d.at)(to) is Some ==> (e.tag)(to) == (d.tag)(to)
    &&& (e.at)(to) == (if (d.at)(to) is None {
        (d.at)(from)
    } else {
        (d.at)(to)
    })
    &&& same_beside(d, e, to)
}

/// The subvolume at `p` has been deleted.
pub open spec fn deleted(d: Disk, p: Place, e: Disk) -> bool {
    &&& (d.at)(p) matches Some(Thing::Subvolume(_))
    &&& (e.at)(p) is None
    &&& same_beside(d, e, p)
}

/// A new subvolume has been created at `p`.
pub open spec fn created(d: Disk, p: Place, e: Disk) -> bool {
    &&& (d.at)(p) is None
    &&& (e.at)(p) matches Some(Thing::Subvolume(_))
    &&& d.is_free((e.tag)(p).id)
    &&& !(e.tag)(p).read_only
    &&& same_beside(d, e, p)
}

/// A directory with its parents is there; what was there before still is.
pub open spec fn grown(d: Disk, p: Place, e: Disk) -> bool {
    &&& forall|x: Place|
        #![trigger (e.at)(x)]
        {
            &&& (d.at)(x) is Some ==> (e.at)(x) == (d.at)(x)
            &&& (d.at)(x) is None && !within(p, x) ==> (e.at)(x) is None
            &&& (d.at)(x) is None ==> !((e.at)(x) matches Some(Thing::Subvolume(_)))
        }
    &&& forall|x: Place| (d.at)(x) is Some ==> #[trigger] (e.tag)(x) == (d.tag)(x)
}

/// Something has been written or removed at or below `q`. The subvolumes around it may hold
/// other files than before; nothing else has changed.
pub open spec fn written(d: Disk, q: Place, e: Disk) -> bool {
    &&& forall|x: Place|
        #![trigger (e.at)(x)]
        !within(x, q) ==> match (d.at)(x) {
            Some(Thing::Subvolume(_)) if within(q, x) => (e.at)(x) matches Some(
                Thing::Subvolume(_),
            ),
            thing => (e.at)(x) == thing,
        }
    &&& forall|x: Place| !within(x, q) ==> #[trigger] (e.tag)(x) == (d.tag)(x)
}

/// Both ends of a transfer were successful.
pub open spec fn arrived(a: Answer) -> bool {
    a matches Answer::Sent(Sent::Ended { send, receive, .. }) && send.success && receive.success
}

/// A transfer has been tried. A subvolume is received under its own name, where nothing stands
/// yet; a transfer that failed may leave anything there.
pub open spec fn received(d: Disk, source: Seq<char>, dest: Seq<char>, a: Answer, e: Disk) -> bool {
    match file_name_of(source) {
        Some(base) => {
            let landing = place(dest).push(base);
            if (d.at)(landing) is Some {
                e == d && !arrived(a)
            } else {
                &&& same_beside(d, e, landing)
                &&& arrived(a) ==> {
                    &&& d.has_subvolume(source)
                    &&& (e.at)(landing) == d.on(source)
                    &&& d.is_free((e.tag)(landing).id)
                    &&& (e.tag)(landing).read_only
                }
            }
        },
        None => e == d && !arrived(a),
    }
}

/// The command only asks something.
pub open spec fn asks_only(c: Call) -> bool {
    ||| c.program == "findmnt"@
    ||| c.program == "findfs"@
    ||| c.program == "cryptsetup"@ && c.args.len() == 2 && (c.args[0] == "isLuks"@ || c.args[0]
        == "luksUUID"@)
    ||| exists|p: Seq<char>| c == #[trigger] filesystem_call(p)
}

/// Where the command mounts or unmounts something, if it does.
pub open spec fn mounts_at(c: Call) -> Option<Seq<char>> {
    if c.program == "mount"@ && c.args.len() == 2 {
        Some(c.args[1])
    } else if c.program == "umount"@ && c.args.len() == 1 {
        Some(c.args[0])
    } else {
        None
    }
}

/// Where the command installs a bootloader, if it does.
pub open spec fn boots_at(c: Call) -> Option<Seq<char>> {
    if c.program == "bootctl"@ && c.args.len() == 3 {
        Some(c.args[1])
    } else {
        None
    }
}

/// A command has been run. Of commands other than these nothing is said.
pub open spec fn executed(d: Disk, c: Call, a: Answer, e: Disk) -> bool {
    &&& asks_only(c) ==> e == d
    &&& mounts_at(c) matches Some(p) ==> same_beside(d, e, place(p))
    &&& boots_at(c) matches Some(p) ==> written(d, place(p), e)
    &&& forall|p: Seq<char>|
        c == #[trigger] show_call(p) ==> e == d && (a matches Answer::Ran(o) ==> o.success
            == d.has_subvolume(p))
    &&& forall|s: Seq<char>, t: Seq<char>|
        c == #[trigger] snapshot_call(s, t) ==> if succeeded(a) {
            snapped(d, place(s), place(t), true, e)
        } else {
            e == d
        }
    &&& forall|s: Seq<char>, t: Seq<char>|
        c == #[trigger] snapshot_rw_call(s, t) ==> if succeeded(a) {
            snapped(d, place(s), place(t), false, e)
        } else {
            e == d
        }
    &&& forall|p: Seq<char>|
        c == #[trigger] delete_call(p) ==> if succeeded(a) {
            deleted(d, place(p), e)
        } else {
            e == d
        }
    &&& forall|p: Seq<char>|
        c == #[trigger] create_call(p) ==> if succeeded(a) {
            created(d, place(p), e)
        } else {
            e == d
        }
}

/// The request `q`, made when the disk is `d`, may be answered with `a` and leave the disk `e`.
pub open spec fn may(d: Disk, q: Ask, a: Answer, e: Disk) -> bool {
    match q {
        Ask::Exists(p) => e == d && (a matches Answer::Flag(b) ==> b == (d.on(p) is Some)),
        Ask::Say { .. }
        | Ask::IsFile(_)
        | Ask::ModifiedAt(_)
        | Ask::ReadDir(_)
        | Ask::EnvVar(_)
        | Ask::TempRoot
        | Ask::TryLock(_)
        | Ask::Unlock(_)
        | Ask::StartClock
        | Ask::ReadClock => e == d,
        Ask::Rename { from, to } => if a is Done {
            moved(d, place(from), place(to), e)
        } else {
            e == d
        },
        Ask::CreateDirAll(p) => grown(d, place(p), e),
        Ask::MakeTempDir => match a {
            Answer::Text(p) => grown(d, place(p), e),
            _ => e == d,
        },
        Ask::Copy { to: p, .. }
        | Ask::WriteFile { path: p, .. }
        | Ask::RemoveFile(p)
        | Ask::RemoveDir(p)
        | Ask::RemoveTempDir(p)
        | Ask::OpenLock(p) => written(d, place(p), e),
        Ask::Transfer { source, dest, .. } => received(d, source, dest, a, e),
        Ask::Run(c) => executed(d, c, a, e),
    }
}

/// Any request may fail and leave the disk as it was.
pub proof fn lemma_anything_may_fail(d: Disk, q: Ask, e: IoFault)
    ensures
        may(d, q, Answer::Failed(e), d),
{
}

/// The disk goes through `ds` while the requests in the log are answered: the request with the
/// number `i` finds the disk `ds(i)` and leaves the disk `ds(i + 1)`.
pub open spec fn faithful(log: Log, ds: spec_fn(int) -> Disk) -> bool {
    forall|i: int|
        #![trigger log.asked[i]]
        0 <= i < log.asked.len() ==> may(ds(i), log.asked[i], log.answers[i], ds(i + 1))
}

/// The disk at the end of a log.
pub open spec fn now(log: Log, ds: spec_fn(int) -> Disk) -> Disk {
    ds(log.asked.len() as int)
}

/// A plan is followed faithfully: its log is.
pub open spec fn follows<T>(p: Plan<T>, log: Log, ds: spec_fn(int) -> Disk) -> bool {
    log.asked.len() <= log.answers.len() && faithful(drive(p, log).0, ds)
}

/// At every moment of the run, the disk satisfies `inv`.
pub open spec fn throughout<T>(
    p: Plan<T>,
    log: Log,
    ds: spec_fn(int) -> Disk,
    inv: spec_fn(Disk) -> bool,
) -> bool {
    forall|i: int|
        #![trigger ds(i)]
        log.asked.len() <= i <= drive(p, log).0.asked.len() ==> inv(ds(i))
}

/// The first part of a plan that is followed is followed.
pub(crate) proof fn lemma_follows_bind<T, U>(
    p: Plan<T>,
    f: spec_fn(T) -> Plan<U>,
    log: Log,
    ds: spec_fn(int) -> Disk,
)
    requires
        follows(bind(p, f), log, ds),
    ensures
        follows(p, log, ds),
        extends(log, drive(p, log).0),
        drive(p, log) matches (l, Some(t)) ==> follows(f(t), l, ds) && drive(bind(p, f), log)
            == drive(f(t), l) && extends(l, drive(f(t), l).0),
        drive(p, log) matches (l, None) ==> drive(bind(p, f), log) == (l, None::<U>),
{
    broadcast use group_plan;

    lemma_drive_extends(p, log);
    lemma_drive_extends(bind(p, f), log);
    let l = drive(p, log).0;
    let m = drive(bind(p, f), log).0;
    if let (_, Some(t)) = drive(p, log) {
        lemma_drive_extends(f(t), l);
        assert forall|i: int| 0 <= i < l.asked.len() implies may(
            ds(i),
            #[trigger] l.asked[i],
            l.answers[i],
            ds(i + 1),
        ) by {
            assert(l.asked[i] == m.asked[i]);
        }
    }
}

/// The first part of a plan that is followed is followed.
pub(crate) proof fn lemma_follows_then<T, U>(
    p: Try<T>,
    f: spec_fn(T) -> Try<U>,
    log: Log,
    ds: spec_fn(int) -> Disk,
)
    requires
        follows(then(p, f), log, ds),
    ensures
        follows(p, log, ds),
        extends(log, drive(p, log).0),
        drive(p, log) matches (l, Some(Ok(t))) ==> follows(f(t), l, ds) && drive(then(p, f), log)
            == drive(f(t), l) && extends(l, drive(f(t), l).0),
        drive(p, log) matches (l, Some(Err(e))) ==> drive(then(p, f), log) == (
            l,
            Some(Err::<U, Fault>(e)),
        ),
        drive(p, log) matches (l, None) ==> drive(then(p, f), log) == (
            l,
            None::<Result<U, Fault>>,
        ),
{
    broadcast use group_plan;

    lemma_follows_bind(
        p,
        |r: Result<T, Fault>|
            match r {
                Ok(t) => f(t),
                Err(e) => fail(e),
            },
        log,
        ds,
    );
}

/// One request on its own: the disk before and after it.
pub(crate) proof fn lemma_follows_ask(q: Ask, log: Log, ds: spec_fn(int) -> Disk)
    requires
        follows(ask(q), log, ds),
    ensures
        ({
            let (l, o) = drive(ask(q), log);
            &&& extends(log, l)
            &&& o matches Some(a) ==> l.asked.len() == log.asked.len() + 1 && may(
                now(log, ds),
                q,
                a,
                now(l, ds),
            )
            &&& o is None ==> l.asked == log.asked
        }),
{
    broadcast use group_plan;

    lemma_drive_extends(ask(q), log);
    let (l, o) = drive(ask(q), log);
    if log.asked.len() < log.answers.len() {
        assert(l.asked[log.asked.len() as int] == q);
    }
}

/// The request leaves every disk as it is.
pub open spec fn leaves_alone(q: Ask) -> bool {
    match q {
        Ask::Exists(_)
        | Ask::Say { .. }
        | Ask::IsFile(_)
        | Ask::ModifiedAt(_)
        | Ask::ReadDir(_)
        | Ask::EnvVar(_)
        | Ask::TempRoot
        | Ask::TryLock(_)
        | Ask::Unlock(_)
        | Ask::StartClock
        | Ask::ReadClock => true,
        Ask::Run(c) => asks_only(c) || exists|p: Seq<char>| c == #[trigger] show_call(p),
        _ => false,
    }
}

/// `leaves_alone` as a predicate on requests.
pub open spec fn looking() -> spec_fn(Ask) -> bool {
    |q: Ask| leaves_alone(q)
}

/// Looking changes nothing at any moment.
pub(crate) proof fn lemma_looking<T>(p: Plan<T>, log: Log, ds: spec_fn(int) -> Disk)
    requires
        only(p, looking()),
        follows(p, log, ds),
    ensures
        throughout(p, log, ds, |e: Disk| e == now(log, ds)),
        now(drive(p, log).0, ds) == now(log, ds),
        extends(log, drive(p, log).0),
    decreases p,
{
    reveal(drive);
    reveal(only);
    lemma_drive_extends(p, log);
    match p {
        Plan::Done(t) => {},
        Plan::Ask(q, k) => match asking(log, q) {
            (l, None) => {},
            (l, Some(a)) => {
                lemma_drive_extends(k(a), l);
                let m = drive(p, log).0;
                assert(looking()(q));
                assert(l.asked[log.asked.len() as int] == q);
                assert(m.asked[log.asked.len() as int] == q);
                assert(now(l, ds) == now(log, ds));
                lemma_looking(k(a), l, ds);
            },
        },
    }
}

pub(crate) broadcast proof fn lemma_looking_complaining<T>(area: Area, msg: Seq<char>, o: Printed)
    ensures
        #[trigger] only(complaining::<T>(area, msg, o), looking()),
{
    broadcast use group_only;

    reveal(complaining);
}

pub(crate) broadcast proof fn lemma_looking_checking(path: Seq<char>)
    ensures
        #[trigger] only(checking_subvolume(path), looking()),
{
    broadcast use group_only;

    reveal(checking_subvolume);
    reveal(querying);
}

/// Checking for a subvolume tells what stands there.
pub(crate) proof fn lemma_checking(path: Seq<char>, log: Log, ds: spec_fn(int) -> Disk)
    requires
        follows(checking_subvolume(path), log, ds),
    ensures
        ({
            let (l, o) = drive(checking_subvolume(path), log);
            &&& throughout(checking_subvolume(path), log, ds, |e: Disk| e == now(log, ds))
            &&& now(l, ds) == now(log, ds)
            &&& extends(log, l)
            &&& o matches Some(Ok(b)) ==> b == now(log, ds).has_subvolume(path)
        }),
{
    broadcast use {group_plan, group_only, lemma_looking_checking};

    lemma_looking(checking_subvolume(path), log, ds);
    reveal(checking_subvolume);
    reveal(querying);
    let c = show_call(path);
    let p1 = say(Tone::Detail, "$ "@ + command_text(c));
    let q = querying(c);
    lemma_follows_then(q, |o: Printed| ok(o.success), log, ds);
    lemma_follows_then(p1, |u: ()| run(c), log, ds);
    let (l1, o1) = drive(p1, log);
    lemma_looking(p1, log, ds);
    if o1 is Some {
        lemma_follows_bind(
            ask(Ask::Run(c)),
            |a: Answer|
                match output_in(a) {
                    Ok(o) => ok(o),
                    Err(e) => fail(Fault::Io(e)),
                },
            l1,
            ds,
        );
        lemma_follows_ask(Ask::Run(c), l1, ds);
    }
}

/// Asking whether something exists tells what stands there.
pub(crate) proof fn lemma_present(path: Seq<char>, log: Log, ds: spec_fn(int) -> Disk)
    requires
        follows(present(path), log, ds),
    ensures
        ({
            let (l, o) = drive(present(path), log);
            &&& throughout(present(path), log, ds, |e: Disk| e == now(log, ds))
            &&& now(l, ds) == now(log, ds)
            &&& extends(log, l)
            &&& o matches Some(r) ==> r is Ok
            &&& o == Some(Ok::<bool, Fault>(true)) ==> now(log, ds).on(path) is Some
        }),
{
    broadcast use {group_plan, group_only};

    lemma_looking(present(path), log, ds);
    lemma_follows_bind(
        ask(Ask::Exists(path)),
        |a: Answer| ok(flag_in(a)),
        log,
        ds,
    );
    lemma_follows_ask(Ask::Exists(path), log, ds);
}

/// A command that leaves the disk as it was where it fails.
pub open spec fn all_or_nothing(c: Call) -> bool {
    forall|d: Disk, a: Answer, e: Disk|
        !succeeded(a) && #[trigger] executed(d, c, a, e) ==> e == d
}

/// The command may have been successful on the disk `d` and left the disk `e`.
pub open spec fn worked(d: Disk, c: Call, e: Disk) -> bool {
    exists|a: Answer| succeeded(a) && #[trigger] executed(d, c, a, e)
}

/// A command that has to succeed: the disk is as it was, or as the command leaves it where it
/// works.
pub(crate) proof fn lemma_commanding(
    area: Area,
    c: Call,
    msg: Seq<char>,
    log: Log,
    ds: spec_fn(int) -> Disk,
)
    requires
        follows(commanding(area, c, msg), log, ds),
        all_or_nothing(c),
    ensures
        ({
            let (l, o) = drive(commanding(area, c, msg), log);
            let d = now(log, ds);
            &&& throughout(
                commanding(area, c, msg),
                log,
                ds,
                |e: Disk| e == d || worked(d, c, e),
            )
            &&& extends(log, l)
            &&& o matches Some(Ok(_)) ==> worked(d, c, now(l, ds))
            &&& o matches Some(Err(_)) ==> now(l, ds) == d
        }),
{
    broadcast use {group_plan, group_only, lemma_looking_complaining};

    reveal(commanding);
    reveal(launching);
    reveal(complaining);
    let d = now(log, ds);
    let p1 = say(Tone::CmdStart, command_text(c));
    let k = |o: Printed|
        if o.success {
            ok(())
        } else {
            complaining::<()>(area, msg, o)
        };
    lemma_follows_then(launching(c), k, log, ds);
    lemma_follows_then(p1, |u: ()| run(c), log, ds);
    let (l1, o1) = drive(p1, log);
    lemma_looking(p1, log, ds);
    let whole = drive(commanding(area, c, msg), log).0;
    if o1 is Some {
        lemma_follows_bind(
            ask(Ask::Run(c)),
            |a: Answer|
                match output_in(a) {
                    Ok(o) => ok(o),
                    Err(e) => fail(Fault::Io(e)),
                },
            l1,
            ds,
        );
        let (l2, o2) = drive(ask(Ask::Run(c)), l1);
        lemma_follows_ask(Ask::Run(c), l1, ds);
        if let Some(a) = o2 {
            assert(executed(d, c, a, now(l2, ds)));
            if let Answer::Ran(o) = a {
                if !o.success {
                    lemma_looking(complaining::<()>(area, msg, o), l2, ds);
                }
            }
            assert(succeeded(a) ==> worked(d, c, now(l2, ds)));
            assert(!succeeded(a) ==> now(l2, ds) == d);
            assert forall|i: int|
                #![trigger ds(i)]
                log.asked.len() <= i <= whole.asked.len() implies ds(i) == d || worked(
                d,
                c,
                ds(i),
            ) by {
                if i > l1.asked.len() {
                    assert(l2.asked.len() <= i);
                    if succeeded(a) {
                        assert(whole == l2);
                    }
                }
            }
        }
    }
}

/// Moving something, with the disk at every moment as it was or with the thing moved.
pub(crate) proof fn lemma_perform_rename(
    from: Seq<char>,
    to: Seq<char>,
    log: Log,
    ds: spec_fn(int) -> Disk,
)
    requires
        follows(perform(Ask::Rename { from, to }), log, ds),
    ensures
        ({
            let q = Ask::Rename { from, to };
            let (l, o) = drive(perform(q), log);
            let d = now(log, ds);
            &&& extends(log, l)
            &&& throughout(
                perform(q),
                log,
                ds,
                |e: Disk| e == d || moved(d, place(from), place(to), e),
            )
            &&& o matches Some(Ok(_)) ==> moved(d, place(from), place(to), now(l, ds))
            &&& o matches Some(Err(_)) ==> now(l, ds) == d
        }),
{
    broadcast use group_plan;

    let q = Ask::Rename { from, to };
    let k = |e: Option<IoFault>|
        match e {
            None => ok(()),
            Some(e) => fail(Fault::Io(e)),
        };
    lemma_follows_then(attempt(q), k, log, ds);
    lemma_follows_bind(ask(q), |a: Answer| ok(failure_in(a)), log, ds);
    lemma_follows_ask(q, log, ds);
    lemma_drive_extends(perform(q), log);
}

/// Deleting a subvolume.
pub(crate) proof fn lemma_deleting(path: Seq<char>, log: Log, ds: spec_fn(int) -> Disk)
    requires
        follows(deleting_subvolume(path), log, ds),
    ensures
        ({
            let (l, o) = drive(deleting_subvolume(path), log);
            let d = now(log, ds);
            &&& extends(log, l)
            &&& throughout(
                deleting_subvolume(path),
                log,
                ds,
                |e: Disk| e == d || deleted(d, place(path), e),
            )
            &&& o matches Some(Ok(_)) ==> deleted(d, place(path), now(l, ds))
            &&& o matches Some(Err(_)) ==> now(l, ds) == d
        }),
{
    reveal(deleting_subvolume);
    assert(all_or_nothing(delete_call(path)));
    lemma_commanding(
        Area::Btrfs,
        delete_call(path),
        "Failed to delete subvolume "@ + path + ": "@,
        log,
        ds,
    );
}

/// Making a read-write snapshot.
pub(crate) proof fn lemma_snapping_rw(
    source: Seq<char>,
    dest: Seq<char>,
    log: Log,
    ds: spec_fn(int) -> Disk,
)
    requires
        follows(creating_snapshot_rw(source, dest), log, ds),
    ensures
        ({
            let (l, o) = drive(creating_snapshot_rw(source, dest), log);
            let d = now(log, ds);
            &&& extends(log, l)
            &&& throughout(
                creating_snapshot_rw(source, dest),
                log,
                ds,
                |e: Disk| e == d || snapped(d, place(source), place(dest), false, e),
            )
            &&& o matches Some(Ok(_)) ==> snapped(
                d,
                place(source),
                place(dest),
                false,
                now(l, ds),
            )
            &&& o matches Some(Err(_)) ==> now(l, ds) == d
        }),
{
    reveal(creating_snapshot_rw);
    assert(all_or_nothing(snapshot_rw_call(source, dest)));
    lemma_commanding(
        Area::Btrfs,
        snapshot_rw_call(source, dest),
        "Failed to create read-write snapshot from "@ + source + " to "@ + dest + ": "@,
        log,
        ds,
    );
}

/// Making a read-only snapshot.
pub(crate) proof fn lemma_snapping(
    source: Seq<char>,
    dest: Seq<char>,
    log: Log,
    ds: spec_fn(int) -> Disk,
)
    requires
        follows(creating_snapshot(source, dest), log, ds),
    ensures
        ({
            let (l, o) = drive(creating_snapshot(source, dest), log);
            let d = now(log, ds);
            &&& extends(log, l)
            &&& throughout(
                creating_snapshot(source, dest),
                log,
                ds,
                |e: Disk| e == d || snapped(d, place(source), place(dest), true, e),
            )
            &&& o matches Some(Ok(_)) ==> snapped(
                d,
                place(source),
                place(dest),
                true,
                now(l, ds),
            )
            &&& o matches Some(Err(_)) ==> now(l, ds) == d
        }),
{
    reveal(creating_snapshot);
    assert(all_or_nothing(snapshot_call(source, dest)));
    lemma_commanding(
        Area::Btrfs,
        snapshot_call(source, dest),
        "Failed to create snapshot from "@ + source + " to "@ + dest + ": "@,
        log,
        ds,
    );
}

/// Neither place is the other, or below it.
pub open spec fn apart(p: Place, q: Place) -> bool {
    !within(p, q) && !within(q, p)
}

/// What a move from `from` to `to` that may fail or be undone leaves: the thing stands where it
/// stood, or at its new place. Nothing is moved onto a subvolume.
pub open spec fn hopped(d: Disk, from: Place, to: Place, e: Disk) -> bool {
    &&& same_beside_both(d, e, from, to)
    &&& {
        ||| (e.at)(from) == (d.at)(from) && ((e.at)(to) == (d.at)(to) || ((e.at)(to) is None && !((
        d.at)(to) matches Some(Thing::Subvolume(_)))))
        ||| (d.at)(from) is Some && !((d.at)(to) matches Some(Thing::Subvolume(_))) && (e.at)(
            from,
        ) is None && (e.at)(to) == (d.at)(from)
    }
}

/// Moving a subvolume.
pub(crate) proof fn lemma_renaming(a: Seq<char>, b: Seq<char>, log: Log, ds: spec_fn(int) -> Disk)
    requires
        follows(renaming(a, b), log, ds),
        apart(place(a), place(b)),
    ensures
        ({
            let (l, o) = drive(renaming(a, b), log);
            let d = now(log, ds);
            &&& extends(log, l)
            &&& throughout(
                renaming(a, b),
                log,
                ds,
                |e: Disk| hopped(d, place(a), place(b), e),
            )
            &&& o matches Some(_) ==> hopped(d, place(a), place(b), now(l, ds))
            &&& o matches Some(Ok(_)) ==> moved(d, place(a), place(b), now(l, ds))
                && d.has_subvolume(a)
        }),
{
    broadcast use group_plan;

    reveal(renaming);
    let d = now(log, ds);
    let whole = drive(renaming(a, b), log).0;
    let q = Ask::Rename { from: a, to: b };
    let back = Ask::Rename { from: b, to: a };
    let undo = then(
        ignoring(perform(back)),
        |u: ()| fail::<()>(Fault::Btrfs("Renamed path is not a valid subvolume: "@ + b)),
    );
    let judge = |found: bool|
        if found {
            ok(())
        } else {
            undo
        };
    lemma_follows_then(
        perform(q),
        |u: ()| then(checking_subvolume(b), judge),
        log,
        ds,
    );
    lemma_perform_rename(a, b, log, ds);
    let (l1, o1) = drive(perform(q), log);
    if o1 matches Some(Ok(_)) {
        lemma_follows_then(checking_subvolume(b), judge, l1, ds);
        lemma_checking(b, l1, ds);
        let (l2, o2) = drive(checking_subvolume(b), l1);
        if o2 == Some(Ok::<bool, Fault>(false)) {
            lemma_follows_then(
                ignoring(perform(back)),
                |u: ()| fail::<()>(Fault::Btrfs("Renamed path is not a valid subvolume: "@ + b)),
                l2,
                ds,
            );
            lemma_follows_bind(
                perform(back),
                |r: Result<(), Fault>| ok(()),
                l2,
                ds,
            );
            lemma_perform_rename(b, a, l2, ds);
            let (l3, o3) = drive(perform(back), l2);
            assert forall|i: int|
                #![trigger ds(i)]
                l2.asked.len() <= i <= l3.asked.len() implies hopped(
                d,
                place(a),
                place(b),
                ds(i),
            ) by {
                let e = ds(i);
                let m = now(l2, ds);
                assert(e == m || moved(m, place(b), place(a), e));
            }
            assert forall|i: int|
                #![trigger ds(i)]
                log.asked.len() <= i <= whole.asked.len() implies hopped(
                d,
                place(a),
                place(b),
                ds(i),
            ) by {
                if i <= l1.asked.len() {
                } else if i <= l2.asked.len() {
                } else {
                    assert(i <= l3.asked.len());
                }
            }
        }
    }
}

/// A suffix under which a subvolume can be kept beside the others.
pub open spec fn is_suffix(suffix: Seq<char>) -> bool {
    !suffix.contains('/') && suffix != "new"@
}

/// The three places at which a subvolume is replaced lie in one directory, apart from each
/// other.
pub(crate) proof fn lemma_siblings(target: Seq<char>, suffix: Seq<char>)
    requires
        place_of(target) is Ok,
        is_suffix(suffix),
    ensures
        ({
            let (dir, name) = place_of(target)->Ok_0;
            let t = place(target);
            let n = place(new_place(dir, name));
            let b = place(backup_place(dir, name, suffix));
            apart(t, n) && apart(t, b) && apart(n, b)
        }),
{
    let (dir, name) = place_of(target)->Ok_0;
    lemma_parent_and_name(target);
    let new_name = name + ".new"@;
    let old_name = name + "."@ + suffix;
    reveal_strlit(".new");
    reveal_strlit(".");
    reveal_strlit("new");
    assert(!new_name.contains('/')) by {
        assert forall|i: int| 0 <= i < new_name.len() implies new_name[i] != '/' by {
            if i < name.len() {
                assert(name.contains(name[i]));
            }
        }
    }
    assert(!old_name.contains('/')) by {
        assert forall|i: int| 0 <= i < old_name.len() implies old_name[i] != '/' by {
            if i < name.len() {
                assert(name.contains(name[i]));
            } else if i > name.len() {
                assert(suffix.contains(suffix[i - name.len() - 1]));
            }
        }
    }
    assert(new_name.len() > 1 && old_name.len() > 1 || old_name.len() == name.len() + 1);
    assert(new_name != "."@);
    assert(old_name != "."@) by {
        assert(old_name.len() >= name.len() + 1);
    }
    lemma_join_adds_component(dir, new_name);
    lemma_join_adds_component(dir, old_name);
    let d = place(dir);
    assert(new_name != old_name) by {
        if new_name == old_name {
            assert(new_name.len() == old_name.len());
            assert(suffix =~= "new"@) by {
                assert forall|i: int| 0 <= i < suffix.len() implies suffix[i] == "new"@[i] by {
                    assert(old_name[name.len() + 1 + i] == suffix[i]);
                    assert(new_name[name.len() + 1 + i] == ".new"@[1 + i]);
                }
            }
        }
    }
    assert(new_name.len() != name.len() && old_name.len() != name.len());
    lemma_apart_siblings(d, name, new_name);
    lemma_apart_siblings(d, name, old_name);
    lemma_apart_siblings(d, new_name, old_name);
}

/// Different names in one directory are apart.
pub(crate) proof fn lemma_apart_siblings(dir: Place, a: Seq<char>, b: Seq<char>)
    requires
        a != b,
    ensures
        apart(dir.push(a), dir.push(b)),
{
    let p = dir.push(a);
    let q = dir.push(b);
    assert(p.last() == a && q.last() == b);
    if within(p, q) || within(q, p) {
        assert(p =~= q);
    }
}

/// Setting a subvolume aside.
pub(crate) proof fn lemma_setting_aside(
    target: Seq<char>,
    backup: Seq<char>,
    log: Log,
    ds: spec_fn(int) -> Disk,
)
    requires
        follows(setting_aside(target, backup), log, ds),
        apart(place(target), place(backup)),
    ensures
        ({
            let (l, o) = drive(setting_aside(target, backup), log);
            let d = now(log, ds);
            &&& extends(log, l)
            &&& throughout(
                setting_aside(target, backup),
                log,
                ds,
                |e: Disk| hopped(d, place(target), place(backup), e),
            )
            &&& o == Some(Ok::<bool, Fault>(true)) ==> moved(
                d,
                place(target),
                place(backup),
                now(l, ds),
            ) && d.has_subvolume(target)
            &&& o == Some(Ok::<bool, Fault>(false)) ==> now(l, ds) == d
        }),
{
    broadcast use group_plan;

    reveal(setting_aside);
    let k = |there: bool|
        if there {
            then(renaming(target, backup), |u: ()| ok(true))
        } else {
            ok(false)
        };
    lemma_follows_then(present(target), k, log, ds);
    lemma_present(target, log, ds);
    let (l1, o1) = drive(present(target), log);
    if o1 == Some(Ok::<bool, Fault>(true)) {
        lemma_follows_then(renaming(target, backup), |u: ()| ok(true), l1, ds);
        lemma_renaming(target, backup, l1, ds);
    }
}

/// The old content `old` of a place is not lost: it stands where it stood or in the backup
/// place, or the new content `fresh` has taken its place.
pub open spec fn kept(
    target: Place,
    backup: Place,
    old: Option<Thing>,
    fresh: Option<Thing>,
    e: Disk,
) -> bool {
    ||| (e.at)(target) == old
    ||| (e.at)(backup) == old
    ||| (e.at)(target) == fresh
}

/// Putting the new subvolume in its place, or the old one back.
pub(crate) proof fn lemma_installing(
    new: Seq<char>,
    target: Seq<char>,
    aside: bool,
    backup: Seq<char>,
    old: Option<Thing>,
    log: Log,
    ds: spec_fn(int) -> Disk,
)
    requires
        follows(installing(new, target, aside, backup), log, ds),
        apart(place(target), place(new)),
        apart(place(target), place(backup)),
        apart(place(new), place(backup)),
        aside ==> now(log, ds).on(backup) == old && now(log, ds).on(target) is None,
        !aside ==> now(log, ds).on(target) == old,
        old != Some(Thing::Other),
    ensures
        ({
            let (l, o) = drive(installing(new, target, aside, backup), log);
            let d = now(log, ds);
            &&& extends(log, l)
            &&& throughout(
                installing(new, target, aside, backup),
                log,
                ds,
                |e: Disk| kept(place(target), place(backup), old, d.on(new), e),
            )
            &&& o matches Some(Ok(_)) ==> moved(d, place(new), place(target), now(l, ds))
                && d.has_subvolume(new)
        }),
{
    broadcast use group_plan;

    reveal(installing);
    let d = now(log, ds);
    let (t, n, b) = (place(target), place(new), place(backup));
    let whole = drive(installing(new, target, aside, backup), log).0;
    let first = if aside {
        ignoring(renaming(backup, target))
    } else {
        ok(())
    };
    let k = |r: Result<(), Fault>|
        match r {
            Ok(_) => ok(()),
            Err(e) => then(
                if aside {
                    ignoring(renaming(backup, target))
                } else {
                    ok(())
                },
                |u: ()| then(ignoring(deleting_subvolume(new)), |u: ()| fail(e)),
            ),
        };
    lemma_follows_bind(renaming(new, target), k, log, ds);
    lemma_renaming(new, target, log, ds);
    let (l1, o1) = drive(renaming(new, target), log);
    if let Some(Err(e)) = o1 {
        let rest = |u: ()| then(ignoring(deleting_subvolume(new)), |u: ()| fail::<()>(e));
        lemma_follows_then(first, rest, l1, ds);
        let m1 = now(l1, ds);
        let (l2, o2) = drive(first, l1);
        if aside {
            lemma_follows_bind(renaming(backup, target), |r: Result<(), Fault>| ok(()), l1, ds);
            lemma_renaming(backup, target, l1, ds);
            assert forall|i: int| #![trigger ds(i)] l1.asked.len() <= i <= l2.asked.len() implies (
            ds(i).at)(b) == old || (ds(i).at)(t) == old by {
                assert(hopped(m1, b, t, ds(i)));
            }
        }
        if o2 is Some {
            lemma_follows_then(
                ignoring(deleting_subvolume(new)),
                |u: ()| fail::<()>(e),
                l2,
                ds,
            );
            lemma_follows_bind(
                deleting_subvolume(new),
                |r: Result<(), Fault>| ok(()),
                l2,
                ds,
            );
            lemma_deleting(new, l2, ds);
            let (l3, o3) = drive(deleting_subvolume(new), l2);
            let m2 = now(l2, ds);
            assert forall|i: int| #![trigger ds(i)] l2.asked.len() <= i <= l3.asked.len() implies (
            ds(i).at)(t) == (m2.at)(t) && (ds(i).at)(b) == (m2.at)(b) by {
                assert(ds(i) == m2 || deleted(m2, n, ds(i)));
            }
            assert forall|i: int|
                #![trigger ds(i)]
                log.asked.len() <= i <= whole.asked.len() implies kept(
                t,
                b,
                old,
                d.on(new),
                ds(i),
            ) by {
                if i <= l1.asked.len() {
                    assert(hopped(d, n, t, ds(i)));
                } else if i <= l2.asked.len() {
                } else {
                    assert(i <= l3.asked.len());
                }
            }
        } else {
            assert forall|i: int|
                #![trigger ds(i)]
                log.asked.len() <= i <= whole.asked.len() implies kept(
                t,
                b,
                old,
                d.on(new),
                ds(i),
            ) by {
                if i <= l1.asked.len() {
                    assert(hopped(d, n, t, ds(i)));
                }
            }
        }
    } else {
        assert forall|i: int|
            #![trigger ds(i)]
            log.asked.len() <= i <= whole.asked.len() implies kept(
            t,
            b,
            old,
            d.on(new),
            ds(i),
        ) by {
            assert(hopped(d, n, t, ds(i)));
        }
    }
}

/// The disks differ at most at or below one of the three places.
pub open spec fn same_beside_all(d: Disk, e: Disk, q: Place, r: Place, s: Place) -> bool {
    forall|p: Place|
        !within(p, q) && !within(p, r) && !within(p, s) ==> #[trigger] (e.at)(p) == (d.at)(p)
}

/// A subvolume has been replaced: the new content stands in its place, nothing is left of the
/// replacement at the two other places, and all else is as it was.
pub open spec fn replaced(
    d: Disk,
    target: Seq<char>,
    new: Seq<char>,
    backup: Seq<char>,
    fresh: Option<Thing>,
    e: Disk,
) -> bool {
    &&& fresh matches Some(Thing::Subvolume(_))
    &&& e.on(target) == fresh
    &&& e.on(new) is None
    &&& e.on(backup) == (if d.on(target) is Some {
        None
    } else {
        d.on(backup)
    })
    &&& same_beside_all(d, e, place(target), place(new), place(backup))
}

/// Replacing a subvolume by a snapshot is safe: at every moment, also where the run is cut
/// short or anything fails, the old content stands in its place or in the backup place, or the
/// new content has taken its place. Where the procedure succeeds, the subvolume has been
/// replaced and nothing else has changed.
///
/// Nothing must stand at the place where the snapshot is prepared, as after a run that was cut
/// short: the snapshot would be made inside it.
pub proof fn lemma_replacing_by_snapshot(
    target: Seq<char>,
    source: Seq<char>,
    suffix: Seq<char>,
    dir: Seq<char>,
    name: Seq<char>,
    log: Log,
    ds: spec_fn(int) -> Disk,
)
    requires
        follows(replacing_by_snapshot(target, source, suffix), log, ds),
        place_of(target) == Ok::<(Seq<char>, Seq<char>), Fault>((dir, name)),
        is_suffix(suffix),
        now(log, ds).on(target) != Some(Thing::Other),
        now(log, ds).on(new_place(dir, name)) is None,
    ensures
        ({
            let (l, o) = drive(replacing_by_snapshot(target, source, suffix), log);
            let d = now(log, ds);
            let new = new_place(dir, name);
            let backup = backup_place(dir, name, suffix);
            &&& throughout(
                replacing_by_snapshot(target, source, suffix),
                log,
                ds,
                |e: Disk|
                    kept(place(target), place(backup), d.on(target), d.on(source), e),
            )
            &&& o matches Some(Ok(_)) ==> replaced(
                d,
                target,
                new,
                backup,
                d.on(source),
                now(l, ds),
            )
        }),
{
    broadcast use group_plan;

    reveal(replacing_by_snapshot);
    lemma_siblings(target, suffix);
    let d = now(log, ds);
    let new = new_place(dir, name);
    let backup = backup_place(dir, name, suffix);
    let (t, n, b) = (place(target), place(new), place(backup));
    let whole = drive(replacing_by_snapshot(target, source, suffix), log).0;
    let second = |aside: bool|
        then(installing(new, target, aside, backup), |u: ()| discarding(aside, backup));
    let inv = |e: Disk| kept(t, b, d.on(target), d.on(source), e);
    lemma_follows_then(
        creating_snapshot_rw(source, new),
        |u: ()| then(setting_aside(target, backup), second),
        log,
        ds,
    );
    lemma_snapping_rw(source, new, log, ds);
    let (l1, o1) = drive(creating_snapshot_rw(source, new), log);
    assert forall|i: int| #![trigger ds(i)] log.asked.len() <= i <= l1.asked.len() implies inv(
        ds(i),
    ) by {
        assert(ds(i) == d || snapped(d, place(source), n, false, ds(i)));
    }
    if o1 matches Some(Ok(_)) {
        let d1 = now(l1, ds);
        assert((d1.at)(n) == d.on(source));
        assert((d1.at)(t) == (d.at)(t) && (d1.at)(b) == (d.at)(b));
        lemma_follows_then(setting_aside(target, backup), second, l1, ds);
        lemma_setting_aside(target, backup, l1, ds);
        let (l2, o2) = drive(setting_aside(target, backup), l1);
        assert forall|i: int| #![trigger ds(i)] l1.asked.len() <= i <= l2.asked.len() implies inv(
            ds(i),
        ) by {
            assert(hopped(d1, t, b, ds(i)));
        }
        if let Some(Ok(aside)) = o2 {
            let d2 = now(l2, ds);
            assert((d2.at)(n) == d.on(source));
            lemma_follows_then(
                installing(new, target, aside, backup),
                |u: ()| discarding(aside, backup),
                l2,
                ds,
            );
            lemma_installing(new, target, aside, backup, d.on(target), l2, ds);
            let (l3, o3) = drive(installing(new, target, aside, backup), l2);
            assert forall|i: int|
                #![trigger ds(i)]
                l2.asked.len() <= i <= l3.asked.len() implies inv(ds(i)) by {
                assert(kept(t, b, d.on(target), d2.on(new), ds(i)));
            }
            if o3 matches Some(Ok(_)) {
                let d3 = now(l3, ds);
                assert((d3.at)(t) == d.on(source));
                lemma_discarding(aside, backup, l3, ds);
                let (l4, o4) = drive(discarding(aside, backup), l3);
                assert(whole == l4);
                assert forall|i: int|
                    #![trigger ds(i)]
                    l3.asked.len() <= i <= l4.asked.len() implies inv(ds(i)) by {
                    assert(ds(i) == d3 || deleted(d3, b, ds(i)));
                }
                assert(throughout(replacing_by_snapshot(target, source, suffix), log, ds, inv));
                if o4 matches Some(Ok(_)) {
                    let e = now(l4, ds);
                    assert((e.at)(t) == d.on(source));
                    assert((e.at)(n) is None);
                    assert(same_beside_all(d, e, t, n, b));
                    assert(aside == (d.on(target) is Some));
                }
            }
        }
    }
    assert(throughout(replacing_by_snapshot(target, source, suffix), log, ds, inv));
}

/// Deleting what was set aside.
pub(crate) proof fn lemma_discarding(
    aside: bool,
    backup: Seq<char>,
    log: Log,
    ds: spec_fn(int) -> Disk,
)
    requires
        follows(discarding(aside, backup), log, ds),
    ensures
        ({
            let (l, o) = drive(discarding(aside, backup), log);
            let d = now(log, ds);
            &&& extends(log, l)
            &&& throughout(
                discarding(aside, backup),
                log,
                ds,
                |e: Disk| e == d || (aside && deleted(d, place(backup), e)),
            )
            &&& o matches Some(Ok(_)) ==> if aside {
                deleted(d, place(backup), now(l, ds))
            } else {
                now(l, ds) == d
            }
            &&& o matches Some(Err(_)) ==> now(l, ds) == d
        }),
{
    broadcast use group_plan;

    reveal(discarding);
    lemma_drive_extends(discarding(aside, backup), log);
    if aside {
        lemma_deleting(backup, log, ds);
    }
}

/// Replacing a subvolume by another that is moved is safe: at every moment the old content
/// stands in its place or in the backup place, or the new content has taken its place, and the
/// new content stands at one of the places on its way. Where the procedure succeeds, the
/// subvolume has been replaced, nothing is left where the other one was, and nothing else has
/// changed.
pub proof fn lemma_replacing_by_move(
    target: Seq<char>,
    source: Seq<char>,
    suffix: Seq<char>,
    dir: Seq<char>,
    name: Seq<char>,
    log: Log,
    ds: spec_fn(int) -> Disk,
)
    requires
        follows(replacing_by_move(target, source, suffix), log, ds),
        place_of(target) == Ok::<(Seq<char>, Seq<char>), Fault>((dir, name)),
        is_suffix(suffix),
        now(log, ds).on(target) != Some(Thing::Other),
        apart(place(source), place(target)),
        apart(place(source), place(new_place(dir, name))),
        apart(place(source), place(backup_place(dir, name, suffix))),
    ensures
        ({
            let (l, o) = drive(replacing_by_move(target, source, suffix), log);
            let d = now(log, ds);
            let new = new_place(dir, name);
            let backup = backup_place(dir, name, suffix);
            let fresh = d.on(source);
            &&& throughout(
                replacing_by_move(target, source, suffix),
                log,
                ds,
                |e: Disk|
                    {
                        &&& kept(place(target), place(backup), d.on(target), fresh, e)
                        &&& e.on(source) == fresh || e.on(new) == fresh || e.on(target) == fresh
                    },
            )
            &&& o matches Some(Ok(_)) ==> {
                &&& fresh matches Some(Thing::Subvolume(_))
                &&& now(l, ds).on(target) == fresh
                &&& now(l, ds).on(source) is None
                &&& now(l, ds).on(new) is None
                &&& d.on(target) is Some ==> now(l, ds).on(backup) is None
            }
        }),
{
    broadcast use group_plan;

    reveal(replacing_by_move);
    lemma_siblings(target, suffix);
    let d = now(log, ds);
    let new = new_place(dir, name);
    let backup = backup_place(dir, name, suffix);
    let (t, n, b, f) = (place(target), place(new), place(backup), place(source));
    let fresh = d.on(source);
    let inv = |e: Disk|
        {
            &&& kept(t, b, d.on(target), fresh, e)
            &&& e.on(source) == fresh || e.on(new) == fresh || e.on(target) == fresh
        };
    let second = |aside: bool|
        then(renaming(new, target), |u: ()| discarding(aside, backup));
    lemma_follows_then(
        renaming(source, new),
        |u: ()| then(setting_aside(target, backup), second),
        log,
        ds,
    );
    lemma_renaming(source, new, log, ds);
    let (l1, o1) = drive(renaming(source, new), log);
    assert forall|i: int| #![trigger ds(i)] log.asked.len() <= i <= l1.asked.len() implies inv(
        ds(i),
    ) by {
        assert(hopped(d, f, n, ds(i)));
    }
    if o1 matches Some(Ok(_)) {
        let d1 = now(l1, ds);
        assert((d1.at)(n) == fresh);
        assert((d1.at)(t) == (d.at)(t) && (d1.at)(b) == (d.at)(b));
        lemma_follows_then(setting_aside(target, backup), second, l1, ds);
        lemma_setting_aside(target, backup, l1, ds);
        let (l2, o2) = drive(setting_aside(target, backup), l1);
        assert forall|i: int| #![trigger ds(i)] l1.asked.len() <= i <= l2.asked.len() implies inv(
            ds(i),
        ) by {
            assert(hopped(d1, t, b, ds(i)));
        }
        if let Some(Ok(aside)) = o2 {
            let d2 = now(l2, ds);
            assert((d2.at)(n) == fresh);
            lemma_follows_then(
                renaming(new, target),
                |u: ()| discarding(aside, backup),
                l2,
                ds,
            );
            lemma_renaming(new, target, l2, ds);
            let (l3, o3) = drive(renaming(new, target), l2);
            assert forall|i: int|
                #![trigger ds(i)]
                l2.asked.len() <= i <= l3.asked.len() implies inv(ds(i)) by {
                assert(hopped(d2, n, t, ds(i)));
            }
            if o3 matches Some(Ok(_)) {
                let d3 = now(l3, ds);
                assert((d3.at)(t) == fresh);
                lemma_discarding(aside, backup, l3, ds);
                let (l4, o4) = drive(discarding(aside, backup), l3);
                assert forall|i: int|
                    #![trigger ds(i)]
                    l3.asked.len() <= i <= l4.asked.len() implies inv(ds(i)) by {
                    assert(ds(i) == d3 || deleted(d3, b, ds(i)));
                }
                if o4 matches Some(Ok(_)) {
                    let e = now(l4, ds);
                    assert((d1.at)(f) is None && (d2.at)(f) is None && (d3.at)(f) is None);
                    assert((e.at)(f) is None);
                    assert(aside == (d.on(target) is Some));
                }
            }
        }
    }
    assert(throughout(replacing_by_move(target, source, suffix), log, ds, inv));
}

}
