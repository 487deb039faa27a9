//! Removing the snapper configuration from a live environment.
//!
//! The files are a model: at every place there is a file, a directory, or nothing. Everything
//! that is possible is permitted. Links and `..` are left out of account.

use crate::btrfs::entries_in;
use crate::change::{after, goes, lemma_goes_ask, lemma_goes_bind, lemma_goes_then, Step};
use crate::command_runner::ignoring;
use crate::disk::{place, Place};
use crate::error::{Fault, IoFault};
use crate::hooks::{dropping, emptying, removing_files, removing_snapper};
#[allow(unused_imports)]
use crate::journal::{
    ask, attempt, bind, decide, drive, fail, failure_in, flag_in, group_plan, ok, perform, present,
    then, Answer, Ask, Log,
};
use crate::path::{joined_path, lemma_join_adds_component, lemma_join_in_steps};
use crate::spelling::entry_paths;
use crate::trace::extends;
use vstd::prelude::*;

verus! {

/// What stands at a place.
pub enum Node {
    File,
    Directory,
}

/// The files and directories: what stands at every place, if anything.
#[verifier::ext_equal]
pub struct Files {
    pub at: spec_fn(Place) -> Option<Node>,
}

impl Files {
    /// What stands at the place that a path names.
    pub open spec fn on(self, path: Seq<char>) -> Option<Node> {
        (self.at)(place(path))
    }

    /// A file stands at the place.
    pub open spec fn has_file(self, p: Place) -> bool {
        (self.at)(p) == Some(Node::File)
    }

    /// What stands in a directory stands in a directory.
    pub open spec fn well_formed(self) -> bool {
        forall|dir: Place, name: Seq<char>|
            (self.at)(#[trigger] dir.push(name)) is Some ==> (self.at)(dir) == Some(
                Node::Directory,
            )
    }

    /// Nothing stands in the directory.
    pub open spec fn is_empty(self, dir: Place) -> bool {
        forall|name: Seq<char>| (self.at)(#[trigger] dir.push(name)) is None
    }
}

/// Nothing stands at `p` any more; all else is as it was.
pub open spec fn removed(s: Files, p: Place, t: Files) -> bool {
    forall|x: Place|
        #[trigger] (t.at)(x) == (if x == p {
            None
        } else {
            (s.at)(x)
        })
}

/// One of the paths from `i` on names the place.
pub open spec fn among(paths: Seq<Seq<char>>, i: int, x: Place) -> bool {
    exists|j: int| i <= j < paths.len() && place(#[trigger] paths[j]) == x
}

/// The paths are the entries of a directory.
pub open spec fn lists(s: Files, dir: Place, paths: Seq<Seq<char>>) -> bool {
    &&& forall|x: Place| #[trigger] among(paths, 0, x) ==> in_directory(dir, x)
    &&& forall|name: Seq<char>|
        (s.at)(#[trigger] dir.push(name)) is Some ==> among(paths, 0, dir.push(name))
}

/// The place is directly in the directory.
pub open spec fn in_directory(dir: Place, x: Place) -> bool {
    x.len() == dir.len() + 1 && x == dir.push(x.last())
}

/// How the files change, where everything that is possible is permitted. Of other requests
/// nothing is said.
pub open spec fn permits() -> Step<Files> {
    |s: Files, q: Ask, a: Answer, t: Files|
        match q {
            Ask::Exists(p) => t == s && a == Answer::Flag(s.on(p) is Some),
            Ask::IsFile(p) => t == s && a == Answer::Flag(s.has_file(place(p))),
            Ask::ReadDir(p) => t == s && if s.on(p) == Some(Node::Directory) {
                a matches Answer::Entries { names, failure } && failure is None && lists(
                    s,
                    place(p),
                    entry_paths(p, names),
                )
            } else {
                a is Failed
            },
            Ask::RemoveFile(p) => if s.has_file(place(p)) {
                a is Done && removed(s, place(p), t)
            } else {
                a is Failed && t == s
            },
            Ask::RemoveDir(p) => if s.on(p) == Some(Node::Directory) && s.is_empty(place(p)) {
                a is Done && removed(s, place(p), t)
            } else {
                a is Failed && t == s
            },
            _ => true,
        }
}

proof fn lemma_deciding(q: Ask, log: Log, ss: spec_fn(int) -> Files)
    requires
        goes(permits(), decide(q), log, ss),
        q is Exists || q is IsFile,
    ensures
        ({
            let (l, o) = drive(decide(q), log);
            let s = after(log, ss);
            &&& extends(log, l)
            &&& o is Some ==> after(l, ss) == s && o == Some(
                Ok::<bool, Fault>(
                    match q {
                        Ask::Exists(p) => s.on(p) is Some,
                        Ask::IsFile(p) => s.has_file(place(p)),
                        _ => false,
                    },
                ),
            )
        }),
{
    broadcast use group_plan;

    lemma_goes_bind(permits(), ask(q), |a: Answer| ok(flag_in(a)), log, ss);
    lemma_goes_ask(permits(), q, log, ss);
}

proof fn lemma_performing(q: Ask, log: Log, ss: spec_fn(int) -> Files)
    requires
        goes(permits(), perform(q), log, ss),
    ensures
        ({
            let (l, o) = drive(perform(q), log);
            &&& extends(log, l)
            &&& o matches Some(r) ==> exists|a: Answer|
                (a is Done <==> r is Ok) && #[trigger] permits()(
                    after(log, ss),
                    q,
                    a,
                    after(l, ss),
                )
        }),
{
    broadcast use group_plan;

    let k = |e: Option<IoFault>|
        match e {
            None => ok(()),
            Some(e) => fail(Fault::Io(e)),
        };
    lemma_goes_then(permits(), attempt(q), k, log, ss);
    lemma_goes_bind(permits(), ask(q), |a: Answer| ok(failure_in(a)), log, ss);
    lemma_goes_ask(permits(), q, log, ss);
}

/// The files among the paths from `i` on are gone; all else is as it was.
pub open spec fn cleared(s: Files, paths: Seq<Seq<char>>, i: int, t: Files) -> bool {
    forall|x: Place|
        #[trigger] (t.at)(x) == (if s.has_file(x) && among(paths, i, x) {
            None
        } else {
            (s.at)(x)
        })
}

proof fn lemma_removing_files(
    paths: Seq<Seq<char>>,
    i: int,
    log: Log,
    ss: spec_fn(int) -> Files,
)
    requires
        goes(permits(), removing_files(paths, i), log, ss),
        0 <= i <= paths.len(),
    ensures
        ({
            let (l, o) = drive(removing_files(paths, i), log);
            &&& extends(log, l)
            &&& o is Some ==> o == Some(Ok::<(), Fault>(())) && cleared(
                after(log, ss),
                paths,
                i,
                after(l, ss),
            )
        }),
    decreases paths.len() - i,
{
    broadcast use group_plan;

    let s = after(log, ss);
    if i < paths.len() {
        let p = paths[i];
        let q = Ask::IsFile(p);
        let drop_it = |file: bool|
            if file {
                perform(Ask::RemoveFile(paths[i]))
            } else {
                ok(())
            };
        let rest = |u: ()| removing_files(paths, i + 1);
        let k = |file: bool|
            then(
                if file {
                    perform(Ask::RemoveFile(paths[i]))
                } else {
                    ok(())
                },
                |u: ()| removing_files(paths, i + 1),
            );
        lemma_goes_then(permits(), decide(q), k, log, ss);
        lemma_deciding(q, log, ss);
        let (l1, o1) = drive(decide(q), log);
        if let Some(Ok(file)) = o1 {
            lemma_goes_then(permits(), drop_it(file), rest, l1, ss);
            if file {
                lemma_performing(Ask::RemoveFile(p), l1, ss);
            }
            let (l2, o2) = drive(drop_it(file), l1);
            if o2 is Some {
                assert(o2 == Some(Ok::<(), Fault>(())));
                lemma_removing_files(paths, i + 1, l2, ss);
                let m = after(l2, ss);
                let (l3, o3) = drive(removing_files(paths, i + 1), l2);
                if o3 is Some {
                    let t = after(l3, ss);
                    assert forall|x: Place|
                        #[trigger] (t.at)(x) == (if s.has_file(x) && among(paths, i, x) {
                            None
                        } else {
                            (s.at)(x)
                        }) by {
                        if x == place(p) {
                            assert(place(paths[i]) == x);
                            assert(among(paths, i, x));
                        } else {
                            if among(paths, i, x) {
                                let j = choose|j: int|
                                    i <= j < paths.len() && place(#[trigger] paths[j]) == x;
                                assert(i + 1 <= j && place(paths[j]) == x);
                                assert(among(paths, i + 1, x));
                            }
                            if among(paths, i + 1, x) {
                                let j = choose|j: int|
                                    i + 1 <= j < paths.len() && place(#[trigger] paths[j]) == x;
                                assert(place(paths[j]) == x);
                                assert(among(paths, i, x));
                            }
                            assert((m.at)(x) == (s.at)(x));
                        }
                    }
                }
            }
        }
    }
}

/// Nothing but files stands in the directory.
pub open spec fn only_files(s: Files, dir: Place) -> bool {
    forall|name: Seq<char>|
        (s.at)(#[trigger] dir.push(name)) is Some ==> s.has_file(dir.push(name))
}

/// The files in a directory are gone, and so is the directory where nothing else was in it. All
/// else is as it was.
pub open spec fn emptied(s: Files, dir: Place, t: Files) -> bool {
    forall|x: Place|
        #[trigger] (t.at)(x) == (if in_directory(dir, x) && s.has_file(x) {
            None
        } else if x == dir && only_files(s, dir) {
            None
        } else {
            (s.at)(x)
        })
}

proof fn lemma_emptying(dir: Seq<char>, log: Log, ss: spec_fn(int) -> Files)
    requires
        goes(permits(), emptying(dir), log, ss),
        after(log, ss).well_formed(),
        !after(log, ss).has_file(place(dir)),
    ensures
        ({
            let (l, o) = drive(emptying(dir), log);
            &&& extends(log, l)
            &&& o is Some ==> o == Some(Ok::<(), Fault>(())) && emptied(
                after(log, ss),
                place(dir),
                after(l, ss),
            )
        }),
{
    broadcast use group_plan;

    reveal(emptying);
    let s = after(log, ss);
    let d = place(dir);
    let go = |a: Answer|
        match entries_in(a) {
            Err(e) => fail(Fault::Io(e)),
            Ok((names, failure)) => then(
                removing_files(entry_paths(dir, names), 0),
                |u: ()|
                    match failure {
                        Some(e) => fail(Fault::Io(e)),
                        None => ignoring(perform(Ask::RemoveDir(dir))),
                    },
            ),
        };
    let k = |there: bool|
        if !there {
            ok(())
        } else {
            bind(ask(Ask::ReadDir(dir)), go)
        };
    lemma_goes_then(permits(), present(dir), k, log, ss);
    lemma_deciding(Ask::Exists(dir), log, ss);
    let (l1, o1) = drive(present(dir), log);
    if o1 == Some(Ok::<bool, Fault>(false)) {
        assert forall|x: Place|
            #[trigger] (s.at)(x) == (if in_directory(d, x) && s.has_file(x) {
                None
            } else if x == d && only_files(s, d) {
                None
            } else {
                (s.at)(x)
            }) by {
            if in_directory(d, x) {
                assert(x == d.push(x.last()));
            }
        }
    } else if o1 is Some {
        assert(s.on(dir) == Some(Node::Directory));
        lemma_goes_bind(permits(), ask(Ask::ReadDir(dir)), go, l1, ss);
        lemma_goes_ask(permits(), Ask::ReadDir(dir), l1, ss);
        let (l2, o2) = drive(ask(Ask::ReadDir(dir)), l1);
        if let Some(Answer::Entries { names, failure }) = o2 {
            let paths = entry_paths(dir, names);
            let last = |u: ()|
                match failure {
                    Some(e) => fail(Fault::Io(e)),
                    None => ignoring(perform(Ask::RemoveDir(dir))),
                };
            lemma_goes_then(permits(), removing_files(paths, 0), last, l2, ss);
            lemma_removing_files(paths, 0, l2, ss);
            let (l3, o3) = drive(removing_files(paths, 0), l2);
            if o3 is Some {
                let q = Ask::RemoveDir(dir);
                let m = after(l3, ss);
                lemma_goes_bind(permits(), perform(q), |r: Result<(), Fault>| ok(()), l3, ss);
                lemma_performing(q, l3, ss);
                let (l4, o4) = drive(perform(q), l3);
                if o4 is Some {
                    let t = after(l4, ss);
                    assert((m.at)(d) == (s.at)(d)) by {
                        if among(paths, 0, d) {
                            assert(in_directory(d, d));
                        }
                    }
                    assert(m.is_empty(d) == only_files(s, d)) by {
                        assert forall|name: Seq<char>| (m.at)(#[trigger] d.push(name)) == (
                        if s.has_file(d.push(name)) {
                            None
                        } else {
                            (s.at)(d.push(name))
                        }) by {}
                        if m.is_empty(d) {
                            assert forall|name: Seq<char>|
                                (s.at)(#[trigger] d.push(name)) is Some implies s.has_file(
                                d.push(name),
                            ) by {
                                assert((m.at)(d.push(name)) is None);
                            }
                        }
                        if only_files(s, d) {
                            assert forall|name: Seq<char>|
                                (m.at)(#[trigger] d.push(name)) is None by {}
                        }
                    }
                    assert forall|x: Place|
                        #[trigger] (t.at)(x) == (if in_directory(d, x) && s.has_file(x) {
                            None
                        } else if x == d && only_files(s, d) {
                            None
                        } else {
                            (s.at)(x)
                        }) by {
                        assert(!in_directory(d, d));
                        if in_directory(d, x) && s.has_file(x) {
                            assert(x == d.push(x.last()));
                            assert(among(paths, 0, x));
                        }
                        if among(paths, 0, x) {
                            assert(in_directory(d, x));
                        }
                        assert((m.at)(x) == (if s.has_file(x) && in_directory(d, x) {
                            None
                        } else {
                            (s.at)(x)
                        }));
                    }
                }
            }
        }
    }
}

/// A file at the place is gone; all else is as it was.
pub open spec fn dropped(s: Files, p: Place, t: Files) -> bool {
    forall|x: Place|
        #[trigger] (t.at)(x) == (if x == p && s.has_file(x) {
            None
        } else {
            (s.at)(x)
        })
}

proof fn lemma_dropping(path: Seq<char>, log: Log, ss: spec_fn(int) -> Files)
    requires
        goes(permits(), dropping(path), log, ss),
    ensures
        ({
            let (l, o) = drive(dropping(path), log);
            &&& extends(log, l)
            &&& o is Some ==> o == Some(Ok::<(), Fault>(())) && dropped(
                after(log, ss),
                place(path),
                after(l, ss),
            )
        }),
{
    broadcast use group_plan;

    reveal(dropping);
    let q = Ask::RemoveFile(path);
    let k = |there: bool|
        if there {
            ignoring(perform(Ask::RemoveFile(path)))
        } else {
            ok(())
        };
    lemma_goes_then(permits(), present(path), k, log, ss);
    lemma_deciding(Ask::Exists(path), log, ss);
    let (l1, o1) = drive(present(path), log);
    if o1 == Some(Ok::<bool, Fault>(true)) {
        lemma_goes_bind(permits(), perform(q), |r: Result<(), Fault>| ok(()), l1, ss);
        lemma_performing(q, l1, ss);
    }
}

/// Where the snapper configuration of a live environment is.
pub open spec fn configs(root: Seq<char>) -> Place {
    place(joined_path(root, "etc/snapper/configs"@))
}

/// Where the snapper service of a live environment is switched on.
pub open spec fn service(root: Seq<char>) -> Place {
    place(
        joined_path(
            root,
            "etc/systemd/system/multi-user.target.wants/snapper-cleanup.service"@,
        ),
    )
}

/// Where the snapper timer of a live environment is switched on.
pub open spec fn timer(root: Seq<char>) -> Place {
    place(joined_path(root, "etc/systemd/system/timers.target.wants/snapper-cleanup.timer"@))
}

/// The files in the configuration directory are gone, and so is the directory where nothing
/// else was in it; the files of the service and the timer are gone. All else is as it was.
pub open spec fn tidied(root: Seq<char>, s: Files, t: Files) -> bool {
    forall|x: Place|
        #[trigger] (t.at)(x) == (if s.has_file(x) && (in_directory(configs(root), x) || x
            == service(root) || x == timer(root)) {
            None
        } else if x == configs(root) && only_files(s, configs(root)) {
            None
        } else {
            (s.at)(x)
        })
}

/// The places that a live environment is tidied at are all different.
proof fn lemma_places(root: Seq<char>)
    ensures
        service(root) != timer(root),
        service(root).len() == configs(root).len() + 2,
        timer(root).len() == configs(root).len() + 2,
{
    reveal_strlit("/");
    reveal_strlit(".");
    reveal_strlit("etc");
    reveal_strlit("etc/snapper");
    reveal_strlit("snapper");
    reveal_strlit("configs");
    reveal_strlit("etc/snapper/configs");
    assert("etc/snapper"@ =~= "etc"@ + "/"@ + "snapper"@);
    assert("etc/snapper/configs"@ =~= "etc/snapper"@ + "/"@ + "configs"@);
    lemma_join_adds_component(root, "etc"@);
    lemma_join_in_steps(root, "etc"@, "snapper"@);
    lemma_join_in_steps(root, "etc/snapper"@, "configs"@);
    reveal_strlit("systemd");
    reveal_strlit("etc/systemd");
    reveal_strlit("system");
    reveal_strlit("etc/systemd/system");
    assert("etc/systemd"@ =~= "etc"@ + "/"@ + "systemd"@);
    assert("etc/systemd/system"@ =~= "etc/systemd"@ + "/"@ + "system"@);
    lemma_join_in_steps(root, "etc"@, "systemd"@);
    lemma_join_in_steps(root, "etc/systemd"@, "system"@);
    let front = "etc/systemd/system"@;
    assert(place(joined_path(root, front)).len() == configs(root).len());
    reveal_strlit("multi-user.target.wants");
    reveal_strlit("snapper-cleanup.service");
    reveal_strlit("etc/systemd/system/multi-user.target.wants");
    reveal_strlit("etc/systemd/system/multi-user.target.wants/snapper-cleanup.service");
    assert("etc/systemd/system/multi-user.target.wants"@ =~= front + "/"@
        + "multi-user.target.wants"@);
    assert("etc/systemd/system/multi-user.target.wants/snapper-cleanup.service"@
        =~= "etc/systemd/system/multi-user.target.wants"@ + "/"@ + "snapper-cleanup.service"@);
    lemma_join_in_steps(root, front, "multi-user.target.wants"@);
    lemma_join_in_steps(
        root,
        "etc/systemd/system/multi-user.target.wants"@,
        "snapper-cleanup.service"@,
    );
    reveal_strlit("timers.target.wants");
    reveal_strlit("snapper-cleanup.timer");
    reveal_strlit("etc/systemd/system/timers.target.wants");
    reveal_strlit("etc/systemd/system/timers.target.wants/snapper-cleanup.timer");
    assert("etc/systemd/system/timers.target.wants"@ =~= front + "/"@ + "timers.target.wants"@);
    assert("etc/systemd/system/timers.target.wants/snapper-cleanup.timer"@
        =~= "etc/systemd/system/timers.target.wants"@ + "/"@ + "snapper-cleanup.timer"@);
    lemma_join_in_steps(root, front, "timers.target.wants"@);
    lemma_join_in_steps(
        root,
        "etc/systemd/system/timers.target.wants"@,
        "snapper-cleanup.timer"@,
    );
    assert(service(root).last() == "snapper-cleanup.service"@);
    assert(timer(root).last() == "snapper-cleanup.timer"@);
    assert("snapper-cleanup.service"@.len() != "snapper-cleanup.timer"@.len());
}

/// Removing the snapper configuration works, also where there is none: the files in its
/// directory are gone, and so are those of the service and the timer. Nothing else is removed
/// but the directory, where it is left empty.
pub proof fn lemma_removing_snapper(root: Seq<char>, log: Log, ss: spec_fn(int) -> Files)
    requires
        goes(permits(), removing_snapper(root), log, ss),
        after(log, ss).well_formed(),
        !after(log, ss).has_file(configs(root)),
    ensures
        ({
            let (l, o) = drive(removing_snapper(root), log);
            let (s, t) = (after(log, ss), after(l, ss));
            &&& extends(log, l)
            &&& o is Some ==> {
                &&& o == Some(Ok::<(), Fault>(()))
                &&& tidied(root, s, t)
                &&& t.well_formed()
                &&& !t.has_file(configs(root))
            }
        }),
{
    broadcast use group_plan;

    reveal(removing_snapper);
    lemma_places(root);
    let s = after(log, ss);
    let (c, v, w) = (configs(root), service(root), timer(root));
    let dir = joined_path(root, "etc/snapper/configs"@);
    let first = joined_path(
        root,
        "etc/systemd/system/multi-user.target.wants/snapper-cleanup.service"@,
    );
    let second = joined_path(
        root,
        "etc/systemd/system/timers.target.wants/snapper-cleanup.timer"@,
    );
    let tail = |u: ()| then(dropping(first), |u: ()| dropping(second));
    lemma_goes_then(permits(), emptying(dir), tail, log, ss);
    lemma_emptying(dir, log, ss);
    let (l1, o1) = drive(emptying(dir), log);
    if o1 is Some {
        lemma_goes_then(permits(), dropping(first), |u: ()| dropping(second), l1, ss);
        lemma_dropping(first, l1, ss);
        let (l2, o2) = drive(dropping(first), l1);
        if o2 is Some {
            lemma_dropping(second, l2, ss);
            let (l3, o3) = drive(dropping(second), l2);
            if o3 is Some {
                let (m, n, t) = (after(l1, ss), after(l2, ss), after(l3, ss));
                assert forall|x: Place|
                    #[trigger] (t.at)(x) == (if s.has_file(x) && (in_directory(c, x) || x == v || x
                        == w) {
                        None
                    } else if x == c && only_files(s, c) {
                        None
                    } else {
                        (s.at)(x)
                    }) by {
                    assert((n.at)(x) == (if x == v && m.has_file(x) {
                        None
                    } else {
                        (m.at)(x)
                    }));
                    assert((m.at)(x) == (if in_directory(c, x) && s.has_file(x) {
                        None
                    } else if x == c && only_files(s, c) {
                        None
                    } else {
                        (s.at)(x)
                    }));
                }
                assert forall|d: Place, name: Seq<char>|
                    (t.at)(#[trigger] d.push(name)) is Some implies (t.at)(d) == Some(
                    Node::Directory,
                ) by {
                    let x = d.push(name);
                    assert((s.at)(x) is Some);
                    assert((s.at)(d) == Some(Node::Directory));
                    if d == c && only_files(s, c) {
                        assert(s.has_file(x));
                        assert(x.last() == name);
                        assert(in_directory(c, x));
                    }
                }
            }
        }
    }
}

/// Removing the snapper configuration twice is no different from removing it once: afterwards
/// no file is left in the configuration directory, the service and the timer are switched off,
/// every other file is still there, and the second time changes nothing.
pub proof fn lemma_removing_snapper_again(root: Seq<char>, log: Log, ss: spec_fn(int) -> Files)
    requires
        goes(permits(), removing_snapper(root), log, ss),
        goes(permits(), removing_snapper(root), drive(removing_snapper(root), log).0, ss),
        after(log, ss).well_formed(),
        !after(log, ss).has_file(configs(root)),
    ensures
        ({
            let (once, o1) = drive(removing_snapper(root), log);
            let (twice, o2) = drive(removing_snapper(root), once);
            let (s, t, u) = (after(log, ss), after(once, ss), after(twice, ss));
            &&& o1 is Some ==> {
                &&& o1 == Some(Ok::<(), Fault>(()))
                &&& forall|name: Seq<char>| !t.has_file(#[trigger] configs(root).push(name))
                &&& (s.at)(service(root)) != Some(Node::Directory) ==> (t.at)(service(root)) is None
                &&& (s.at)(timer(root)) != Some(Node::Directory) ==> (t.at)(timer(root)) is None
                &&& forall|x: Place|
                    s.has_file(x) && !in_directory(configs(root), x) && x != service(root) && x
                        != timer(root) ==> #[trigger] t.has_file(x)
            }
            &&& o1 is Some && o2 is Some ==> o2 == Some(Ok::<(), Fault>(())) && u == t
        }),
{
    let (once, o1) = drive(removing_snapper(root), log);
    let (twice, o2) = drive(removing_snapper(root), once);
    let (s, t, u) = (after(log, ss), after(once, ss), after(twice, ss));
    let c = configs(root);
    lemma_removing_snapper(root, log, ss);
    if o1 is Some {
        assert forall|x: Place|
            (x == service(root) || x == timer(root)) && (s.at)(x) != Some(Node::Directory) implies (
        #[trigger] (t.at)(x)) is None by {
            match (s.at)(x) {
                Some(Node::File) => {
                    assert(s.has_file(x));
                },
                _ => {},
            }
        }
        assert forall|name: Seq<char>| !t.has_file(#[trigger] c.push(name)) by {
            let x = c.push(name);
            assert(x.last() == name);
            assert(in_directory(c, x));
        }
        lemma_removing_snapper(root, once, ss);
        if o2 is Some {
            lemma_places(root);
            assert forall|x: Place| #[trigger] (u.at)(x) == (t.at)(x) by {
                if in_directory(c, x) {
                    assert(x == c.push(x.last()));
                }
                if x == c && only_files(t, c) {
                    assert forall|name: Seq<char>|
                        (s.at)(#[trigger] c.push(name)) is Some implies s.has_file(
                        c.push(name),
                    ) by {
                        let y = c.push(name);
                        assert(y.last() == name);
                        assert((t.at)(y) is Some ==> t.has_file(y));
                        if !s.has_file(y) {
                            assert((t.at)(y) == (s.at)(y));
                        }
                    }
                    assert(only_files(s, c));
                }
            }
            assert(u.at =~= t.at);
        }
    }
}

}
