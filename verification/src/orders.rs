//! What the procedures on subvolumes ask the system for, word for word.

use crate::btrfs::{
    checking_filesystem, checking_subvolume, creating_snapshot, creating_snapshot_rw,
    creating_subvolume, deleting_subvolume, ensuring_dir, judging_transfer, next_splice, renaming,
    send_call, sent_in, transferring, Splice, SpliceStep,
};
use crate::command_runner::{commanding, complaining, fault_in, launching, querying, Area};
use crate::error::Fault;
use crate::journal::{
    drive, failure_in, fetch, flag_in, group_plan, perform, present, run, Answer, Ask, Call, Log,
    Printed, Sent, Tone, TransferStats,
};
use crate::text::lossy_text;
use crate::trace::{extends, group_only, lemma_only_weaker, only, settled};
use vstd::prelude::*;

verus! {

/// The command with these words.
pub open spec fn words(program: Seq<char>, args: Seq<Seq<char>>) -> Call {
    Call { program, args, input: None }
}

/// From position `from` on, `q` was asked for and answered by `a`.
pub open spec fn answered(l: Log, from: int, q: Ask, a: Answer) -> bool {
    exists|i: int| from <= i < l.asked.len() && #[trigger] l.asked[i] == q && l.answers[i] == a
}

/// From position `from` on, a program was run with success.
pub open spec fn succeeded(l: Log, from: int, c: Call) -> bool {
    exists|i: int|
        from <= i < l.asked.len() && #[trigger] l.asked[i] == Ask::Run(c) && (
        l.answers[i] matches Answer::Ran(o) && o.success)
}

/// From position `from` on, `q` was asked for.
pub open spec fn asked_for(l: Log, from: int, q: Ask) -> bool {
    exists|i: int| from <= i < l.asked.len() && #[trigger] l.asked[i] == q
}

/// What was asked for was so from any earlier position on.
pub(crate) proof fn lemma_asked_for(before: Log, after: Log, at: int, from: int, q: Ask)
    requires
        asked_for(before, at, q),
        extends(before, after),
        0 <= from <= at,
    ensures
        asked_for(after, from, q),
{
    let i = choose|i: int| at <= i < before.asked.len() && #[trigger] before.asked[i] == q;
    assert(after.asked[i] == before.asked[i]);
}

/// What was answered stays answered, and it was so from any earlier position on.
pub(crate) proof fn lemma_answered(before: Log, after: Log, at: int, from: int, q: Ask, a: Answer)
    requires
        answered(before, at, q, a),
        extends(before, after),
        0 <= from <= at,
    ensures
        answered(after, from, q, a),
{
    let i = choose|i: int|
        at <= i < before.asked.len() && #[trigger] before.asked[i] == q && before.answers[i] == a;
    assert(after.asked[i] == before.asked[i]);
}

/// What was run with success was so from any earlier position on.
pub(crate) proof fn lemma_succeeded(before: Log, after: Log, at: int, from: int, c: Call)
    requires
        succeeded(before, at, c),
        extends(before, after),
        0 <= from <= at,
    ensures
        succeeded(after, from, c),
{
    let i = choose|i: int|
        at <= i < before.asked.len() && #[trigger] before.asked[i] == Ask::Run(c) && (
        before.answers[i] matches Answer::Ran(o) && o.success);
    assert(after.asked[i] == before.asked[i]);
}

/// The request shows a message or runs the command.
pub open spec fn running_only(c: Call) -> spec_fn(Ask) -> bool {
    |q: Ask| q is Say || q == Ask::Run(c)
}

/// A command that has to succeed is run, and no other; the outcome is good exactly where the
/// command succeeds.
pub(crate) proof fn lemma_commanding(area: Area, c: Call, msg: Seq<char>, log: Log)
    requires
        settled(log),
    ensures
        only(commanding(area, c, msg), running_only(c)),
        ({
            let (l, o) = drive(commanding(area, c, msg), log);
            o matches Some(r) ==> (r is Ok <==> succeeded(l, log.asked.len() as int, c))
        }),
{
    broadcast use {group_plan, group_only};

    reveal(commanding);
    reveal(launching);
    reveal(complaining);
    let (l, o) = drive(commanding(area, c, msg), log);
    let at = log.asked.len() as int;
    if o is Some {
        assert(l.asked[at + 1] == Ask::Run(c));
        assert forall|i: int| at <= i < l.asked.len() && #[trigger] l.asked[i] == Ask::Run(
            c,
        ) implies i == at + 1 by {}
    }
}

/// A command whose success is the answer to a question.
pub(crate) proof fn lemma_querying(c: Call, log: Log)
    requires
        settled(log),
    ensures
        only(querying(c), running_only(c)),
        ({
            let (l, o) = drive(querying(c), log);
            o matches Some(Ok(p)) ==> {
                &&& p.success <==> succeeded(l, log.asked.len() as int, c)
                &&& answered(l, log.asked.len() as int, Ask::Run(c), Answer::Ran(p))
            }
        }),
{
    broadcast use {group_plan, group_only};

    reveal(querying);
    let (l, o) = drive(querying(c), log);
    let at = log.asked.len() as int;
    if o matches Some(Ok(_)) {
        assert(l.asked[at + 1] == Ask::Run(c));
    }
}

/// Making, deleting and examining subvolumes: each runs one command of `btrfs`, with these
/// words and on these paths, and does well exactly where the command does.
pub proof fn lemma_subvolume_commands(source: Seq<char>, dest: Seq<char>, log: Log)
    requires
        settled(log),
    ensures
        ({
            let at = log.asked.len() as int;
            let read_only = words(
                "btrfs"@,
                seq!["subvolume"@, "snapshot"@, "-r"@, source, dest],
            );
            let writable = words("btrfs"@, seq!["subvolume"@, "snapshot"@, source, dest]);
            let create = words("btrfs"@, seq!["subvolume"@, "create"@, dest]);
            let delete = words("btrfs"@, seq!["subvolume"@, "delete"@, dest]);
            let show = words("btrfs"@, seq!["subvolume"@, "show"@, dest]);
            let filesystem = words("btrfs"@, seq!["filesystem"@, "show"@, dest]);
            &&& only(creating_snapshot(source, dest), running_only(read_only))
            &&& drive(creating_snapshot(source, dest), log) matches (l, Some(r)) ==> (r is Ok
                <==> succeeded(l, at, read_only))
            &&& only(creating_snapshot_rw(source, dest), running_only(writable))
            &&& drive(creating_snapshot_rw(source, dest), log) matches (l, Some(r)) ==> (r is Ok
                <==> succeeded(l, at, writable))
            &&& only(creating_subvolume(dest), running_only(create))
            &&& drive(creating_subvolume(dest), log) matches (l, Some(r)) ==> (r is Ok
                <==> succeeded(l, at, create))
            &&& only(deleting_subvolume(dest), running_only(delete))
            &&& drive(deleting_subvolume(dest), log) matches (l, Some(r)) ==> (r is Ok
                <==> succeeded(l, at, delete))
            &&& only(checking_subvolume(dest), running_only(show))
            &&& drive(checking_subvolume(dest), log) matches (l, Some(Ok(yes))) ==> (yes
                <==> succeeded(l, at, show))
            &&& only(checking_filesystem(dest), running_only(filesystem))
            &&& drive(checking_filesystem(dest), log) matches (l, Some(Ok(yes))) ==> (yes
                <==> succeeded(l, at, filesystem))
        }),
{
    broadcast use {group_plan, group_only};

    reveal(creating_snapshot);
    reveal(creating_snapshot_rw);
    reveal(creating_subvolume);
    reveal(deleting_subvolume);
    reveal(checking_subvolume);
    reveal(checking_filesystem);
    let read_only = words("btrfs"@, seq!["subvolume"@, "snapshot"@, "-r"@, source, dest]);
    let writable = words("btrfs"@, seq!["subvolume"@, "snapshot"@, source, dest]);
    let create = words("btrfs"@, seq!["subvolume"@, "create"@, dest]);
    let delete = words("btrfs"@, seq!["subvolume"@, "delete"@, dest]);
    let show = words("btrfs"@, seq!["subvolume"@, "show"@, dest]);
    let filesystem = words("btrfs"@, seq!["filesystem"@, "show"@, dest]);
    assert(crate::btrfs::snapshot_call(source, dest).args =~= read_only.args);
    assert(crate::btrfs::snapshot_rw_call(source, dest).args =~= writable.args);
    assert(crate::btrfs::create_call(dest).args =~= create.args);
    assert(crate::btrfs::delete_call(dest).args =~= delete.args);
    assert(crate::btrfs::show_call(dest).args =~= show.args);
    assert(crate::btrfs::filesystem_call(dest).args =~= filesystem.args);
    lemma_commanding(
        Area::Btrfs,
        read_only,
        "Failed to create snapshot from "@ + source + " to "@ + dest + ": "@,
        log,
    );
    lemma_commanding(
        Area::Btrfs,
        writable,
        "Failed to create read-write snapshot from "@ + source + " to "@ + dest + ": "@,
        log,
    );
    lemma_commanding(Area::Btrfs, create, "Failed to create subvolume "@ + dest + ": "@, log);
    lemma_commanding(Area::Btrfs, delete, "Failed to delete subvolume "@ + dest + ": "@, log);
    lemma_querying(show, log);
    lemma_querying(filesystem, log);
}

/// The command that sends a subvolume names it last, and its parent, where there is one, as
/// the parent.
pub proof fn lemma_send_command(source: Seq<char>, parent: Seq<char>)
    ensures
        send_call(source, Some(parent)) == words("btrfs"@, seq!["send"@, "-p"@, parent, source]),
        send_call(source, None) == words("btrfs"@, seq!["send"@, source]),
{
    assert(send_call(source, Some(parent)).args =~= seq!["send"@, "-p"@, parent, source]);
    assert(send_call(source, None).args =~= seq!["send"@, source]);
}

/// The request transfers nothing.
pub open spec fn sends_nothing() -> spec_fn(Ask) -> bool {
    |q: Ask| !(q is Transfer)
}

/// The request transfers nothing but `source`, against `parent`, to `dest`.
pub open spec fn sends_only(source: Seq<char>, parent: Option<Seq<char>>, dest: Seq<char>) ->
    spec_fn(Ask) -> bool {
    |q: Ask| q is Transfer ==> q == (Ask::Transfer { source, parent, dest })
}

/// From position `from` on, `source` was sent against `parent` and received in `dest`, with
/// `stats`: both ends of the transfer did well.
pub open spec fn arrived(
    l: Log,
    from: int,
    source: Seq<char>,
    parent: Option<Seq<char>>,
    dest: Seq<char>,
    stats: TransferStats,
) -> bool {
    exists|send: Printed, receive: Printed|
        send.success && receive.success && #[trigger] answered(
            l,
            from,
            Ask::Transfer { source, parent, dest },
            Answer::Sent(Sent::Ended { stats, send, receive }),
        )
}

/// An arrival that was so from any earlier position on.
pub(crate) proof fn lemma_arrived(
    before: Log,
    after: Log,
    at: int,
    from: int,
    source: Seq<char>,
    parent: Option<Seq<char>>,
    dest: Seq<char>,
    stats: TransferStats,
)
    requires
        arrived(before, at, source, parent, dest, stats),
        extends(before, after),
        0 <= from <= at,
    ensures
        arrived(after, from, source, parent, dest, stats),
{
    let q = Ask::Transfer { source, parent, dest };
    let (send, receive) = choose|send: Printed, receive: Printed|
        send.success && receive.success && #[trigger] answered(
            before,
            at,
            q,
            Answer::Sent(Sent::Ended { stats, send, receive }),
        );
    lemma_answered(
        before,
        after,
        at,
        from,
        q,
        Answer::Sent(Sent::Ended { stats, send, receive }),
    );
}

/// A transfer asks for one thing: that the source is sent, against the parent that is given,
/// and received in the directory that is given. It succeeds only where both ends did well, and
/// then its outcome is what was measured.
pub proof fn lemma_transfer_request(
    source: Seq<char>,
    parent: Option<Seq<char>>,
    dest: Seq<char>,
    log: Log,
)
    requires
        settled(log),
    ensures
        only(
            transferring(source, parent, dest),
            |q: Ask| q is Say || q == (Ask::Transfer { source, parent, dest }),
        ),
        only(transferring(source, parent, dest), sends_only(source, parent, dest)),
        ({
            let (l, o) = drive(transferring(source, parent, dest), log);
            let at = log.asked.len() as int;
            &&& o matches Some(Ok(stats)) ==> arrived(l, at, source, parent, dest, stats)
            &&& o matches Some(Err(_)) ==> forall|stats: TransferStats|
                !arrived(l, at, source, parent, dest, stats)
        }),
{
    broadcast use {group_plan, group_only};

    reveal(transferring);
    reveal(judging_transfer);
    reveal(complaining);
    let strict = |q: Ask| q is Say || q == (Ask::Transfer { source, parent, dest });
    assert forall|sent: Sent| only(#[trigger] judging_transfer(source, dest, sent), strict) by {}
    assert(only(transferring(source, parent, dest), strict));
    lemma_only_weaker(
        transferring(source, parent, dest),
        strict,
        sends_only(source, parent, dest),
    );
    let (l, o) = drive(transferring(source, parent, dest), log);
    let at = log.asked.len() as int;
    if let Some(Ok(stats)) = o {
        let q = Ask::Transfer { source, parent, dest };
        assert(l.asked[at + 1] == q);
        if let Sent::Ended { stats: s, send, receive } = sent_in(l.answers[at + 1]) {
            assert(answered(l, at, q, Answer::Sent(Sent::Ended { stats, send, receive })));
        }
    }
    if let Some(Err(_)) = o {
        let q = Ask::Transfer { source, parent, dest };
        assert forall|stats: TransferStats| !arrived(l, at, source, parent, dest, stats) by {
            if arrived(l, at, source, parent, dest, stats) {
                let (send, receive) = choose|send: Printed, receive: Printed|
                    send.success && receive.success && #[trigger] answered(
                        l,
                        at,
                        q,
                        Answer::Sent(Sent::Ended { stats, send, receive }),
                    );
                let a = Answer::Sent(Sent::Ended { stats, send, receive });
                let i = choose|i: int|
                    at <= i < l.asked.len() && #[trigger] l.asked[i] == q && l.answers[i] == a;
                assert(i == at + 1);
            }
        }
    }
}

/// A command that fails is told of: what it wrote to its standard error is shown, and the
/// failure ends in it.
pub proof fn lemma_failure_told(area: Area, c: Call, msg: Seq<char>, log: Log)
    requires
        settled(log),
    ensures
        ({
            let (l, o) = drive(commanding(area, c, msg), log);
            let at = log.asked.len() as int;
            o matches Some(_) ==> (l.answers[at + 1] matches Answer::Ran(p) ==> (!p.success ==> {
                let said = lossy_text(p.stderr);
                &&& o == Some(Err::<(), Fault>(fault_in(area, msg + said)))
                &&& l.asked.last() == (Ask::Say { tone: Tone::CmdStderr, text: said })
            }))
        }),
{
    broadcast use group_plan;

    reveal(commanding);
    reveal(launching);
    reveal(complaining);
}

/// Bytes are neither lost nor counted twice while they are moved: what is counted after an
/// attempt is what was counted before and what it moved. The end of the stream is where nothing
/// more comes.
pub proof fn lemma_moving(total: u64, moved: u64)
    requires
        total + moved <= u64::MAX,
    ensures
        moved > 0 ==> next_splice(total, Splice::Moved(moved)) == SpliceStep::Continue(
            (total + moved) as u64,
        ),
        next_splice(total, Splice::Moved(0)) == SpliceStep::Finished(total),
        next_splice(total, Splice::Again) == SpliceStep::Continue(total),
        next_splice(total, Splice::Broken) is Fail,
        next_splice(total, Splice::Unsupported) is CopyInstead,
{
}

/// Moving a subvolume: the move is asked for first, and it counts only where a subvolume is
/// found at the new place. Where none is found there, moving back is the last thing that is
/// asked for.
pub proof fn lemma_renaming_requests(old_path: Seq<char>, new_path: Seq<char>, log: Log)
    requires
        settled(log),
    ensures
        ({
            let (l, o) = drive(renaming(old_path, new_path), log);
            let at = log.asked.len() as int;
            let show = words("btrfs"@, seq!["subvolume"@, "show"@, new_path]);
            o is Some ==> {
                &&& at < l.asked.len()
                &&& l.asked[at] == (Ask::Rename { from: old_path, to: new_path })
                &&& failure_in(l.answers[at]) is Some ==> l.asked.len() == at + 1 && o->0 is Err
                &&& failure_in(l.answers[at]) is None ==> {
                    &&& at + 2 < l.asked.len()
                    &&& l.asked[at + 2] == Ask::Run(show)
                    &&& o->0 is Ok <==> (l.answers[at + 2] matches Answer::Ran(p) && p.success)
                    &&& o->0 is Ok ==> l.asked.len() == at + 3
                    &&& l.answers[at + 2] matches Answer::Ran(p) ==> (!p.success ==> l.asked.len()
                        == at + 4 && l.asked[at + 3] == (Ask::Rename {
                        from: new_path,
                        to: old_path,
                    }))
                }
            }
        }),
{
    broadcast use group_plan;

    reveal(renaming);
    reveal(checking_subvolume);
    reveal(querying);
    let show = words("btrfs"@, seq!["subvolume"@, "show"@, new_path]);
    assert(crate::btrfs::show_call(new_path).args =~= show.args);
}

/// Making a directory: it is asked for exactly where the directory is not there.
pub proof fn lemma_ensuring_requests(dir: Seq<char>, log: Log)
    requires
        settled(log),
    ensures
        ({
            let (l, o) = drive(ensuring_dir(dir), log);
            let at = log.asked.len() as int;
            o is Some ==> {
                &&& at < l.asked.len()
                &&& l.asked[at] == Ask::Exists(dir)
                &&& flag_in(l.answers[at]) ==> l.asked.len() == at + 1 && o->0 is Ok
                &&& !flag_in(l.answers[at]) ==> {
                    &&& l.asked.len() == at + 2
                    &&& l.asked[at + 1] == Ask::CreateDirAll(dir)
                    &&& o->0 is Ok <==> failure_in(l.answers[at + 1]) is None
                }
            }
        }),
{
    broadcast use group_plan;

    reveal(ensuring_dir);
}

/// How answers are taken: work is done exactly where it is answered that it is done, and a
/// failure is passed on as it is; a program has printed what is answered; a text is the one that
/// is answered; and something is there exactly where that is answered.
pub proof fn lemma_answers_taken(q: Ask, c: Call, path: Seq<char>, log: Log)
    requires
        settled(log),
        log.asked.len() < log.answers.len(),
    ensures
        ({
            let a = log.answers[log.asked.len() as int];
            &&& drive(perform(q), log).1 is Some
            &&& drive(perform(q), log).1->0 is Ok <==> a is Done
            &&& a matches Answer::Failed(e) ==> drive(perform(q), log).1 == Some(
                Err::<(), Fault>(Fault::Io(e)),
            )
            &&& drive(run(c), log).1 matches Some(Ok(p)) ==> a == Answer::Ran(p)
            &&& a matches Answer::Ran(p) ==> drive(run(c), log).1 == Some(Ok::<Printed, Fault>(p))
            &&& a matches Answer::Failed(e) ==> drive(run(c), log).1 == Some(
                Err::<Printed, Fault>(Fault::Io(e)),
            )
            &&& drive(fetch(q), log).1 matches Some(Ok(t)) ==> a == Answer::Text(t)
            &&& a matches Answer::Text(t) ==> drive(fetch(q), log).1 == Some(
                Ok::<Seq<char>, Fault>(t),
            )
            &&& drive(present(path), log).1 == Some(Ok::<bool, Fault>(a == Answer::Flag(true)))
        }),
{
    broadcast use group_plan;

    let a = log.answers[log.asked.len() as int];
    if drive(perform(q), log).1 == Some(Ok::<(), Fault>(())) {
        assert(failure_in(a) is None);
    }
}

} // verus!
