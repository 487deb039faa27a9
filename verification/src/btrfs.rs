//! Btrfs subvolumes: the commands that work on them, and replacing one safely.

use crate::command_runner::{
    commanding, complain, complaining, failed, ignore, ignoring, must_run, query, querying, Area,
};
use crate::error::{BackupError, Fault, IoFault};
#[allow(unused_imports)]
use crate::journal::{
    ask, bind, call, drive, fail, group_plan, ok, perform, present, say, shown, then, unexpected,
    unexpected_reply, Answer, Ask, Call, Command, Printed, Reply, Request, Sending, Sent, Session,
    Stop, Tone, Try,
};
pub use crate::journal::TransferStats;
use crate::path::{
    components, components_of, file_name, file_name_of, is_plain, join, joined_path,
    lemma_components, parent, parent_of,
};
use crate::spelling::{entry_paths, paths_of_entries};
use crate::text::{
    cat2, cat3, cat4, cat5, join as join_texts, joined, lines, lines_of, lossy, lossy_text, parse,
    parsed, same, split, split_at_char, starts_with, trim, trimmed,
};
use vstd::prelude::*;

verus! {

/// `btrfs subvolume show <path>`.
pub open spec fn show_call(path: Seq<char>) -> Call {
    call("btrfs"@).arg("subvolume"@).arg("show"@).arg(path)
}

/// `btrfs filesystem show <path>`.
pub open spec fn filesystem_call(path: Seq<char>) -> Call {
    call("btrfs"@).arg("filesystem"@).arg("show"@).arg(path)
}

/// `btrfs subvolume snapshot -r <source> <dest>`.
pub open spec fn snapshot_call(source: Seq<char>, dest: Seq<char>) -> Call {
    call("btrfs"@).arg("subvolume"@).arg("snapshot"@).arg("-r"@).arg(source).arg(dest)
}

/// `btrfs subvolume snapshot <source> <dest>`.
pub open spec fn snapshot_rw_call(source: Seq<char>, dest: Seq<char>) -> Call {
    call("btrfs"@).arg("subvolume"@).arg("snapshot"@).arg(source).arg(dest)
}

/// `btrfs subvolume create <path>`.
pub open spec fn create_call(path: Seq<char>) -> Call {
    call("btrfs"@).arg("subvolume"@).arg("create"@).arg(path)
}

/// `btrfs subvolume delete <path>`.
pub open spec fn delete_call(path: Seq<char>) -> Call {
    call("btrfs"@).arg("subvolume"@).arg("delete"@).arg(path)
}

/// Whether `path` is a subvolume: whether it can be shown as one.
#[verifier::opaque]
pub open spec fn checking_subvolume(path: Seq<char>) -> Try<bool> {
    then(querying(show_call(path)), |o: Printed| ok(o.success))
}

/// Whether `path` is a subvolume.
pub fn is_subvolume(s: &mut Session, path: &str) -> (r: Result<bool, Stop>)
    ensures
        drive(checking_subvolume(path@), old(s)@) == (final(s)@, shown(r)),
{
    broadcast use group_plan;

    reveal(checking_subvolume);
    let o = query(s, Command::new("btrfs").arg("subvolume").arg("show").arg(path))?;
    Ok(o.success)
}

/// Creates a read-only snapshot.
#[verifier::opaque]
pub open spec fn creating_snapshot(source: Seq<char>, dest: Seq<char>) -> Try<()> {
    commanding(
        Area::Btrfs,
        snapshot_call(source, dest),
        "Failed to create snapshot from "@ + source + " to "@ + dest + ": "@,
    )
}

/// Creates a read-only snapshot of `source` at `dest`.
pub fn create_snapshot(s: &mut Session, source: &str, dest: &str) -> (r: Result<(), Stop>)
    ensures
        drive(creating_snapshot(source@, dest@), old(s)@) == (final(s)@, shown(r)),
{
    reveal(creating_snapshot);
    let msg = cat5("Failed to create snapshot from ", source, " to ", dest, ": ");
    let command = Command::new("btrfs").arg("subvolume").arg("snapshot").arg("-r").arg(source).arg(
        dest,
    );
    must_run(s, Area::Btrfs, command, msg.as_str())
}

/// Creates a read-write snapshot.
#[verifier::opaque]
pub open spec fn creating_snapshot_rw(source: Seq<char>, dest: Seq<char>) -> Try<()> {
    commanding(
        Area::Btrfs,
        snapshot_rw_call(source, dest),
        "Failed to create read-write snapshot from "@ + source + " to "@ + dest + ": "@,
    )
}

/// Creates a read-write snapshot of `source` at `dest`.
pub fn create_snapshot_rw(s: &mut Session, source: &str, dest: &str) -> (r: Result<(), Stop>)
    ensures
        drive(creating_snapshot_rw(source@, dest@), old(s)@) == (final(s)@, shown(r)),
{
    reveal(creating_snapshot_rw);
    let msg = cat5("Failed to create read-write snapshot from ", source, " to ", dest, ": ");
    let command = Command::new("btrfs").arg("subvolume").arg("snapshot").arg(source).arg(dest);
    must_run(s, Area::Btrfs, command, msg.as_str())
}

/// Creates a subvolume.
#[verifier::opaque]
pub open spec fn creating_subvolume(path: Seq<char>) -> Try<()> {
    commanding(
        Area::Btrfs,
        create_call(path),
        "Failed to create subvolume "@ + path + ": "@,
    )
}

/// Creates a subvolume at `path`.
pub fn create_subvolume(s: &mut Session, path: &str) -> (r: Result<(), Stop>)
    ensures
        drive(creating_subvolume(path@), old(s)@) == (final(s)@, shown(r)),
{
    reveal(creating_subvolume);
    let msg = cat3("Failed to create subvolume ", path, ": ");
    let command = Command::new("btrfs").arg("subvolume").arg("create").arg(path);
    must_run(s, Area::Btrfs, command, msg.as_str())
}

/// Deletes a subvolume.
#[verifier::opaque]
pub open spec fn deleting_subvolume(path: Seq<char>) -> Try<()> {
    commanding(
        Area::Btrfs,
        delete_call(path),
        "Failed to delete subvolume "@ + path + ": "@,
    )
}

/// Deletes the subvolume at `path`.
pub fn delete_subvolume(s: &mut Session, path: &str) -> (r: Result<(), Stop>)
    ensures
        drive(deleting_subvolume(path@), old(s)@) == (final(s)@, shown(r)),
{
    reveal(deleting_subvolume);
    let msg = cat3("Failed to delete subvolume ", path, ": ");
    let command = Command::new("btrfs").arg("subvolume").arg("delete").arg(path);
    must_run(s, Area::Btrfs, command, msg.as_str())
}

/// Whether `path` is on a Btrfs filesystem.
#[verifier::opaque]
pub open spec fn checking_filesystem(path: Seq<char>) -> Try<bool> {
    then(
        querying(filesystem_call(path)),
        |o: Printed| ok(o.success),
    )
}

/// Whether `path` is on a Btrfs filesystem.
pub fn is_btrfs_filesystem(s: &mut Session, path: &str) -> (r: Result<bool, Stop>)
    ensures
        drive(checking_filesystem(path@), old(s)@) == (final(s)@, shown(r)),
{
    broadcast use group_plan;

    reveal(checking_filesystem);
    let o = query(s, Command::new("btrfs").arg("filesystem").arg("show").arg(path))?;
    Ok(o.success)
}

/// Moves a subvolume; where there is no subvolume at the new place afterwards, moves it back
/// and fails.
#[verifier::opaque]
pub open spec fn renaming(old_path: Seq<char>, new_path: Seq<char>) -> Try<()> {
    then(
        perform(Ask::Rename { from: old_path, to: new_path }),
        |u: ()|
            then(
                checking_subvolume(new_path),
                |found: bool|
                    if found {
                        ok(())
                    } else {
                        then(
                            ignoring(perform(Ask::Rename { from: new_path, to: old_path })),
                            |u: ()|
                                fail(
                                    Fault::Btrfs(
                                        "Renamed path is not a valid subvolume: "@ + new_path,
                                    ),
                                ),
                        )
                    },
            ),
    )
}

/// Moves a subvolume and checks that it arrived as one.
pub fn rename_subvolume(s: &mut Session, old_path: &str, new_path: &str) -> (r: Result<(), Stop>)
    ensures
        drive(renaming(old_path@, new_path@), old(s)@) == (final(s)@, shown(r)),
{
    broadcast use group_plan;

    reveal(renaming);
    s.perform(Request::Rename { from: old_path.to_owned(), to: new_path.to_owned() })?;
    if is_subvolume(s, new_path)? {
        return Ok(());
    }
    ignore(s.perform(Request::Rename { from: new_path.to_owned(), to: old_path.to_owned() }))?;
    Err(failed(Area::Btrfs, cat2("Renamed path is not a valid subvolume: ", new_path)))
}

/// The command that sends a subvolume, against `parent` where there is one.
pub open spec fn send_call(source: Seq<char>, parent: Option<Seq<char>>) -> Call {
    match parent {
        Some(p) => call("btrfs"@).arg("send"@).arg("-p"@).arg(p).arg(source),
        None => call("btrfs"@).arg("send"@).arg(source),
    }
}

/// The command that sends a subvolume to its standard output.
pub fn send_subvolume_process(source: &str, parent: Option<&str>) -> (r: Command)
    ensures
        r.deep_view() == send_call(source@, parent.deep_view()),
{
    match parent {
        Some(p) => Command::new("btrfs").arg("send").arg("-p").arg(p).arg(source),
        None => Command::new("btrfs").arg("send").arg(source),
    }
}

/// The command that receives a subvolume from its standard input.
pub fn receive_subvolume_process(dest_dir: &str) -> (r: Command)
    ensures
        r.deep_view() == call("btrfs"@).arg("receive"@).arg(dest_dir@),
{
    Command::new("btrfs").arg("receive").arg(dest_dir)
}

/// The size of the pipe buffers and of the blocks that are transferred.
pub const PIPE_BUF_SIZE: usize = 0x10_0000;

/// What became of one attempt to move a block from pipe to pipe.
#[derive(Clone, Copy, PartialEq, Eq, Structural, Debug)]
pub enum Splice {
    /// So many bytes were moved; none at the end of the stream.
    Moved(u64),
    /// The call was interrupted, or would have had to wait.
    Again,
    /// The pipes cannot be joined this way.
    Unsupported,
    /// Any other failure.
    Broken,
}

/// What comes after an attempt.
#[derive(Clone, Copy, PartialEq, Eq, Structural, Debug)]
pub enum SpliceStep {
    /// Go on, with so many bytes moved in all.
    Continue(u64),
    /// The stream has ended, with so many bytes moved in all.
    Finished(u64),
    /// Copy the stream through a buffer instead.
    CopyInstead,
    /// Give up.
    Fail,
}

/// What comes after an attempt that ended in `event`, with `total` bytes moved before it.
pub open spec fn next_splice(total: u64, event: Splice) -> SpliceStep {
    match event {
        Splice::Moved(n) => if n == 0 {
            SpliceStep::Finished(total)
        } else {
            SpliceStep::Continue((total + n) as u64)
        },
        Splice::Again => SpliceStep::Continue(total),
        Splice::Unsupported => SpliceStep::CopyInstead,
        Splice::Broken => SpliceStep::Fail,
    }
}

/// What comes after an attempt to move a block.
pub fn splice_transfer(total: u64, event: Splice) -> (r: SpliceStep)
    requires
        event matches Splice::Moved(n) ==> total + n <= u64::MAX,
    ensures
        r == next_splice(total, event),
{
    match event {
        Splice::Moved(n) => if n == 0 {
            SpliceStep::Finished(total)
        } else {
            SpliceStep::Continue(total + n)
        },
        Splice::Again => SpliceStep::Continue(total),
        Splice::Unsupported => SpliceStep::CopyInstead,
        Splice::Broken => SpliceStep::Fail,
    }
}

/// What comes after a block of `n` bytes was read, and written where it was not empty.
pub fn copy_transfer(total: u64, n: u64) -> (r: SpliceStep)
    requires
        total + n <= u64::MAX,
    ensures
        r == next_splice(total, Splice::Moved(n)),
{
    splice_transfer(total, Splice::Moved(n))
}

/// The piped transfer as it is shown.
pub open spec fn transfer_command_text(
    source: Seq<char>,
    parent: Option<Seq<char>>,
    dest: Seq<char>,
) -> Seq<char> {
    (match parent {
        Some(p) => "btrfs send -p "@ + p + " "@ + source,
        None => "btrfs send "@ + source,
    }) + " | btrfs receive "@ + dest
}

/// The transfer in an answer to `Transfer`.
pub open spec fn sent_in(a: Answer) -> Sent {
    match a {
        Answer::Sent(s) => s,
        Answer::Failed(e) => Sent::Broken(e),
        _ => Sent::Broken(unexpected()),
    }
}

/// What a transfer amounts to: both processes have to succeed.
#[verifier::opaque]
pub open spec fn judging_transfer(source: Seq<char>, dest: Seq<char>, sent: Sent) -> Try<
    TransferStats,
> {
    match sent {
        Sent::Broken(e) => fail(Fault::Io(e)),
        Sent::NoStdout => fail(Fault::Btrfs("Failed to get stdout from send process"@)),
        Sent::NoStdin => fail(Fault::Btrfs("Failed to get stdin for receive process"@)),
        Sent::Ended { stats, send, receive } => if !send.success {
            complaining(Area::Btrfs, "Failed to send subvolume "@ + source + ": "@, send)
        } else if !receive.success {
            complaining(Area::Btrfs, "Failed to receive subvolume to "@ + dest + ": "@, receive)
        } else {
            ok(stats)
        },
    }
}

/// Sends a subvolume and receives it in `dest`.
#[verifier::opaque]
pub open spec fn transferring(
    source: Seq<char>,
    parent: Option<Seq<char>>,
    dest: Seq<char>,
) -> Try<TransferStats> {
    then(
        say(Tone::CmdStart, transfer_command_text(source, parent, dest)),
        |u: ()|
            bind(
                ask(Ask::Transfer { source, parent, dest }),
                |a: Answer| judging_transfer(source, dest, sent_in(a)),
            ),
    )
}

/// A copy of an optional text.
pub fn owned(t: Option<&str>) -> (r: Option<String>)
    ensures
        r.deep_view() == t.deep_view(),
{
    match t {
        Some(x) => Some(x.to_owned()),
        None => None,
    }
}

/// What a transfer amounts to: both processes have to succeed.
pub fn judge_transfer(s: &mut Session, source: &str, dest_dir: &str, sending: &Sending) -> (r:
    Result<TransferStats, Stop>)
    ensures
        drive(judging_transfer(source@, dest_dir@, sending.deep_view()), old(s)@) == (
            final(s)@,
            shown(r),
        ),
{
    broadcast use group_plan;

    reveal(judging_transfer);
    match sending {
        Sending::Broken(e) => Err(Stop::Failed(BackupError::Io(e.duplicate()))),
        Sending::NoStdout => Err(
            failed(Area::Btrfs, "Failed to get stdout from send process".to_owned()),
        ),
        Sending::NoStdin => Err(
            failed(Area::Btrfs, "Failed to get stdin for receive process".to_owned()),
        ),
        Sending::Ended { stats, send, receive } => {
            if !send.success {
                let msg = cat3("Failed to send subvolume ", source, ": ");
                complain(s, Area::Btrfs, msg.as_str(), send)
            } else if !receive.success {
                let msg = cat3("Failed to receive subvolume to ", dest_dir, ": ");
                complain(s, Area::Btrfs, msg.as_str(), receive)
            } else {
                Ok(*stats)
            }
        },
    }
}

/// Sends a subvolume and receives it in `dest_dir`.
pub fn send_and_receive_piped(
    s: &mut Session,
    source: &str,
    parent: Option<&str>,
    dest_dir: &str,
) -> (r: Result<TransferStats, Stop>)
    ensures
        drive(transferring(source@, parent.deep_view(), dest_dir@), old(s)@) == (
            final(s)@,
            shown(r),
        ),
{
    broadcast use group_plan;

    reveal(transferring);
    reveal(judging_transfer);
    let send_part = match parent {
        Some(p) => cat4("btrfs send -p ", p, " ", source),
        None => cat2("btrfs send ", source),
    };
    s.say(Tone::CmdStart, cat3(send_part.as_str(), " | btrfs receive ", dest_dir).as_str())?;
    let request = Request::Transfer {
        source: source.to_owned(),
        parent: owned(parent),
        dest: dest_dir.to_owned(),
    };
    match s.ask(request)? {
        Reply::Sent(sending) => judge_transfer(s, source, dest_dir, sending),
        Reply::Failed(e) => Err(Stop::Failed(BackupError::Io(e.duplicate()))),
        _ => Err(Stop::Failed(BackupError::Io(unexpected_reply()))),
    }
}

/// The number in a line `Subvolume ID: <number>`.
pub open spec fn id_in_line(line: Seq<char>) -> Option<u64> {
    let parts = split_at_char(line, ':');
    if "Subvolume ID:"@.is_prefix_of(trimmed(line)) && parts.len() == 2 {
        match parsed(trimmed(parts[1])) {
            Ok(id) => Some(id),
            Err(_) => None,
        }
    } else {
        None
    }
}

/// The number in the first of the lines from `i` on that gives one.
pub open spec fn first_id(all: Seq<Seq<char>>, i: int) -> Option<u64>
    decreases all.len() - i,
{
    if i < 0 || i >= all.len() {
        None
    } else {
        match id_in_line(all[i]) {
            Some(id) => Some(id),
            None => first_id(all, i + 1),
        }
    }
}

/// The subvolume ID in what `btrfs subvolume show` prints.
pub fn parse_subvolume_id(stdout: &str) -> (r: Option<u64>)
    ensures
        r == first_id(lines_of(stdout@), 0),
{
    let all = lines(stdout);
    let ghost every = lines_of(stdout@);
    let mut i: usize = 0;
    while i < all.len()
        invariant
            i <= all@.len(),
            all.deep_view() == every,
            every == lines_of(stdout@),
            first_id(every, 0) == first_id(every, i as int),
        decreases all@.len() - i,
    {
        let line = all[i].as_str();
        assert(line@ == every[i as int]);
        let clean = trim(line);
        if starts_with(clean.as_str(), "Subvolume ID:") {
            let parts = split(line, ':');
            assert(parts@.len() == split_at_char(line@, ':').len());
            if parts.len() == 2 {
                assert(parts@[1]@ == split_at_char(line@, ':')[1]);
                let id_text = trim(parts[1].as_str());
                if let Ok(id) = parse(id_text.as_str()) {
                    return Some(id);
                }
            }
        }
        i += 1;
    }
    None
}

/// The ID of the subvolume at `path`.
#[verifier::opaque]
pub open spec fn finding_id(path: Seq<char>) -> Try<u64> {
    then(
        querying(show_call(path)),
        |o: Printed|
            if !o.success {
                fail(Fault::Btrfs("Failed to get subvolume info for "@ + path))
            } else {
                match first_id(lines_of(lossy_text(o.stdout)), 0) {
                    Some(id) => ok(id),
                    None => fail(
                        Fault::Btrfs(
                            "Could not parse subvolume ID from output: "@ + lossy_text(o.stdout),
                        ),
                    ),
                }
            },
    )
}

/// The ID of the subvolume at `path`.
pub fn get_subvolume_id(s: &mut Session, path: &str) -> (r: Result<u64, Stop>)
    ensures
        drive(finding_id(path@), old(s)@) == (final(s)@, shown(r)),
{
    broadcast use group_plan;

    reveal(finding_id);
    let o = query(s, Command::new("btrfs").arg("subvolume").arg("show").arg(path))?;
    if !o.success {
        return Err(failed(Area::Btrfs, cat2("Failed to get subvolume info for ", path)));
    }
    let stdout = lossy(&o.stdout);
    match parse_subvolume_id(stdout.as_str()) {
        Some(id) => Ok(id),
        None => Err(
            failed(
                Area::Btrfs,
                cat2("Could not parse subvolume ID from output: ", stdout.as_str()),
            ),
        ),
    }
}

/// The texts of the components that go into a volume name: all but `/` and `.`.
pub open spec fn volume_parts(components: Seq<Seq<char>>) -> Seq<Seq<char>>
    decreases components.len(),
{
    if components.len() == 0 {
        Seq::empty()
    } else if components.last() == "/"@ || components.last() == "."@ {
        volume_parts(components.drop_last())
    } else {
        volume_parts(components.drop_last()).push(components.last())
    }
}

/// The volume name of a path: its parts with `_` between them, or `root`.
pub open spec fn volume_name(path: Seq<char>) -> Seq<char> {
    let parts = volume_parts(components_of(path));
    if parts.len() == 0 {
        "root"@
    } else {
        joined(parts, "_"@)
    }
}

/// The volume name of a path.
pub fn get_volume_name_from_path(path: &str) -> (r: String)
    ensures
        r@ == volume_name(path@),
{
    let c = components(path);
    let ghost all = components_of(path@);
    let mut parts: Vec<String> = Vec::new();
    let mut i: usize = 0;
    assert(all.take(0) =~= Seq::<Seq<char>>::empty());
    while i < c.len()
        invariant
            i <= c@.len(),
            c.deep_view() == all,
            parts.deep_view() =~= volume_parts(all.take(i as int)),
        decreases c@.len() - i,
    {
        let ghost before = parts.deep_view();
        assert(c@[i as int]@ == all[i as int]);
        assert(all.take(i + 1).drop_last() =~= all.take(i as int));
        if !same(c[i].as_str(), "/") && !same(c[i].as_str(), ".") {
            parts.push(c[i].clone());
            assert(parts.deep_view() =~= before.push(all[i as int]));
        }
        i += 1;
    }
    assert(all.take(i as int) =~= all);
    if parts.len() == 0 {
        "root".to_owned()
    } else {
        join_texts(&parts, "_")
    }
}

/// The name of the subvolume that backs a path up.
pub open spec fn subvolume_name(path: Seq<char>) -> Seq<char> {
    volume_name(path) + "_vol"@
}

/// The name of the subvolume that backs a path up.
pub fn get_subvolume_name_with_suffix(path: &str) -> (r: String)
    ensures
        r@ == subvolume_name(path@),
{
    get_volume_name_from_path(path).concat("_vol")
}

/// The texts that go into a volume name are not empty and hold no separator.
proof fn lemma_volume_parts(components: Seq<Seq<char>>)
    requires
        forall|i: int|
            0 <= i < components.len() ==> {
                let c = #[trigger] components[i];
                c == "/"@ || c.len() > 0 && !c.contains('/')
            },
    ensures
        forall|i: int|
            0 <= i < volume_parts(components).len() ==> {
                let c = #[trigger] volume_parts(components)[i];
                c.len() > 0 && !c.contains('/')
            },
    decreases components.len(),
{
    if components.len() > 0 {
        let rest = components.drop_last();
        assert forall|i: int| 0 <= i < rest.len() implies {
            let c = #[trigger] rest[i];
            c == "/"@ || c.len() > 0 && !c.contains('/')
        } by {
            assert(rest[i] == components[i]);
        }
        lemma_volume_parts(rest);
        let all = volume_parts(components);
        assert forall|i: int| 0 <= i < all.len() implies {
            let c = #[trigger] all[i];
            c.len() > 0 && !c.contains('/')
        } by {
            if i < volume_parts(rest).len() {
                assert(all[i] == volume_parts(rest)[i]);
            } else {
                assert(components[components.len() - 1] == components.last());
            }
        }
    }
}

/// Texts without separators are joined to one without.
proof fn lemma_joined_parts(parts: Seq<Seq<char>>)
    requires
        parts.len() > 0,
        forall|i: int|
            0 <= i < parts.len() ==> {
                let c = #[trigger] parts[i];
                c.len() > 0 && !c.contains('/')
            },
    ensures
        joined(parts, "_"@).len() > 0,
        !joined(parts, "_"@).contains('/'),
    decreases parts.len(),
{
    if parts.len() > 1 {
        let rest = parts.drop_last();
        assert forall|i: int| 0 <= i < rest.len() implies {
            let c = #[trigger] rest[i];
            c.len() > 0 && !c.contains('/')
        } by {
            assert(rest[i] == parts[i]);
        }
        lemma_joined_parts(rest);
        reveal_strlit("_");
        let a = joined(rest, "_"@);
        let b = parts[parts.len() - 1];
        let all = a + "_"@ + b;
        assert forall|i: int| 0 <= i < all.len() implies all[i] != '/' by {
            if i < a.len() {
                assert(a.contains(a[i]));
            } else if i > a.len() {
                assert(b.contains(b[i - a.len() - 1]));
            }
        }
    } else {
        assert(joined(parts, "_"@) == parts[0]);
    }
}

/// Every path has a subvolume name that ends in `_vol` and can stand in a directory.
pub proof fn lemma_subvolume_name(path: Seq<char>)
    ensures
        is_plain(subvolume_name(path)),
        "_vol"@.is_suffix_of(subvolume_name(path)),
{
    lemma_components(path);
    let parts = volume_parts(components_of(path));
    lemma_volume_parts(components_of(path));
    reveal_strlit("_vol");
    reveal_strlit("root");
    reveal_strlit(".");
    let stem = volume_name(path);
    if parts.len() > 0 {
        lemma_joined_parts(parts);
    }
    let all = subvolume_name(path);
    assert forall|i: int| 0 <= i < all.len() implies all[i] != '/' by {
        if i < stem.len() {
            assert(stem.contains(stem[i]));
            assert(all[i] == stem[i]);
        } else {
            assert(all[i] == "_vol"@[i - stem.len()]);
        }
    }
    assert(all.len() > 1);
    assert(all.subrange(stem.len() as int, all.len() as int) =~= "_vol"@);
}

/// The last component of a path has to be a name.
pub open spec fn naming(path: Seq<char>) -> Result<Seq<char>, Fault> {
    match file_name_of(path) {
        Some(name) => Ok(name),
        None => Err(Fault::Btrfs("Path has no file name: "@ + path)),
    }
}

/// The name of the subvolume at `path`: its last component.
pub fn get_subvolume_name(path: &str) -> (r: Result<String, BackupError>)
    ensures
        match r {
            Ok(name) => naming(path@) == Ok::<Seq<char>, Fault>(name@),
            Err(e) => naming(path@) == Err::<Seq<char>, Fault>(e.deep_view()),
        },
{
    match file_name(path) {
        Some(name) => Ok(name),
        None => Err(BackupError::Btrfs(cat2("Path has no file name: ", path))),
    }
}

/// The names in an answer to `ReadDir`, and the failure that ended them early.
pub open spec fn entries_in(a: Answer) -> Result<(Seq<Seq<u8>>, Option<IoFault>), IoFault> {
    match a {
        Answer::Entries { names, failure } => Ok((names, failure)),
        Answer::Failed(e) => Err(e),
        _ => Err(unexpected()),
    }
}

/// Adds the subvolumes among the paths from `i` on to `found`.
pub open spec fn collecting_subvolumes(
    paths: Seq<Seq<char>>,
    i: int,
    found: Seq<Seq<char>>,
) -> Try<Seq<Seq<char>>>
    decreases paths.len() - i,
{
    if i < 0 || i >= paths.len() {
        ok(found)
    } else {
        then(
            checking_subvolume(paths[i]),
            |yes: bool|
                collecting_subvolumes(
                    paths,
                    i + 1,
                    if yes {
                        found.push(paths[i])
                    } else {
                        found
                    },
                ),
        )
    }
}

/// The time in an answer to `ModifiedAt`.
pub open spec fn stamp_in(a: Answer) -> Option<i128> {
    match a {
        Answer::Stamp(t) => t,
        _ => None,
    }
}

/// Adds the modification times of the paths from `i` on to `times`.
pub open spec fn dating(paths: Seq<Seq<char>>, i: int, times: Seq<Option<i128>>) -> Try<
    Seq<Option<i128>>,
>
    decreases paths.len() - i,
{
    if i < 0 || i >= paths.len() {
        ok(times)
    } else {
        bind(
            ask(Ask::ModifiedAt(paths[i])),
            |a: Answer| dating(paths, i + 1, times.push(stamp_in(a))),
        )
    }
}

/// `a` is later than `b`; an unknown time is earlier than any other.
pub open spec fn later(a: Option<i128>, b: Option<i128>) -> bool {
    match (a, b) {
        (Some(x), Some(y)) => x > y,
        (Some(_), None) => true,
        (None, _) => false,
    }
}

/// The position of the latest time, the first of them where several are equal.
pub open spec fn latest(times: Seq<Option<i128>>) -> int
    decreases times.len(),
{
    if times.len() <= 1 {
        0
    } else {
        let k = latest(times.drop_last());
        if later(times.last(), times[k]) {
            times.len() - 1
        } else {
            k
        }
    }
}

/// No time is later than the one at [`latest`], and every one before it is earlier.
pub proof fn lemma_latest(times: Seq<Option<i128>>)
    requires
        times.len() > 0,
    ensures
        0 <= latest(times) < times.len(),
        forall|j: int| 0 <= j < times.len() ==> !later(#[trigger] times[j], times[latest(times)]),
        forall|j: int| 0 <= j < latest(times) ==> later(times[latest(times)], #[trigger] times[j]),
    decreases times.len(),
{
    if times.len() > 1 {
        let front = times.drop_last();
        lemma_latest(front);
        let k = latest(front);
        let best = latest(times);
        assert forall|j: int| 0 <= j < times.len() implies !later(
            #[trigger] times[j],
            times[best],
        ) by {
            if j < front.len() {
                assert(!later(front[j], front[k]));
            }
        }
        assert forall|j: int| 0 <= j < best implies later(times[best], #[trigger] times[j]) by {
            assert(!later(front[j], front[k]));
            if best == k {
                assert(later(front[k], front[j]));
            }
        }
    }
}

/// The latest of several snapshots.
#[verifier::opaque]
pub open spec fn choosing_latest(snapshots: Seq<Seq<char>>) -> Try<Option<Seq<char>>> {
    if snapshots.len() == 0 {
        ok(None)
    } else if snapshots.len() == 1 {
        ok(Some(snapshots[0]))
    } else {
        then(
            dating(snapshots, 0, Seq::empty()),
            |times: Seq<Option<i128>>| ok(Some(snapshots[latest(times)])),
        )
    }
}

/// The latest snapshot in a directory, where there is one.
#[verifier::opaque]
pub open spec fn finding_latest(dir: Seq<char>) -> Try<Option<Seq<char>>> {
    then(
        present(dir),
        |there: bool|
            if !there {
                ok(None)
            } else {
                bind(
                    ask(Ask::ReadDir(dir)),
                    |a: Answer|
                        match entries_in(a) {
                            Err(e) => fail(Fault::Io(e)),
                            Ok((names, failure)) => then(
                                collecting_subvolumes(entry_paths(dir, names), 0, Seq::empty()),
                                |snapshots: Seq<Seq<char>>|
                                    match failure {
                                        Some(e) => fail(Fault::Io(e)),
                                        None => choosing_latest(snapshots),
                                    },
                            ),
                        },
                )
            },
    )
}

/// The subvolumes among `paths`.
fn collect_subvolumes(s: &mut Session, paths: &Vec<String>) -> (r: Result<Vec<String>, Stop>)
    ensures
        drive(collecting_subvolumes(paths.deep_view(), 0, Seq::empty()), old(s)@) == (
            final(s)@,
            shown(r),
        ),
{
    broadcast use group_plan;

    let ghost all = paths.deep_view();
    let mut found: Vec<String> = Vec::new();
    let mut i: usize = 0;
    assert(found.deep_view() =~= Seq::<Seq<char>>::empty());
    while i < paths.len()
        invariant
            i <= paths@.len(),
            all == paths.deep_view(),
            drive(collecting_subvolumes(all, 0, Seq::empty()), old(s)@) == drive(
                collecting_subvolumes(all, i as int, found.deep_view()),
                s@,
            ),
        decreases paths@.len() - i,
    {
        broadcast use group_plan;

        let ghost before = found.deep_view();
        assert(paths@[i as int]@ == all[i as int]);
        if is_subvolume(s, paths[i].as_str())? {
            found.push(paths[i].clone());
            assert(found.deep_view() =~= before.push(all[i as int]));
        }
        i += 1;
    }
    Ok(found)
}

/// The modification times of `paths`.
fn date(s: &mut Session, paths: &Vec<String>) -> (r: Result<Vec<Option<i128>>, Stop>)
    ensures
        drive(dating(paths.deep_view(), 0, Seq::empty()), old(s)@) == (final(s)@, shown(r)),
        r matches Ok(times) ==> times@.len() == paths@.len(),
{
    broadcast use group_plan;

    let ghost all = paths.deep_view();
    let mut times: Vec<Option<i128>> = Vec::new();
    let mut i: usize = 0;
    assert(times.deep_view() =~= Seq::<Option<i128>>::empty());
    while i < paths.len()
        invariant
            i <= paths@.len(),
            times@.len() == i,
            all == paths.deep_view(),
            drive(dating(all, 0, Seq::empty()), old(s)@) == drive(
                dating(all, i as int, times.deep_view()),
                s@,
            ),
        decreases paths@.len() - i,
    {
        broadcast use group_plan;

        let ghost before = times.deep_view();
        assert(paths@[i as int]@ == all[i as int]);
        let t: Option<i128> = match s.ask(Request::ModifiedAt(paths[i].clone()))? {
            Reply::Stamp(t) => *t,
            _ => None,
        };
        times.push(t);
        assert(times.deep_view() =~= before.push(t));
        i += 1;
    }
    Ok(times)
}

/// The position of the latest time, the first of them where several are equal.
fn latest_of(times: &Vec<Option<i128>>) -> (r: usize)
    requires
        times@.len() > 0,
    ensures
        r == latest(times.deep_view()),
        r < times@.len(),
{
    let ghost all = times.deep_view();
    let mut best: usize = 0;
    let mut i: usize = 1;
    while i < times.len()
        invariant
            1 <= i <= times@.len(),
            best < i,
            all == times.deep_view(),
            best == latest(all.take(i as int)),
        decreases times@.len() - i,
    {
        assert(all.take(i + 1).drop_last() =~= all.take(i as int));
        assert(all[i as int] == times@[i as int] && all[best as int] == times@[best as int]);
        let newer = match (times[i], times[best]) {
            (Some(x), Some(y)) => x > y,
            (Some(_), None) => true,
            (None, _) => false,
        };
        if newer {
            best = i;
        }
        i += 1;
    }
    assert(all.take(i as int) =~= all);
    best
}

/// The latest of several snapshots.
fn choose_latest(s: &mut Session, snapshots: Vec<String>) -> (r: Result<Option<String>, Stop>)
    ensures
        drive(choosing_latest(snapshots.deep_view()), old(s)@) == (final(s)@, shown(r)),
{
    broadcast use group_plan;

    reveal(choosing_latest);
    if snapshots.len() == 0 {
        return Ok(None);
    }
    if snapshots.len() == 1 {
        return Ok(Some(snapshots[0].clone()));
    }
    let times = date(s, &snapshots)?;
    let k = latest_of(&times);
    Ok(Some(snapshots[k].clone()))
}

/// The latest snapshot in a directory, where there is one.
pub fn find_latest_snapshot(s: &mut Session, snapshot_dir: &str) -> (r: Result<
    Option<String>,
    Stop,
>)
    ensures
        drive(finding_latest(snapshot_dir@), old(s)@) == (final(s)@, shown(r)),
{
    broadcast use group_plan;

    reveal(finding_latest);
    if !s.present(snapshot_dir)? {
        return Ok(None);
    }
    match s.ask(Request::ReadDir(snapshot_dir.to_owned()))? {
        Reply::Entries { names, failure } => {
            let paths = paths_of_entries(snapshot_dir, names);
            let snapshots = collect_subvolumes(s, &paths)?;
            match failure {
                Some(e) => Err(Stop::Failed(BackupError::Io(e.duplicate()))),
                None => choose_latest(s, snapshots),
            }
        },
        Reply::Failed(e) => Err(Stop::Failed(BackupError::Io(e.duplicate()))),
        _ => Err(Stop::Failed(BackupError::Io(unexpected_reply()))),
    }
}

/// A path that can be replaced, taken apart: its parent directory and its name.
pub open spec fn place_of(target: Seq<char>) -> Result<(Seq<char>, Seq<char>), Fault> {
    match (parent_of(target), file_name_of(target)) {
        (None, _) => Err(Fault::Btrfs("Target path has no parent directory"@)),
        (Some(_), None) => Err(Fault::Btrfs("Target path has no file name"@)),
        (Some(dir), Some(name)) => Ok((dir, name)),
    }
}

/// Where the replacement is prepared.
pub open spec fn new_place(dir: Seq<char>, name: Seq<char>) -> Seq<char> {
    joined_path(dir, name + ".new"@)
}

/// Where the replaced subvolume is kept.
pub open spec fn backup_place(dir: Seq<char>, name: Seq<char>, suffix: Seq<char>) -> Seq<char> {
    joined_path(dir, name + "."@ + suffix)
}

/// Moves the subvolume at `target`, where there is one, out of the way.
#[verifier::opaque]
pub open spec fn setting_aside(target: Seq<char>, backup: Seq<char>) -> Try<bool> {
    then(
        present(target),
        |there: bool|
            if there {
                then(renaming(target, backup), |u: ()| ok(true))
            } else {
                ok(false)
            },
    )
}

/// Moves what stands at `new` to `target`. Where that fails, moves the subvolume that was set
/// aside back, deletes what stands at `new`, and fails.
#[verifier::opaque]
pub open spec fn installing(
    new: Seq<char>,
    target: Seq<char>,
    aside: bool,
    backup: Seq<char>,
) -> Try<()> {
    bind(
        renaming(new, target),
        |r: Result<(), Fault>|
            match r {
                Ok(_) => ok(()),
                Err(e) => then(
                    if aside {
                        ignoring(renaming(backup, target))
                    } else {
                        ok(())
                    },
                    |u: ()| then(ignoring(deleting_subvolume(new)), |u: ()| fail(e)),
                ),
            },
    )
}

/// Deletes the subvolume that was set aside, where one was.
#[verifier::opaque]
pub open spec fn discarding(aside: bool, backup: Seq<char>) -> Try<()> {
    if aside {
        deleting_subvolume(backup)
    } else {
        ok(())
    }
}

/// Replaces `target` by a read-write snapshot of `source`: the snapshot is made beside it,
/// the old subvolume is set aside, the snapshot takes its place, and the old one is deleted.
#[verifier::opaque]
pub open spec fn replacing_by_snapshot(
    target: Seq<char>,
    source: Seq<char>,
    suffix: Seq<char>,
) -> Try<()> {
    match place_of(target) {
        Err(e) => fail(e),
        Ok((dir, name)) => then(
            creating_snapshot_rw(source, new_place(dir, name)),
            |u: ()|
                then(
                    setting_aside(target, backup_place(dir, name, suffix)),
                    |aside: bool|
                        then(
                            installing(
                                new_place(dir, name),
                                target,
                                aside,
                                backup_place(dir, name, suffix),
                            ),
                            |u: ()| discarding(aside, backup_place(dir, name, suffix)),
                        ),
                ),
        ),
    }
}

/// Replaces `target` by the subvolume at `source`, which is moved.
#[verifier::opaque]
pub open spec fn replacing_by_move(
    target: Seq<char>,
    source: Seq<char>,
    suffix: Seq<char>,
) -> Try<()> {
    match place_of(target) {
        Err(e) => fail(e),
        Ok((dir, name)) => then(
            renaming(source, new_place(dir, name)),
            |u: ()|
                then(
                    setting_aside(target, backup_place(dir, name, suffix)),
                    |aside: bool|
                        then(
                            renaming(new_place(dir, name), target),
                            |u: ()| discarding(aside, backup_place(dir, name, suffix)),
                        ),
                ),
        ),
    }
}

/// A path that can be replaced, taken apart.
fn place(target: &str) -> (r: Result<(String, String), Stop>)
    ensures
        shown(r) == Some(place_of(target@)),
{
    let dir = match parent(target) {
        Some(dir) => dir,
        None => return Err(
            failed(Area::Btrfs, "Target path has no parent directory".to_owned()),
        ),
    };
    match file_name(target) {
        Some(name) => Ok((dir, name)),
        None => Err(failed(Area::Btrfs, "Target path has no file name".to_owned())),
    }
}

/// Moves the subvolume at `target`, where there is one, out of the way.
fn set_aside(s: &mut Session, target: &str, backup: &str) -> (r: Result<bool, Stop>)
    ensures
        drive(setting_aside(target@, backup@), old(s)@) == (final(s)@, shown(r)),
{
    broadcast use group_plan;

    reveal(setting_aside);
    if s.present(target)? {
        rename_subvolume(s, target, backup)?;
        Ok(true)
    } else {
        Ok(false)
    }
}

/// Moves what stands at `new` to `target`, or restores what was set aside.
fn install(s: &mut Session, new: &str, target: &str, aside: bool, backup: &str) -> (r: Result<
    (),
    Stop,
>)
    ensures
        drive(installing(new@, target@, aside, backup@), old(s)@) == (final(s)@, shown(r)),
{
    broadcast use group_plan;

    reveal(installing);
    match rename_subvolume(s, new, target) {
        Ok(_) => Ok(()),
        Err(Stop::Pending) => Err(Stop::Pending),
        Err(Stop::Failed(e)) => {
            if aside {
                ignore(rename_subvolume(s, backup, target))?;
            }
            ignore(delete_subvolume(s, new))?;
            Err(Stop::Failed(e))
        },
    }
}

/// Deletes the subvolume that was set aside, where one was.
fn discard(s: &mut Session, aside: bool, backup: &str) -> (r: Result<(), Stop>)
    ensures
        drive(discarding(aside, backup@), old(s)@) == (final(s)@, shown(r)),
{
    broadcast use group_plan;

    reveal(discarding);
    if aside {
        delete_subvolume(s, backup)
    } else {
        Ok(())
    }
}

/// Replaces the subvolume at `target_path` by a read-write snapshot of `snapshot_source`.
pub fn snapshot_and_replace_safely(
    s: &mut Session,
    target_path: &str,
    snapshot_source: &str,
    backup_suffix: &str,
) -> (r: Result<(), Stop>)
    ensures
        drive(
            replacing_by_snapshot(target_path@, snapshot_source@, backup_suffix@),
            old(s)@,
        ) == (final(s)@, shown(r)),
{
    broadcast use group_plan;

    reveal(replacing_by_snapshot);
    let (dir, name) = place(target_path)?;
    let new_path = join(dir.as_str(), cat2(name.as_str(), ".new").as_str());
    let backup = join(dir.as_str(), cat3(name.as_str(), ".", backup_suffix).as_str());
    create_snapshot_rw(s, snapshot_source, new_path.as_str())?;
    let aside = set_aside(s, target_path, backup.as_str())?;
    install(s, new_path.as_str(), target_path, aside, backup.as_str())?;
    discard(s, aside, backup.as_str())
}

/// Replaces the subvolume at `target_path` by the one at `source_path`, which is moved.
pub fn move_and_replace_safely(
    s: &mut Session,
    target_path: &str,
    source_path: &str,
    backup_suffix: &str,
) -> (r: Result<(), Stop>)
    ensures
        drive(replacing_by_move(target_path@, source_path@, backup_suffix@), old(s)@) == (
            final(s)@,
            shown(r),
        ),
{
    broadcast use group_plan;

    reveal(replacing_by_move);
    let (dir, name) = place(target_path)?;
    let new_path = join(dir.as_str(), cat2(name.as_str(), ".new").as_str());
    let backup = join(dir.as_str(), cat3(name.as_str(), ".", backup_suffix).as_str());
    rename_subvolume(s, source_path, new_path.as_str())?;
    let aside = set_aside(s, target_path, backup.as_str())?;
    rename_subvolume(s, new_path.as_str(), target_path)?;
    discard(s, aside, backup.as_str())
}

/// Creates a directory where it does not exist.
#[verifier::opaque]
pub open spec fn ensuring_dir(dir: Seq<char>) -> Try<()> {
    then(
        present(dir),
        |there: bool|
            if there {
                ok(())
            } else {
                perform(Ask::CreateDirAll(dir))
            },
    )
}

/// Creates a directory where it does not exist.
pub fn ensure_dir(s: &mut Session, dir: &str) -> (r: Result<(), Stop>)
    ensures
        drive(ensuring_dir(dir@), old(s)@) == (final(s)@, shown(r)),
{
    broadcast use group_plan;

    reveal(ensuring_dir);
    if s.present(dir)? {
        Ok(())
    } else {
        s.perform(Request::CreateDirAll(dir.to_owned()))
    }
}

/// The places that a received subvolume and those in its way go through.
pub struct Swap {
    /// Where the subvolume has to stand in the end.
    pub target: Seq<char>,
    /// Where the old subvolume is kept meanwhile.
    pub backup: Seq<char>,
    /// Whether there is an old subvolume.
    pub aside: bool,
    /// Where the subvolume is received.
    pub received: Seq<char>,
    /// Where a subvolume with the name of the received one is kept meanwhile.
    pub parked: Option<Seq<char>>,
}

/// Moves the subvolumes that were in the way back, as far as that works.
#[verifier::opaque]
pub open spec fn restoring(w: Swap) -> Try<()> {
    then(
        if w.aside {
            ignoring(renaming(w.backup, w.target))
        } else {
            ok(())
        },
        |u: ()|
            match w.parked {
                Some(p) => ignoring(renaming(p, w.received)),
                None => ok(()),
            },
    )
}

/// Deletes the old subvolume and moves the parked one back.
#[verifier::opaque]
pub open spec fn clearing_up(w: Swap, stats: TransferStats) -> Try<TransferStats> {
    then(
        discarding(w.aside, w.backup),
        |u: ()|
            then(
                match w.parked {
                    Some(p) => renaming(p, w.received),
                    None => ok(()),
                },
                |u: ()| ok(stats),
            ),
    )
}

/// Puts a received subvolume in its place.
#[verifier::opaque]
pub open spec fn settling(w: Swap, rename: bool, stats: TransferStats) -> Try<TransferStats> {
    then(
        checking_subvolume(w.received),
        |there: bool|
            if !there {
                then(
                    restoring(w),
                    |u: ()|
                        fail(
                            Fault::Btrfs(
                                "Subvolume not received at expected location: "@ + w.received,
                            ),
                        ),
                )
            } else if rename {
                bind(
                    renaming(w.received, w.target),
                    |r: Result<(), Fault>|
                        match r {
                            Ok(_) => clearing_up(w, stats),
                            Err(e) => then(
                                ignoring(deleting_subvolume(w.received)),
                                |u: ()| then(restoring(w), |u: ()| fail(e)),
                            ),
                        },
                )
            } else {
                clearing_up(w, stats)
            },
    )
}

/// Transfers a subvolume and puts it in its place; a failed transfer leaves everything as it
/// was, as far as moving back works.
pub open spec fn swapping(
    w: Swap,
    rename: bool,
    source: Seq<char>,
    parent: Option<Seq<char>>,
    dest: Seq<char>,
) -> Try<TransferStats> {
    bind(
        transferring(source, parent, dest),
        |r: Result<TransferStats, Fault>|
            match r {
                Ok(stats) => settling(w, rename, stats),
                Err(e) => then(restoring(w), |u: ()| fail(e)),
            },
    )
}

/// Moves the subvolumes that are in the way aside.
#[verifier::opaque]
pub open spec fn making_room(w: Swap) -> Try<()> {
    then(
        if w.aside {
            renaming(w.target, w.backup)
        } else {
            ok(())
        },
        |u: ()|
            match w.parked {
                Some(p) => renaming(w.received, p),
                None => ok(()),
            },
    )
}

/// The places for a subvolume with the name `base` that is to be called `name`.
pub open spec fn swap_places(
    dest: Seq<char>,
    name: Seq<char>,
    base: Seq<char>,
    suffix: Seq<char>,
    aside: bool,
    conflict: bool,
) -> Swap {
    Swap {
        target: joined_path(dest, name),
        backup: joined_path(dest, name + "."@ + suffix),
        aside,
        received: joined_path(dest, base),
        parked: if conflict {
            Some(joined_path(dest, base + ".conflict"@))
        } else {
            None
        },
    }
}

/// Receives `source` as `name` in the directory `dest`, replacing what stands there.
#[verifier::opaque]
pub open spec fn receiving_as(
    source: Seq<char>,
    parent: Option<Seq<char>>,
    dest: Seq<char>,
    suffix: Seq<char>,
    name: Seq<char>,
    base: Seq<char>,
) -> Try<TransferStats> {
    then(
        checking_subvolume(joined_path(dest, name)),
        |aside: bool|
            then(
                if base != name {
                    checking_subvolume(joined_path(dest, base))
                } else {
                    ok(false)
                },
                |conflict: bool|
                    then(
                        making_room(swap_places(dest, name, base, suffix, aside, conflict)),
                        |u: ()|
                            swapping(
                                swap_places(dest, name, base, suffix, aside, conflict),
                                base != name,
                                source,
                                parent,
                                dest,
                            ),
                    ),
            ),
    )
}

/// Sends `source` to the directory `dest`, where it replaces the subvolume with the name
/// `target_name` or, without one, the subvolume with its own name.
#[verifier::opaque]
pub open spec fn replacing_by_send(
    source: Seq<char>,
    parent: Option<Seq<char>>,
    dest: Seq<char>,
    suffix: Seq<char>,
    target_name: Option<Seq<char>>,
) -> Try<TransferStats> {
    match (target_name, naming(source)) {
        (None, Err(e)) => fail(e),
        (_, base) => then(
            ensuring_dir(dest),
            |u: ()|
                match base {
                    Err(e) => fail(e),
                    Ok(base) => receiving_as(
                        source,
                        parent,
                        dest,
                        suffix,
                        match target_name {
                            Some(name) => name,
                            None => base,
                        },
                        base,
                    ),
                },
        ),
    }
}

/// The places that a received subvolume and those in its way go through.
struct Places {
    target: String,
    backup: String,
    aside: bool,
    received: String,
    parked: Option<String>,
}

impl DeepView for Places {
    type V = Swap;

    closed spec fn deep_view(&self) -> Swap {
        Swap {
            target: self.target@,
            backup: self.backup@,
            aside: self.aside,
            received: self.received@,
            parked: self.parked.deep_view(),
        }
    }
}

/// Moves the subvolumes that were in the way back, as far as that works.
fn restore_renamed(s: &mut Session, w: &Places) -> (r: Result<(), Stop>)
    ensures
        drive(restoring(w.deep_view()), old(s)@) == (final(s)@, shown(r)),
{
    broadcast use group_plan;

    reveal(restoring);
    if w.aside {
        ignore(rename_subvolume(s, w.backup.as_str(), w.target.as_str()))?;
    }
    match &w.parked {
        Some(p) => ignore(rename_subvolume(s, p.as_str(), w.received.as_str())),
        None => Ok(()),
    }
}

/// Deletes the old subvolume and moves the parked one back.
fn clear_up(s: &mut Session, w: &Places, stats: TransferStats) -> (r: Result<TransferStats, Stop>)
    ensures
        drive(clearing_up(w.deep_view(), stats), old(s)@) == (final(s)@, shown(r)),
{
    broadcast use group_plan;

    reveal(clearing_up);
    discard(s, w.aside, w.backup.as_str())?;
    match &w.parked {
        Some(p) => {
            rename_subvolume(s, p.as_str(), w.received.as_str())?;
        },
        None => {},
    }
    Ok(stats)
}

/// Puts a received subvolume in its place.
fn settle(s: &mut Session, w: &Places, rename: bool, stats: TransferStats) -> (r: Result<
    TransferStats,
    Stop,
>)
    ensures
        drive(settling(w.deep_view(), rename, stats), old(s)@) == (final(s)@, shown(r)),
{
    broadcast use group_plan;

    reveal(settling);
    if !is_subvolume(s, w.received.as_str())? {
        restore_renamed(s, w)?;
        return Err(
            failed(
                Area::Btrfs,
                cat2("Subvolume not received at expected location: ", w.received.as_str()),
            ),
        );
    }
    if rename {
        match rename_subvolume(s, w.received.as_str(), w.target.as_str()) {
            Ok(_) => {},
            Err(Stop::Pending) => return Err(Stop::Pending),
            Err(Stop::Failed(e)) => {
                ignore(delete_subvolume(s, w.received.as_str()))?;
                restore_renamed(s, w)?;
                return Err(Stop::Failed(e));
            },
        }
    }
    clear_up(s, w, stats)
}

/// Moves the subvolumes that are in the way aside.
fn make_room(s: &mut Session, w: &Places) -> (r: Result<(), Stop>)
    ensures
        drive(making_room(w.deep_view()), old(s)@) == (final(s)@, shown(r)),
{
    broadcast use group_plan;

    reveal(making_room);
    if w.aside {
        rename_subvolume(s, w.target.as_str(), w.backup.as_str())?;
    }
    match &w.parked {
        Some(p) => rename_subvolume(s, w.received.as_str(), p.as_str()),
        None => Ok(()),
    }
}

/// Receives `source` as `name` in the directory `dest`, replacing what stands there.
fn receive_as(
    s: &mut Session,
    source: &str,
    parent: Option<&str>,
    dest: &str,
    suffix: &str,
    name: &str,
    base: &str,
) -> (r: Result<TransferStats, Stop>)
    ensures
        drive(
            receiving_as(source@, parent.deep_view(), dest@, suffix@, name@, base@),
            old(s)@,
        ) == (final(s)@, shown(r)),
{
    broadcast use group_plan;

    reveal(receiving_as);
    let target = join(dest, name);
    let received = join(dest, base);
    let rename = !same(base, name);
    let aside = is_subvolume(s, target.as_str())?;
    let conflict = if rename {
        is_subvolume(s, received.as_str())?
    } else {
        false
    };
    let w = Places {
        target,
        backup: join(dest, cat3(name, ".", suffix).as_str()),
        aside,
        received,
        parked: if conflict {
            Some(join(dest, cat2(base, ".conflict").as_str()))
        } else {
            None
        },
    };
    make_room(s, &w)?;
    match send_and_receive_piped(s, source, parent, dest) {
        Ok(stats) => settle(s, &w, rename, stats),
        Err(Stop::Pending) => Err(Stop::Pending),
        Err(Stop::Failed(e)) => {
            restore_renamed(s, &w)?;
            Err(Stop::Failed(e))
        },
    }
}

/// Sends `source` to the directory `dest_dir`, where it replaces the subvolume with the name
/// `target_name` or, without one, the subvolume with its own name.
pub fn send_and_replace_safely(
    s: &mut Session,
    source: &str,
    parent: Option<&str>,
    dest_dir: &str,
    backup_suffix: &str,
    target_name: Option<&str>,
) -> (r: Result<TransferStats, Stop>)
    ensures
        drive(
            replacing_by_send(
                source@,
                parent.deep_view(),
                dest_dir@,
                backup_suffix@,
                target_name.deep_view(),
            ),
            old(s)@,
        ) == (final(s)@, shown(r)),
{
    broadcast use group_plan;

    reveal(replacing_by_send);
    let base = get_subvolume_name(source);
    let name = match (target_name, &base) {
        (Some(name), _) => name.to_owned(),
        (None, Ok(base)) => base.clone(),
        (None, Err(_)) => String::new(),
    };
    match (target_name, base) {
        (None, Err(e)) => Err(Stop::Failed(e)),
        (_, base) => {
            ensure_dir(s, dest_dir)?;
            match base {
                Err(e) => Err(Stop::Failed(e)),
                Ok(base) => receive_as(
                    s,
                    source,
                    parent,
                    dest_dir,
                    backup_suffix,
                    name.as_str(),
                    base.as_str(),
                ),
            }
        },
    }
}

}
