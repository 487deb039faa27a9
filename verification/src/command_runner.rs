//! Running programs: what is shown before, and what becomes of a failure.

use crate::error::{BackupError, Fault};
#[allow(unused_imports)]
use crate::journal::{
    bind, drive, fail, group_plan, ok, run, say, shown, then, Call, Command, Output, Printed,
    Session, Stop, Tone, Try,
};
use crate::text::{cat2, lossy, lossy_text};
use crate::ui::{command_text, format_cmd};
use vstd::prelude::*;

verus! {

/// The part of the tool that a failure belongs to.
#[derive(Clone, Copy, PartialEq, Eq, Structural, Debug)]
pub enum Area {
    Btrfs,
    Mount,
    Bootloader,
    Hook,
}

/// The fault of an area.
pub open spec fn fault_in(area: Area, msg: Seq<char>) -> Fault {
    match area {
        Area::Btrfs => Fault::Btrfs(msg),
        Area::Mount => Fault::Mount(msg),
        Area::Bootloader => Fault::Bootloader(msg),
        Area::Hook => Fault::Hook(msg),
    }
}

/// The failure of an area.
pub fn failed(area: Area, msg: String) -> (r: Stop)
    ensures
        r matches Stop::Failed(e) && e.deep_view() == fault_in(area, msg@),
{
    Stop::Failed(
        match area {
            Area::Btrfs => BackupError::Btrfs(msg),
            Area::Mount => BackupError::Mount(msg),
            Area::Bootloader => BackupError::Bootloader(msg),
            Area::Hook => BackupError::Hook(msg),
        },
    )
}

/// Announces a command and runs it.
#[verifier::opaque]
pub open spec fn launching(c: Call) -> Try<Printed> {
    then(say(Tone::CmdStart, command_text(c)), |u: ()| run(c))
}

/// Mentions a command among the details and runs it.
#[verifier::opaque]
pub open spec fn querying(c: Call) -> Try<Printed> {
    then(say(Tone::Detail, "$ "@ + command_text(c)), |u: ()| run(c))
}

/// Shows what a failed command wrote to its standard error, and fails with `msg` and that
/// text.
#[verifier::opaque]
pub open spec fn complaining<T>(area: Area, msg: Seq<char>, o: Printed) -> Try<T> {
    then(
        say(Tone::CmdStderr, lossy_text(o.stderr)),
        |u: ()| fail(fault_in(area, msg + lossy_text(o.stderr))),
    )
}

/// Announces a command and runs it; where it fails, `msg` says so.
#[verifier::opaque]
pub open spec fn commanding(area: Area, c: Call, msg: Seq<char>) -> Try<()> {
    then(
        launching(c),
        |o: Printed|
            if o.success {
                ok(())
            } else {
                complaining(area, msg, o)
            },
    )
}

/// The plan `p` with its failure ignored.
pub open spec fn ignoring<T>(p: Try<T>) -> Try<()> {
    bind(p, |r: Result<T, Fault>| ok(()))
}

/// Announces a command and runs it.
pub fn launch<'a>(s: &mut Session<'a>, command: Command) -> (r: Result<&'a Output, Stop>)
    ensures
        drive(launching(command.deep_view()), old(s)@) == (final(s)@, shown(r)),
{
    broadcast use group_plan;

    reveal(launching);
    let line = format_cmd(&command);
    s.say(Tone::CmdStart, line.as_str())?;
    s.run(command)
}

/// Mentions a command among the details and runs it.
pub fn query<'a>(s: &mut Session<'a>, command: Command) -> (r: Result<&'a Output, Stop>)
    ensures
        drive(querying(command.deep_view()), old(s)@) == (final(s)@, shown(r)),
{
    broadcast use group_plan;

    reveal(querying);
    let line = format_cmd(&command);
    s.say(Tone::Detail, cat2("$ ", line.as_str()).as_str())?;
    s.run(command)
}

/// Shows what a failed command wrote to its standard error, and fails.
pub fn complain<T: DeepView>(s: &mut Session, area: Area, msg: &str, o: &Output) -> (r: Result<
    T,
    Stop,
>)
    ensures
        drive(complaining::<T::V>(area, msg@, o.deep_view()), old(s)@) == (final(s)@, shown(r)),
        r is Err,
{
    broadcast use group_plan;

    reveal(complaining);
    let stderr = lossy(&o.stderr);
    s.say(Tone::CmdStderr, stderr.as_str())?;
    Err(failed(area, cat2(msg, stderr.as_str())))
}

/// Announces a command and runs it; where it fails, `msg` says so.
pub fn must_run(s: &mut Session, area: Area, command: Command, msg: &str) -> (r: Result<(), Stop>)
    ensures
        drive(commanding(area, command.deep_view(), msg@), old(s)@) == (final(s)@, shown(r)),
{
    broadcast use group_plan;

    reveal(commanding);
    let o = launch(s, command)?;
    if o.success {
        Ok(())
    } else {
        complain(s, area, msg, o)
    }
}

/// A result with its failure ignored.
pub fn ignore<T>(r: Result<T, Stop>) -> (out: Result<(), Stop>)
    ensures
        out == (match r {
            Err(Stop::Pending) => Err::<(), Stop>(Stop::Pending),
            _ => Ok(()),
        }),
{
    match r {
        Err(Stop::Pending) => Err(Stop::Pending),
        _ => Ok(()),
    }
}

}
