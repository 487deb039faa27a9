//! Procedures that alternate decisions with outside work.
//!
//! A procedure never touches the system. It asks for one piece of work at a time through a
//! [`Session`] and goes on from the reply. A session holds the replies that are known so far;
//! where they run out, the procedure stops with [`Stop::Pending`] and the session tells which
//! request waits. The caller carries that request out, adds the reply and starts the
//! procedure again with the longer list.
//!
//! What a procedure does is stated as a [`Plan`]: a tree of requests in which every reply
//! leads to what comes next.

use crate::error::{BackupError, Fault, IoFailure, IoFault, IoKind};
use vstd::prelude::*;

verus! {

/// How a message to the user is shown.
#[derive(Clone, Copy, PartialEq, Eq, Structural, Debug)]
pub enum Tone {
    Header,
    Step,
    Substep,
    Success,
    Info,
    Detail,
    Warning,
    Error,
    CmdStart,
    CmdStderr,
    SectionEnd,
}

impl DeepView for Tone {
    type V = Tone;

    open spec fn deep_view(&self) -> Tone {
        *self
    }
}

/// A program to run, with its arguments and, where it reads any, its input.
#[derive(Debug)]
pub struct Command {
    pub program: String,
    pub args: Vec<String>,
    pub input: Option<String>,
}

/// What a [`Command`] holds.
pub struct Call {
    pub program: Seq<char>,
    pub args: Seq<Seq<char>>,
    pub input: Option<Seq<char>>,
}

impl DeepView for Command {
    type V = Call;

    open spec fn deep_view(&self) -> Call {
        Call {
            program: self.program@,
            args: self.args.deep_view(),
            input: self.input.deep_view(),
        }
    }
}

/// A program without arguments.
pub open spec fn call(program: Seq<char>) -> Call {
    Call { program, args: Seq::empty(), input: None }
}

impl Call {
    /// The same call with one more argument.
    pub open spec fn arg(self, a: Seq<char>) -> Call {
        Call { args: self.args.push(a), ..self }
    }

    /// The same call with `text` as its input.
    pub open spec fn fed(self, text: Seq<char>) -> Call {
        Call { input: Some(text), ..self }
    }
}

impl Command {
    /// A program without arguments.
    pub fn new(program: &str) -> (r: Command)
        ensures
            r.deep_view() == call(program@),
    {
        let args: Vec<String> = Vec::new();
        assert(args.deep_view() =~= Seq::<Seq<char>>::empty());
        Command { program: program.to_owned(), args, input: None }
    }

    /// The same command with one more argument.
    pub fn arg(self, a: &str) -> (r: Command)
        ensures
            r.deep_view() == self.deep_view().arg(a@),
    {
        let ghost before = self.args.deep_view();
        let mut args = self.args;
        args.push(a.to_owned());
        assert(args.deep_view() =~= before.push(a@));
        Command { program: self.program, args, input: self.input }
    }

    /// The same command with `text` as its input.
    pub fn fed(self, text: &str) -> (r: Command)
        ensures
            r.deep_view() == self.deep_view().fed(text@),
    {
        Command { program: self.program, args: self.args, input: Some(text.to_owned()) }
    }
}

/// Outside work that a procedure asks for. A path, or an argument of a program, stands for the
/// bytes that [`path_bytes`](crate::spelling::path_bytes) gives.
#[derive(Debug)]
pub enum Request {
    /// Show a message.
    Say { tone: Tone, text: String },
    /// Run a program to its end and collect its output.
    Run(Command),
    /// Whether a path exists.
    Exists(String),
    /// Whether a path is a regular file.
    IsFile(String),
    /// When a path was last modified.
    ModifiedAt(String),
    /// The entries of a directory.
    ReadDir(String),
    /// Create a directory with its parents.
    CreateDirAll(String),
    /// Move a path.
    Rename { from: String, to: String },
    /// Copy a file.
    Copy { from: String, to: String },
    /// Write a file.
    WriteFile { path: String, text: String },
    /// Remove a file.
    RemoveFile(String),
    /// Remove an empty directory.
    RemoveDir(String),
    /// The value of an environment variable.
    EnvVar(String),
    /// The directory for temporary files.
    TempRoot,
    /// Make a new temporary directory.
    MakeTempDir,
    /// Remove a directory made by `MakeTempDir`.
    RemoveTempDir(String),
    /// Create or truncate a lock file and keep it open.
    OpenLock(String),
    /// Lock an open lock file without waiting.
    TryLock(String),
    /// Release a lock file.
    Unlock(String),
    /// Start measuring time.
    StartClock,
    /// The time since `StartClock`.
    ReadClock,
    /// Pipe a sent subvolume into a receiving directory.
    Transfer { source: String, parent: Option<String>, dest: String },
}

/// What a [`Request`] asks for.
pub enum Ask {
    Say { tone: Tone, text: Seq<char> },
    Run(Call),
    Exists(Seq<char>),
    IsFile(Seq<char>),
    ModifiedAt(Seq<char>),
    ReadDir(Seq<char>),
    CreateDirAll(Seq<char>),
    Rename { from: Seq<char>, to: Seq<char> },
    Copy { from: Seq<char>, to: Seq<char> },
    WriteFile { path: Seq<char>, text: Seq<char> },
    RemoveFile(Seq<char>),
    RemoveDir(Seq<char>),
    EnvVar(Seq<char>),
    TempRoot,
    MakeTempDir,
    RemoveTempDir(Seq<char>),
    OpenLock(Seq<char>),
    TryLock(Seq<char>),
    Unlock(Seq<char>),
    StartClock,
    ReadClock,
    Transfer { source: Seq<char>, parent: Option<Seq<char>>, dest: Seq<char> },
}

impl DeepView for Request {
    type V = Ask;

    open spec fn deep_view(&self) -> Ask {
        match self {
            Request::Say { tone, text } => Ask::Say { tone: *tone, text: text@ },
            Request::Run(c) => Ask::Run(c.deep_view()),
            Request::Exists(p) => Ask::Exists(p@),
            Request::IsFile(p) => Ask::IsFile(p@),
            Request::ModifiedAt(p) => Ask::ModifiedAt(p@),
            Request::ReadDir(p) => Ask::ReadDir(p@),
            Request::CreateDirAll(p) => Ask::CreateDirAll(p@),
            Request::Rename { from, to } => Ask::Rename { from: from@, to: to@ },
            Request::Copy { from, to } => Ask::Copy { from: from@, to: to@ },
            Request::WriteFile { path, text } => Ask::WriteFile { path: path@, text: text@ },
            Request::RemoveFile(p) => Ask::RemoveFile(p@),
            Request::RemoveDir(p) => Ask::RemoveDir(p@),
            Request::EnvVar(n) => Ask::EnvVar(n@),
            Request::TempRoot => Ask::TempRoot,
            Request::MakeTempDir => Ask::MakeTempDir,
            Request::RemoveTempDir(p) => Ask::RemoveTempDir(p@),
            Request::OpenLock(p) => Ask::OpenLock(p@),
            Request::TryLock(p) => Ask::TryLock(p@),
            Request::Unlock(p) => Ask::Unlock(p@),
            Request::StartClock => Ask::StartClock,
            Request::ReadClock => Ask::ReadClock,
            Request::Transfer { source, parent, dest } => Ask::Transfer {
                source: source@,
                parent: parent.deep_view(),
                dest: dest@,
            },
        }
    }
}

/// What a program left behind: whether it succeeded, and what it wrote.
#[derive(Debug)]
pub struct Output {
    pub success: bool,
    pub stdout: Vec<u8>,
    pub stderr: Vec<u8>,
}

/// What an [`Output`] holds.
pub struct Printed {
    pub success: bool,
    pub stdout: Seq<u8>,
    pub stderr: Seq<u8>,
}

impl DeepView for Output {
    type V = Printed;

    open spec fn deep_view(&self) -> Printed {
        Printed { success: self.success, stdout: self.stdout@, stderr: self.stderr@ }
    }
}

/// How much was transferred, and how fast, in bytes and bytes per second.
#[derive(Clone, Copy, Debug, PartialEq, Eq, Structural)]
pub struct TransferStats {
    pub bytes: u64,
    pub bytes_per_sec: u64,
}

impl DeepView for TransferStats {
    type V = TransferStats;

    open spec fn deep_view(&self) -> TransferStats {
        *self
    }
}

impl TransferStats {
    /// The speed in bytes per second.
    pub fn speed(&self) -> (r: u64)
        ensures
            r == self.bytes_per_sec,
    {
        self.bytes_per_sec
    }
}

/// How a transfer went.
#[derive(Debug)]
pub enum Sending {
    /// A process could not be started, read, written or waited for.
    Broken(IoFailure),
    /// The sending process has no output to read from.
    NoStdout,
    /// The receiving process has no input to write to.
    NoStdin,
    /// Both processes ended.
    Ended { stats: TransferStats, send: Output, receive: Output },
}

/// What a [`Sending`] holds.
pub enum Sent {
    Broken(IoFault),
    NoStdout,
    NoStdin,
    Ended { stats: TransferStats, send: Printed, receive: Printed },
}

impl DeepView for Sending {
    type V = Sent;

    open spec fn deep_view(&self) -> Sent {
        match self {
            Sending::Broken(e) => Sent::Broken(e.deep_view()),
            Sending::NoStdout => Sent::NoStdout,
            Sending::NoStdin => Sent::NoStdin,
            Sending::Ended { stats, send, receive } => Sent::Ended {
                stats: *stats,
                send: send.deep_view(),
                receive: receive.deep_view(),
            },
        }
    }
}

/// The reply to a [`Request`].
#[derive(Debug)]
pub enum Reply {
    /// To `Exists` and `IsFile`.
    Flag(bool),
    /// To a request that only works or fails.
    Done,
    /// To any request that fails.
    Failed(IoFailure),
    /// To `Run`.
    Ran(Output),
    /// To `EnvVar`, `TempRoot` and `MakeTempDir`.
    Text(String),
    /// To `ReadDir`: the names of the entries, and the failure that ended the listing early.
    Entries { names: Vec<Vec<u8>>, failure: Option<IoFailure> },
    /// To `ModifiedAt`: nanoseconds since the epoch, where they are known.
    Stamp(Option<i128>),
    /// To `ReadClock`: whole seconds, and the seconds with one decimal place.
    Elapsed { secs: u64, short: String },
    /// To `Transfer`.
    Sent(Sending),
}

/// What a [`Reply`] holds.
pub enum Answer {
    Flag(bool),
    Done,
    Failed(IoFault),
    Ran(Printed),
    Text(Seq<char>),
    Entries { names: Seq<Seq<u8>>, failure: Option<IoFault> },
    Stamp(Option<i128>),
    Elapsed { secs: u64, short: Seq<char> },
    Sent(Sent),
}

impl DeepView for Reply {
    type V = Answer;

    open spec fn deep_view(&self) -> Answer {
        match self {
            Reply::Flag(b) => Answer::Flag(*b),
            Reply::Done => Answer::Done,
            Reply::Failed(e) => Answer::Failed(e.deep_view()),
            Reply::Ran(o) => Answer::Ran(o.deep_view()),
            Reply::Text(t) => Answer::Text(t@),
            Reply::Entries { names, failure } => Answer::Entries {
                names: names.deep_view(),
                failure: failure.deep_view(),
            },
            Reply::Stamp(t) => Answer::Stamp(*t),
            Reply::Elapsed { secs, short } => Answer::Elapsed { secs: *secs, short: short@ },
            Reply::Sent(s) => Answer::Sent(s.deep_view()),
        }
    }
}

/// A tree of requests: what to ask for, and for every answer what comes next.
#[verifier::reject_recursive_types(T)]
pub enum Plan<T> {
    /// Nothing more to ask for.
    Done(T),
    /// Ask, then go on from the answer.
    Ask(Ask, spec_fn(Answer) -> Plan<T>),
}

/// What has been asked for, the answers that are known, and the request that waits for one.
pub struct Log {
    pub asked: Seq<Ask>,
    pub answers: Seq<Answer>,
    pub pending: Option<Ask>,
}

/// Asks for `q`: takes the next answer, or waits where there is none.
pub open spec fn asking(log: Log, q: Ask) -> (Log, Option<Answer>) {
    if log.asked.len() < log.answers.len() {
        (Log { asked: log.asked.push(q), ..log }, Some(log.answers[log.asked.len() as int]))
    } else {
        (Log { pending: Some(q), ..log }, None)
    }
}

/// Follows a plan through the answers that are known: the log it leaves, and the outcome
/// where the answers suffice.
#[verifier::opaque]
pub open spec fn drive<T>(p: Plan<T>, log: Log) -> (Log, Option<T>)
    decreases p,
{
    match p {
        Plan::Done(t) => (log, Some(t)),
        Plan::Ask(q, k) => match asking(log, q) {
            (l, None) => (l, None),
            (l, Some(a)) => drive(k(a), l),
        },
    }
}

/// The plan `p` and then, from its outcome, the plan that `f` gives.
#[verifier::opaque]
pub open spec fn bind<T, U>(p: Plan<T>, f: spec_fn(T) -> Plan<U>) -> Plan<U>
    decreases p,
{
    match p {
        Plan::Done(t) => f(t),
        Plan::Ask(q, k) => Plan::Ask(q, |a: Answer| bind(k(a), f)),
    }
}

/// A plan that may fail.
pub type Try<T> = Plan<Result<T, Fault>>;

/// Succeeds with `t`.
pub open spec fn ok<T>(t: T) -> Try<T> {
    Plan::Done(Ok(t))
}

/// Fails with `f`.
pub open spec fn fail<T>(f: Fault) -> Try<T> {
    Plan::Done(Err(f))
}

/// The plan `p` and, where it succeeds, the plan that `f` gives; a failure of `p` stands.
pub open spec fn then<T, U>(p: Try<T>, f: spec_fn(T) -> Try<U>) -> Try<U> {
    bind(
        p,
        |r: Result<T, Fault>|
            match r {
                Ok(t) => f(t),
                Err(e) => fail(e),
            },
    )
}

/// Asks for `q`; the outcome is the answer.
pub open spec fn ask(q: Ask) -> Plan<Answer> {
    Plan::Ask(q, |a: Answer| Plan::Done(a))
}

pub broadcast proof fn lemma_drive_done<T>(t: T, log: Log)
    ensures
        #[trigger] drive(Plan::Done(t), log) == (log, Some(t)),
{
    reveal(drive);
}

pub broadcast proof fn lemma_drive_ask(q: Ask, log: Log)
    ensures
        #[trigger] drive(ask(q), log) == asking(log, q),
{
    reveal_with_fuel(drive, 2);
}

pub broadcast proof fn lemma_drive_bind<T, U>(p: Plan<T>, f: spec_fn(T) -> Plan<U>, log: Log)
    ensures
        #[trigger] drive(bind(p, f), log) == (match drive(p, log) {
            (l, Some(t)) => drive(f(t), l),
            (l, None) => (l, None),
        }),
    decreases p,
{
    reveal(drive);
    reveal(bind);
    match p {
        Plan::Done(t) => {},
        Plan::Ask(q, k) => match asking(log, q) {
            (l, None) => {},
            (l, Some(a)) => {
                lemma_drive_bind(k(a), f, l);
            },
        },
    }
}

pub broadcast proof fn lemma_drive_then<T, U>(p: Try<T>, f: spec_fn(T) -> Try<U>, log: Log)
    ensures
        #[trigger] drive(then(p, f), log) == (match drive(p, log) {
            (l, Some(Ok(t))) => drive(f(t), l),
            (l, Some(Err(e))) => (l, Some(Err(e))),
            (l, None) => (l, None),
        }),
{
    broadcast use {lemma_drive_bind, lemma_drive_done};

}

pub broadcast group group_plan {
    lemma_drive_done,
    lemma_drive_ask,
    lemma_drive_bind,
    lemma_drive_then,
}

/// Why a procedure ended without a result.
#[derive(Debug)]
pub enum Stop {
    /// A request waits for its reply.
    Pending,
    /// The procedure failed.
    Failed(BackupError),
}

/// A result as a plan's outcome; none where a request waits.
pub open spec fn shown<T: DeepView>(r: Result<T, Stop>) -> Option<Result<T::V, Fault>> {
    match r {
        Ok(t) => Some(Ok(t.deep_view())),
        Err(Stop::Failed(e)) => Some(Err(e.deep_view())),
        Err(Stop::Pending) => None,
    }
}

/// The replies that are known, and the requests made so far.
pub struct Session<'a> {
    replies: &'a Vec<Reply>,
    asked: Vec<Request>,
    pending: Option<Request>,
}

impl<'a> View for Session<'a> {
    type V = Log;

    closed spec fn view(&self) -> Log {
        Log {
            asked: self.asked.deep_view(),
            answers: self.replies.deep_view(),
            pending: self.pending.deep_view(),
        }
    }
}

/// A log in which nothing has been asked for.
pub open spec fn fresh(answers: Seq<Answer>) -> Log {
    Log { asked: Seq::empty(), answers, pending: None }
}

impl<'a> Session<'a> {
    /// A session in which nothing has been asked for.
    pub fn new(replies: &'a Vec<Reply>) -> (r: Session<'a>)
        ensures
            r@ == fresh(replies.deep_view()),
    {
        let asked: Vec<Request> = Vec::new();
        assert(asked.deep_view() =~= Seq::<Ask>::empty());
        Session { replies, asked, pending: None }
    }

    /// The requests that have their reply, in order.
    pub fn asked(&self) -> (r: &Vec<Request>)
        ensures
            r.deep_view() == self@.asked,
    {
        &self.asked
    }

    /// The request that waits for its reply.
    pub fn pending(&self) -> (r: Option<&Request>)
        ensures
            r.deep_view() == self@.pending,
    {
        self.pending.as_ref()
    }

    /// Asks for outside work.
    pub fn ask(&mut self, request: Request) -> (r: Result<&'a Reply, Stop>)
        ensures
            drive(ask(request.deep_view()), old(self)@) == (
                final(self)@,
                match r {
                    Ok(reply) => Some(reply.deep_view()),
                    Err(_) => None,
                },
            ),
            r is Ok || r == Err::<&'a Reply, Stop>(Stop::Pending),
    {
        broadcast use group_plan;

        let n: usize = self.asked.len();
        assert(self.asked.deep_view().len() == n);
        assert(self.replies.deep_view().len() == self.replies@.len());
        if n < self.replies.len() {
            let ghost before = self.asked.deep_view();
            self.asked.push(request);
            assert(self.asked.deep_view() =~= before.push(request.deep_view()));
            let replies = self.replies;
            Ok(&replies[n])
        } else {
            self.pending = Some(request);
            Err(Stop::Pending)
        }
    }
}

/// The failure that stands for a reply of the wrong sort.
pub open spec fn unexpected() -> IoFault {
    IoFault { kind: IoKind::Other, message: "unexpected reply"@ }
}

/// The failure that stands for a reply of the wrong sort.
pub fn unexpected_reply() -> (r: IoFailure)
    ensures
        r.deep_view() == unexpected(),
{
    IoFailure { kind: IoKind::Other, message: "unexpected reply".to_owned() }
}

/// The failure in an answer that should be `Done`.
pub open spec fn failure_in(a: Answer) -> Option<IoFault> {
    match a {
        Answer::Done => None,
        Answer::Failed(e) => Some(e),
        _ => Some(unexpected()),
    }
}

/// The output in an answer to `Run`.
pub open spec fn output_in(a: Answer) -> Result<Printed, IoFault> {
    match a {
        Answer::Ran(o) => Ok(o),
        Answer::Failed(e) => Err(e),
        _ => Err(unexpected()),
    }
}

/// The text in an answer that should be one.
pub open spec fn text_in(a: Answer) -> Result<Seq<char>, IoFault> {
    match a {
        Answer::Text(t) => Ok(t),
        Answer::Failed(e) => Err(e),
        _ => Err(unexpected()),
    }
}

/// The flag in an answer; an answer of another sort counts as `false`.
pub open spec fn flag_in(a: Answer) -> bool {
    match a {
        Answer::Flag(b) => b,
        _ => false,
    }
}

/// Shows a message.
pub open spec fn say(tone: Tone, text: Seq<char>) -> Try<()> {
    bind(ask(Ask::Say { tone, text }), |a: Answer| ok(()))
}

/// Asks a question that is answered by yes or no.
pub open spec fn decide(q: Ask) -> Try<bool> {
    bind(ask(q), |a: Answer| ok(flag_in(a)))
}

/// Whether `path` exists.
pub open spec fn present(path: Seq<char>) -> Try<bool> {
    decide(Ask::Exists(path))
}

/// Asks for work that may fail; the outcome is the failure, if any.
pub open spec fn attempt(q: Ask) -> Try<Option<IoFault>> {
    bind(ask(q), |a: Answer| ok(failure_in(a)))
}

/// Asks for work that has to succeed.
pub open spec fn perform(q: Ask) -> Try<()> {
    then(
        attempt(q),
        |e: Option<IoFault>|
            match e {
                None => ok(()),
                Some(e) => fail(Fault::Io(e)),
            },
    )
}

/// Runs a program.
pub open spec fn run(c: Call) -> Try<Printed> {
    bind(
        ask(Ask::Run(c)),
        |a: Answer|
            match output_in(a) {
                Ok(o) => ok(o),
                Err(e) => fail(Fault::Io(e)),
            },
    )
}

/// Asks for a text.
pub open spec fn fetch(q: Ask) -> Try<Seq<char>> {
    bind(
        ask(q),
        |a: Answer|
            match text_in(a) {
                Ok(t) => ok(t),
                Err(e) => fail(Fault::Io(e)),
            },
    )
}

impl Reply {
    /// The text in a reply that should be one.
    pub fn text(&self) -> (r: Result<String, IoFailure>)
        ensures
            match r {
                Ok(t) => text_in(self.deep_view()) == Ok::<Seq<char>, IoFault>(t@),
                Err(e) => text_in(self.deep_view()) == Err::<Seq<char>, IoFault>(e.deep_view()),
            },
    {
        match self {
            Reply::Text(t) => Ok(t.clone()),
            Reply::Failed(e) => Err(e.duplicate()),
            _ => Err(unexpected_reply()),
        }
    }
}

impl<'a> Session<'a> {
    /// Shows a message.
    pub fn say(&mut self, tone: Tone, text: &str) -> (r: Result<(), Stop>)
        ensures
            drive(say(tone, text@), old(self)@) == (final(self)@, shown(r)),
    {
        broadcast use group_plan;

        self.ask(Request::Say { tone, text: text.to_owned() })?;
        Ok(())
    }

    /// Asks a question that is answered by yes or no.
    pub fn decide(&mut self, request: Request) -> (r: Result<bool, Stop>)
        ensures
            drive(decide(request.deep_view()), old(self)@) == (final(self)@, shown(r)),
    {
        broadcast use group_plan;

        match self.ask(request)? {
            Reply::Flag(b) => Ok(*b),
            _ => Ok(false),
        }
    }

    /// Whether `path` exists.
    pub fn present(&mut self, path: &str) -> (r: Result<bool, Stop>)
        ensures
            drive(present(path@), old(self)@) == (final(self)@, shown(r)),
    {
        self.decide(Request::Exists(path.to_owned()))
    }

    /// Asks for work that may fail; gives the failure, if any.
    pub fn attempt(&mut self, request: Request) -> (r: Result<Option<IoFailure>, Stop>)
        ensures
            drive(attempt(request.deep_view()), old(self)@) == (final(self)@, shown(r)),
    {
        broadcast use group_plan;

        match self.ask(request)? {
            Reply::Done => Ok(None),
            Reply::Failed(e) => Ok(Some(e.duplicate())),
            _ => Ok(Some(unexpected_reply())),
        }
    }

    /// Asks for work that has to succeed.
    pub fn perform(&mut self, request: Request) -> (r: Result<(), Stop>)
        ensures
            drive(perform(request.deep_view()), old(self)@) == (final(self)@, shown(r)),
    {
        broadcast use group_plan;

        match self.attempt(request)? {
            None => Ok(()),
            Some(e) => Err(Stop::Failed(BackupError::Io(e))),
        }
    }

    /// Runs a program.
    pub fn run(&mut self, command: Command) -> (r: Result<&'a Output, Stop>)
        ensures
            drive(run(command.deep_view()), old(self)@) == (final(self)@, shown(r)),
    {
        broadcast use group_plan;

        match self.ask(Request::Run(command))? {
            Reply::Ran(o) => Ok(o),
            Reply::Failed(e) => Err(Stop::Failed(BackupError::Io(e.duplicate()))),
            _ => Err(Stop::Failed(BackupError::Io(unexpected_reply()))),
        }
    }

    /// Asks for a text.
    pub fn fetch(&mut self, request: Request) -> (r: Result<String, Stop>)
        ensures
            drive(fetch(request.deep_view()), old(self)@) == (final(self)@, shown(r)),
    {
        broadcast use group_plan;

        match self.ask(request)?.text() {
            Ok(t) => Ok(t),
            Err(e) => Err(Stop::Failed(BackupError::Io(e))),
        }
    }
}

}
