//! What the user sees: messages, numbers and command lines as text.

use crate::journal::{Call, Command, Tone};
use crate::spelling::{display, displayed};
use crate::text::{
    cat2, cat3, cat4, cat5, cat6, contains, decimal, has, join, joined, lines, lines_of, number,
    trim, trimmed,
};
use vstd::prelude::*;

verus! {

/// How much is shown.
#[derive(Clone, Copy, PartialEq, Eq, Structural, Debug)]
pub enum Verbosity {
    Quiet,
    Normal,
    Verbose,
}

/// How a piece of text is set off.
#[derive(Clone, Copy, PartialEq, Eq, Structural, Debug)]
pub enum Style {
    Plain,
    Bold,
    BoldCyan,
    Dim,
    DimCyan,
    Green,
    Yellow,
    Red,
}

/// One line of output: plain text, styled text, plain text.
#[derive(Debug, PartialEq, Eq)]
pub struct Line {
    pub before: String,
    pub style: Style,
    pub styled: String,
    pub after: String,
}

/// What a [`Line`] holds.
pub struct Shown {
    pub before: Seq<char>,
    pub style: Style,
    pub styled: Seq<char>,
    pub after: Seq<char>,
}

impl DeepView for Line {
    type V = Shown;

    open spec fn deep_view(&self) -> Shown {
        Shown {
            before: self.before@,
            style: self.style,
            styled: self.styled@,
            after: self.after@,
        }
    }
}

/// A line that begins with `before` and goes on with `styled`.
pub open spec fn set(before: Seq<char>, style: Style, styled: Seq<char>) -> Shown {
    Shown { before, style, styled, after: Seq::empty() }
}

/// An empty line.
pub open spec fn blank() -> Shown {
    set(Seq::empty(), Style::Plain, Seq::empty())
}

/// The lines for the standard error output of a command: its lines that are not blank.
pub open spec fn stderr_lines(all: Seq<Seq<char>>) -> Seq<Shown>
    decreases all.len(),
{
    if all.len() == 0 {
        Seq::empty()
    } else {
        let rest = stderr_lines(all.drop_last());
        let line = trimmed(all.last());
        if line.len() > 0 {
            rest.push(set("    "@, Style::Yellow, "stderr: "@ + line))
        } else {
            rest
        }
    }
}

/// Whether a message with this tone is shown: warnings and errors always, details only when
/// asked for, everything else unless output is suppressed.
pub open spec fn audible(v: Verbosity, tone: Tone) -> bool {
    match tone {
        Tone::Warning => true,
        Tone::Error => true,
        Tone::Detail => v == Verbosity::Verbose,
        _ => v != Verbosity::Quiet,
    }
}

/// The lines of a message that is shown.
pub open spec fn laid_out(tone: Tone, text: Seq<char>) -> Seq<Shown> {
    match tone {
        Tone::Header => seq![
            blank(),
            set(Seq::empty(), Style::BoldCyan, "== "@ + text + " =="@),
            blank(),
        ],
        Tone::Step => seq![set(Seq::empty(), Style::Bold, text)],
        Tone::Substep => seq![
            Shown { before: "  "@, style: Style::Dim, styled: "->"@, after: " "@ + text },
        ],
        Tone::Success => seq![set("  "@, Style::Green, "\u{2713} "@ + text)],
        Tone::Info => seq![set("  "@, Style::Plain, text)],
        Tone::Detail => seq![set("     "@, Style::Dim, text)],
        Tone::Warning => seq![set("  "@, Style::Yellow, "\u{26a0} "@ + text)],
        Tone::Error => seq![set("  "@, Style::Red, "\u{2717} "@ + text)],
        Tone::CmdStart => seq![set("  "@, Style::DimCyan, "$ "@ + text)],
        Tone::CmdStderr => stderr_lines(lines_of(text)),
        Tone::SectionEnd => seq![blank()],
    }
}

/// The lines of a message.
pub open spec fn rendered(v: Verbosity, tone: Tone, text: Seq<char>) -> Seq<Shown> {
    if audible(v, tone) {
        laid_out(tone, text)
    } else {
        Seq::empty()
    }
}

/// How much is shown, from the two command line flags; `quiet` wins.
pub fn init(verbose: bool, quiet: bool) -> (r: Verbosity)
    ensures
        r == (if quiet {
            Verbosity::Quiet
        } else if verbose {
            Verbosity::Verbose
        } else {
            Verbosity::Normal
        }),
{
    if quiet {
        Verbosity::Quiet
    } else if verbose {
        Verbosity::Verbose
    } else {
        Verbosity::Normal
    }
}

/// A line that begins with `before` and goes on with `styled`.
fn line(before: &str, style: Style, styled: String) -> (r: Line)
    ensures
        r.deep_view() == set(before@, style, styled@),
{
    Line { before: before.to_owned(), style, styled, after: String::new() }
}

/// An empty line.
fn blank_line() -> (r: Line)
    ensures
        r.deep_view() == blank(),
{
    Line {
        before: String::new(),
        style: Style::Plain,
        styled: String::new(),
        after: String::new(),
    }
}

/// A list of one line.
fn single(l: Line) -> (r: Vec<Line>)
    ensures
        r.deep_view() == seq![l.deep_view()],
{
    let mut out: Vec<Line> = Vec::new();
    out.push(l);
    assert(out.deep_view() =~= seq![l.deep_view()]);
    out
}

/// Whether a message with this tone is shown.
fn heard(v: Verbosity, tone: Tone) -> (r: bool)
    ensures
        r == audible(v, tone),
{
    match tone {
        Tone::Warning => true,
        Tone::Error => true,
        Tone::Detail => v == Verbosity::Verbose,
        _ => v != Verbosity::Quiet,
    }
}

/// The lines of a message.
pub fn render(v: Verbosity, tone: Tone, text: &str) -> (r: Vec<Line>)
    ensures
        r.deep_view() == rendered(v, tone, text@),
{
    if !heard(v, tone) {
        let out: Vec<Line> = Vec::new();
        assert(out.deep_view() =~= Seq::<Shown>::empty());
        return out;
    }
    match tone {
        Tone::Header => {
            let mut out: Vec<Line> = Vec::new();
            out.push(blank_line());
            out.push(
                Line {
                    before: String::new(),
                    style: Style::BoldCyan,
                    styled: cat3("== ", text, " =="),
                    after: String::new(),
                },
            );
            out.push(blank_line());
            assert(out.deep_view() =~= laid_out(tone, text@));
            out
        },
        Tone::Step => single(
            Line {
                before: String::new(),
                style: Style::Bold,
                styled: text.to_owned(),
                after: String::new(),
            },
        ),
        Tone::Substep => single(
            Line {
                before: "  ".to_owned(),
                style: Style::Dim,
                styled: "->".to_owned(),
                after: cat2(" ", text),
            },
        ),
        Tone::Success => single(line("  ", Style::Green, cat2("\u{2713} ", text))),
        Tone::Info => single(line("  ", Style::Plain, text.to_owned())),
        Tone::Detail => single(line("     ", Style::Dim, text.to_owned())),
        Tone::Warning => single(line("  ", Style::Yellow, cat2("\u{26a0} ", text))),
        Tone::Error => single(line("  ", Style::Red, cat2("\u{2717} ", text))),
        Tone::CmdStart => single(line("  ", Style::DimCyan, cat2("$ ", text))),
        Tone::CmdStderr => {
            let all = lines(text);
            let ghost every = lines_of(text@);
            let mut out: Vec<Line> = Vec::new();
            let mut i: usize = 0;
            assert(every.take(0) =~= Seq::<Seq<char>>::empty());
            assert(out.deep_view() =~= Seq::<Shown>::empty());
            while i < all.len()
                invariant
                    i <= all@.len(),
                    all.deep_view() == every,
                    out.deep_view() == stderr_lines(every.take(i as int)),
                decreases all@.len() - i,
            {
                let ghost before = out.deep_view();
                assert(all@[i as int]@ == every[i as int]);
                assert(every.take(i + 1).drop_last() =~= every.take(i as int));
                let t = trim(all[i].as_str());
                if !t.as_str().is_empty() {
                    let l = line("    ", Style::Yellow, cat2("stderr: ", t.as_str()));
                    out.push(l);
                    assert(out.deep_view() =~= before.push(l.deep_view()));
                }
                i += 1;
            }
            assert(every.take(i as int) =~= every);
            out
        },
        Tone::SectionEnd => single(blank_line()),
    }
}

/// The lines of a header.
pub fn header(v: Verbosity, msg: &str) -> (r: Vec<Line>)
    ensures
        r.deep_view() == rendered(v, Tone::Header, msg@),
{
    render(v, Tone::Header, msg)
}

/// `[{cur}/{total}] {msg}`.
pub open spec fn step_text(cur: nat, total: nat, msg: Seq<char>) -> Seq<char> {
    "["@ + decimal(cur) + "/"@ + decimal(total) + "] "@ + msg
}

/// `[{cur}/{total}] {msg}`.
pub fn numbered(cur: usize, total: usize, msg: &str) -> (r: String)
    ensures
        r@ == step_text(cur as nat, total as nat, msg@),
{
    let c = number(cur as u64);
    let t = number(total as u64);
    cat6("[", c.as_str(), "/", t.as_str(), "] ", msg)
}

/// The line that opens a step.
pub fn step(v: Verbosity, cur: usize, total: usize, msg: &str) -> (r: Vec<Line>)
    ensures
        r.deep_view() == rendered(v, Tone::Step, step_text(cur as nat, total as nat, msg@)),
{
    render(v, Tone::Step, numbered(cur, total, msg).as_str())
}

/// The line for a part of a step.
pub fn substep(v: Verbosity, msg: &str) -> (r: Vec<Line>)
    ensures
        r.deep_view() == rendered(v, Tone::Substep, msg@),
{
    render(v, Tone::Substep, msg)
}

/// The line for a success.
pub fn success(v: Verbosity, msg: &str) -> (r: Vec<Line>)
    ensures
        r.deep_view() == rendered(v, Tone::Success, msg@),
{
    render(v, Tone::Success, msg)
}

/// The line for an information.
pub fn info(v: Verbosity, msg: &str) -> (r: Vec<Line>)
    ensures
        r.deep_view() == rendered(v, Tone::Info, msg@),
{
    render(v, Tone::Info, msg)
}

/// The line for a detail, shown only in verbose mode.
pub fn detail(v: Verbosity, msg: &str) -> (r: Vec<Line>)
    ensures
        r.deep_view() == rendered(v, Tone::Detail, msg@),
{
    render(v, Tone::Detail, msg)
}

/// The line for a warning, always shown.
pub fn warning(msg: &str) -> (r: Vec<Line>)
    ensures
        forall|v: Verbosity| r.deep_view() == rendered(v, Tone::Warning, msg@),
{
    render(Verbosity::Quiet, Tone::Warning, msg)
}

/// The line for an error, always shown.
pub fn error(msg: &str) -> (r: Vec<Line>)
    ensures
        forall|v: Verbosity| r.deep_view() == rendered(v, Tone::Error, msg@),
{
    render(Verbosity::Quiet, Tone::Error, msg)
}

/// The line for a hint.
pub open spec fn hint_line(hint: Seq<char>) -> Shown {
    set("    "@, Style::Dim, "\u{2022} "@ + hint)
}

/// The lines of an error with its hints, where it has any.
pub open spec fn error_lines(msg: Seq<char>, hints: Seq<Seq<char>>) -> Seq<Shown> {
    if hints.len() == 0 {
        laid_out(Tone::Error, msg)
    } else {
        laid_out(Tone::Error, msg) + seq![blank(), set("  "@, Style::Dim, "Hints:"@)]
            + hints.map_values(|h: Seq<char>| hint_line(h))
    }
}

/// The lines of an error with its hints, always shown.
pub fn error_with_hints(msg: &str, hints: &Vec<&'static str>) -> (r: Vec<Line>)
    ensures
        r.deep_view() == error_lines(msg@, hints.deep_view()),
{
    let mut out = error(msg);
    assert(out.deep_view() == rendered(Verbosity::Quiet, Tone::Error, msg@));
    if hints.len() > 0 {
        let ghost first = out.deep_view();
        let title = line("  ", Style::Dim, "Hints:".to_owned());
        out.push(blank_line());
        out.push(title);
        let ghost start = first + seq![blank(), set("  "@, Style::Dim, "Hints:"@)];
        assert(out.deep_view() =~= start);
        let ghost want = hints.deep_view().map_values(|h: Seq<char>| hint_line(h));
        let mut i: usize = 0;
        while i < hints.len()
            invariant
                i <= hints@.len(),
                want == hints.deep_view().map_values(|h: Seq<char>| hint_line(h)),
                out.deep_view() =~= start + want.take(i as int),
            decreases hints@.len() - i,
        {
            let ghost before = out.deep_view();
            let l = line("    ", Style::Dim, cat2("\u{2022} ", hints[i]));
            out.push(l);
            assert(out.deep_view() =~= before.push(l.deep_view()));
            assert(want[i as int] == l.deep_view());
            i += 1;
        }
        assert(want.take(i as int) =~= want);
    }
    out
}

/// The line for a command that is about to run.
pub fn cmd_start(v: Verbosity, cmd: &str) -> (r: Vec<Line>)
    ensures
        r.deep_view() == rendered(v, Tone::CmdStart, cmd@),
{
    render(v, Tone::CmdStart, cmd)
}

/// The lines for the standard error output of a command.
pub fn cmd_stderr_output(v: Verbosity, text: &str) -> (r: Vec<Line>)
    ensures
        r.deep_view() == rendered(v, Tone::CmdStderr, text@),
{
    render(v, Tone::CmdStderr, text)
}

/// The blank line that ends a section.
pub fn section_end(v: Verbosity) -> (r: Vec<Line>)
    ensures
        r.deep_view() == rendered(v, Tone::SectionEnd, Seq::empty()),
{
    render(v, Tone::SectionEnd, "")
}

/// An argument as it is shown: in quotes where it holds a space.
pub open spec fn shown_arg(a: Seq<char>) -> Seq<char> {
    if has(displayed(a), " "@) {
        "'"@ + displayed(a) + "'"@
    } else {
        displayed(a)
    }
}

/// A command line as it is shown.
pub open spec fn command_text(c: Call) -> Seq<char> {
    if c.args.len() == 0 {
        c.program
    } else {
        c.program + " "@ + joined(c.args.map_values(|a: Seq<char>| shown_arg(a)), " "@)
    }
}

/// A command line as it is shown.
pub fn format_cmd(cmd: &Command) -> (r: String)
    ensures
        r@ == command_text(cmd.deep_view()),
{
    if cmd.args.len() == 0 {
        return cmd.program.clone();
    }
    let ghost want = cmd.args.deep_view().map_values(|a: Seq<char>| shown_arg(a));
    let mut shown: Vec<String> = Vec::new();
    let mut i: usize = 0;
    while i < cmd.args.len()
        invariant
            i <= cmd.args@.len(),
            want == cmd.args.deep_view().map_values(|a: Seq<char>| shown_arg(a)),
            shown.deep_view() =~= want.take(i as int),
        decreases cmd.args@.len() - i,
    {
        let ghost before = shown.deep_view();
        let text = display(cmd.args[i].as_str());
        let a = if contains(text.as_str(), " ") {
            cat3("'", text.as_str(), "'")
        } else {
            text
        };
        assert(a@ == want[i as int]);
        shown.push(a);
        assert(shown.deep_view() =~= before.push(a@));
        i += 1;
    }
    assert(want.take(i as int) =~= want);
    let line = join(&shown, " ");
    cat3(cmd.program.as_str(), " ", line.as_str())
}

/// A duration: hours, minutes and seconds from an hour on, minutes and seconds from a minute
/// on, and below that `short`, the seconds with one decimal place.
pub open spec fn duration_text(secs: nat, short: Seq<char>) -> Seq<char> {
    if secs >= 3600 {
        decimal(secs / 3600) + "h "@ + decimal((secs % 3600) / 60) + "m "@ + decimal(secs % 60)
            + "s"@
    } else if secs >= 60 {
        decimal(secs / 60) + "m "@ + decimal(secs % 60) + "s"@
    } else {
        short + "s"@
    }
}

/// A duration in words; `short` is its length in seconds with one decimal place.
pub fn format_duration(total_secs: u64, short: &str) -> (r: String)
    ensures
        r@ == duration_text(total_secs as nat, short@),
{
    if total_secs >= 3600 {
        let h = number(total_secs / 3600);
        let m = number((total_secs % 3600) / 60);
        let s = number(total_secs % 60);
        cat6(h.as_str(), "h ", m.as_str(), "m ", s.as_str(), "s")
    } else if total_secs >= 60 {
        let m = number(total_secs / 60);
        let s = number(total_secs % 60);
        cat4(m.as_str(), "m ", s.as_str(), "s")
    } else {
        cat2(short, "s")
    }
}

/// `n / d` to the nearest integer, with ties to the even one.
pub open spec fn nearest(n: nat, d: nat) -> nat {
    let q = n / d;
    let r = n % d;
    if 2 * r < d || (2 * r == d && q % 2 == 0) {
        q
    } else {
        q + 1
    }
}

/// The distance between neighbouring double precision numbers around `n`.
pub open spec fn double_spacing(n: nat) -> nat
    decreases n,
{
    if n < 0x20_0000_0000_0000 {
        1
    } else {
        2 * double_spacing(n / 2)
    }
}

/// `n` as a double precision number.
pub open spec fn as_double(n: nat) -> nat {
    nearest(n, double_spacing(n)) * double_spacing(n)
}

/// `b / unit` with one decimal place.
pub open spec fn one_place(b: nat, unit: nat) -> Seq<char> {
    let t = nearest(b * 10, unit);
    decimal(t / 10) + "."@ + decimal(t % 10)
}

/// `b / unit` with two decimal places.
pub open spec fn two_places(b: nat, unit: nat) -> Seq<char> {
    let t = nearest(b * 100, unit);
    decimal(t / 100) + "."@ + decimal((t % 100) / 10) + decimal(t % 10)
}

/// A byte count in the largest unit that it fills, from the count as a double precision
/// number.
pub open spec fn bytes_text(bytes: nat) -> Seq<char> {
    let b = as_double(bytes);
    if bytes >= 0x4000_0000 {
        two_places(b, 0x4000_0000) + " GiB"@
    } else if bytes >= 0x10_0000 {
        two_places(b, 0x10_0000) + " MiB"@
    } else if bytes >= 0x400 {
        one_place(b, 0x400) + " KiB"@
    } else {
        decimal(bytes) + " B"@
    }
}

/// `n / d` to the nearest integer, with ties to the even one.
fn round_nearest(n: u128, d: u128) -> (r: u128)
    requires
        0 < d < 0x1_0000_0000_0000_0000,
        n < 0x1_0000_0000_0000_0000_0000_0000,
    ensures
        r == nearest(n as nat, d as nat),
        r <= n + 1,
{
    let q: u128 = n / d;
    let rem: u128 = n % d;
    assert(q <= n) by (nonlinear_arith)
        requires
            q == n / d,
            d > 0,
    ;
    if 2 * rem < d || (2 * rem == d && q % 2 == 0) {
        q
    } else {
        q + 1
    }
}

proof fn lemma_spacing(n: nat)
    requires
        n < 0x1_0000_0000_0000_0000,
    ensures
        1 <= double_spacing(n) <= 0x800,
{
    reveal_with_fuel(double_spacing, 13);
}

/// `n` as a double precision number.
fn to_double(n: u64) -> (r: u128)
    ensures
        r == as_double(n as nat),
        r <= 0x2_0000_0000_0000_0000,
        n < 0x20_0000_0000_0000 ==> r == n,
{
    proof {
        lemma_spacing(n as nat);
    }
    let mut spacing: u128 = 1;
    let mut m: u64 = n;
    while m >= 0x20_0000_0000_0000
        invariant
            m <= n,
            1 <= double_spacing(n as nat) <= 0x800,
            1 <= spacing <= 0x800,
            spacing * double_spacing(m as nat) == double_spacing(n as nat),
            n < 0x20_0000_0000_0000 ==> m == n && spacing == 1,
        decreases m,
    {
        assert(double_spacing(m as nat) == 2 * double_spacing((m / 2) as nat));
        assert(spacing * (2 * double_spacing((m / 2) as nat)) == (2 * spacing) * double_spacing(
            (m / 2) as nat,
        )) by (nonlinear_arith);
        assert(2 * spacing <= 0x800) by (nonlinear_arith)
            requires
                (2 * spacing) * double_spacing((m / 2) as nat) <= 0x800,
                double_spacing((m / 2) as nat) >= 1,
        ;
        spacing = spacing * 2;
        m = m / 2;
    }
    assert(double_spacing(m as nat) == 1);
    assert(spacing == double_spacing(n as nat)) by (nonlinear_arith)
        requires
            spacing * double_spacing(m as nat) == double_spacing(n as nat),
            double_spacing(m as nat) == 1,
    ;
    let units = round_nearest(n as u128, spacing);
    assert(spacing == 1 ==> units * spacing == n) by (nonlinear_arith)
        requires
            units == nearest(n as nat, spacing as nat),
    ;
    assert(units * spacing <= 0x2_0000_0000_0000_0000) by (nonlinear_arith)
        requires
            units == nearest(n as nat, spacing as nat),
            n < 0x1_0000_0000_0000_0000,
            1 <= spacing <= 0x800,
    {
        let q = n as nat / spacing as nat;
        assert(q * spacing <= n);
        assert(units <= q + 1);
    }
    units * spacing
}

/// A byte count in the largest unit that it fills (such as `12.34 MiB`).
pub fn format_bytes(bytes: u64) -> (r: String)
    ensures
        r@ == bytes_text(bytes as nat),
{
    let b = to_double(bytes);
    if bytes >= 0x4000_0000 {
        let t = places(b, 100, 0x4000_0000);
        let whole = number(t / 100);
        let tenth = number((t % 100) / 10);
        let hundredth = number(t % 10);
        cat5(whole.as_str(), ".", tenth.as_str(), hundredth.as_str(), " GiB")
    } else if bytes >= 0x10_0000 {
        let t = places(b, 100, 0x10_0000);
        let whole = number(t / 100);
        let tenth = number((t % 100) / 10);
        let hundredth = number(t % 10);
        cat5(whole.as_str(), ".", tenth.as_str(), hundredth.as_str(), " MiB")
    } else if bytes >= 0x400 {
        let t = places(b, 10, 0x400);
        let whole = number(t / 10);
        let tenth = number(t % 10);
        cat4(whole.as_str(), ".", tenth.as_str(), " KiB")
    } else {
        cat2(number(bytes).as_str(), " B")
    }
}

/// `b / unit` in units of `1 / scale`.
fn places(b: u128, scale: u128, unit: u128) -> (r: u64)
    requires
        scale == 10 || scale == 100,
        unit == 0x400 || unit == 0x10_0000 || unit == 0x4000_0000,
        b <= 0x2_0000_0000_0000_0000,
        unit != 0x4000_0000 ==> b < 0x4000_0000,
    ensures
        r == nearest((b * scale) as nat, unit as nat),
{
    let t = round_nearest(b * scale, unit);
    assert(t <= 0xffff_ffff_ffff_ffff) by (nonlinear_arith)
        requires
            t == nearest((b * scale) as nat, unit as nat),
            b * scale <= 0xC8_0000_0000_0000_0000,
            unit == 0x400 ==> b * scale < 0x19_0000_0000,
            unit == 0x400 || unit == 0x10_0000 || unit == 0x4000_0000,
            unit == 0x10_0000 ==> b * scale < 0x19_0000_0000,
    ;
    t as u64
}

/// A transfer whose progress may be shown.
#[derive(Debug)]
pub struct TransferProgress {
    pub show_progress: bool,
}

/// A transfer is followed on a terminal, unless output is suppressed.
pub fn start_transfer(v: Verbosity, is_tty: bool) -> (r: TransferProgress)
    ensures
        r.show_progress == (is_tty && v != Verbosity::Quiet),
{
    TransferProgress { show_progress: is_tty && v != Verbosity::Quiet }
}

/// The progress of a transfer.
pub open spec fn progress_text(transferred: nat, speed: nat) -> Seq<char> {
    "    "@ + bytes_text(transferred) + " | "@ + bytes_text(speed) + "/s"@
}

/// The summary of a transfer.
pub open spec fn transfer_text(transferred: nat, short: Seq<char>, speed: nat) -> Seq<char> {
    "    "@ + bytes_text(transferred) + " transferred in "@ + short + "s ("@ + bytes_text(speed)
        + "/s)"@
}

impl TransferProgress {
    /// The text that shows the progress, where it is shown.
    pub fn update(&self, transferred: u64, speed: u64) -> (r: Option<String>)
        ensures
            r.deep_view() == (if self.show_progress {
                Some(progress_text(transferred as nat, speed as nat))
            } else {
                None
            }),
    {
        if self.show_progress {
            let t = format_bytes(transferred);
            let s = format_bytes(speed);
            Some(cat5("    ", t.as_str(), " | ", s.as_str(), "/s"))
        } else {
            None
        }
    }

    /// The text that sums the transfer up, unless output is suppressed.
    pub fn finish(self, v: Verbosity, transferred: u64, short: &str, speed: u64) -> (r: Option<
        String,
    >)
        ensures
            r.deep_view() == (if v != Verbosity::Quiet {
                Some(transfer_text(transferred as nat, short@, speed as nat))
            } else {
                None
            }),
    {
        if v != Verbosity::Quiet {
            let t = format_bytes(transferred);
            let s = format_bytes(speed);
            let head = cat5("    ", t.as_str(), " transferred in ", short, "s (");
            Some(cat3(head.as_str(), s.as_str(), "/s)"))
        } else {
            None
        }
    }
}

}
