//! What the user is told: which messages are shown, how amounts are written, what the summary of
//! a backup says, and that the command that is shown is the one that is run.

use crate::backup::{
    acquiring, all_complaints, announcing, backing_up, backing_up_one, complaints, conclusion,
    last_step, outcome_line, running, steps_of, summing_up, telling_outcomes, telling_sources,
    total_bytes, verdict, working, Outcome,
};
use crate::btrfs::{checking_subvolume, send_call, transfer_command_text};
use crate::command_runner::{launching, querying};
use crate::config::{judging, validating, validating_source, Location, Setup, Source};
use crate::error::{fault_text, hints_for, hints_if, Fault, IoFault, IoKind};
use crate::finding::{lemma_checking, lemma_not_shown, not_shown};
use crate::journal::{ask, drive, flag_in, group_plan, present, say, Answer, Ask, Call, Log, Tone};
use crate::orders::{asked_for, words};
use crate::path::quoted_path;
use crate::reading::lemma_joined_front;
use crate::spelling::displayed;
use crate::text::{decimal, has, joined, occurs_at, quoted_text, trimmed};
use crate::trace::{extends, lemma_drive_extends, settled};
use crate::ui::{
    as_double, bytes_text, command_text, double_spacing, duration_text, error_lines, nearest,
    progress_text, rendered, shown_arg, stderr_lines, step_text, transfer_text, Shown, Verbosity,
};
use vstd::prelude::*;

verus! {

/// The whole text of a line of output.
pub open spec fn line_text(line: Shown) -> Seq<char> {
    line.before + line.styled + line.after
}

/// What stands at a position stands somewhere.
proof fn lemma_stands(head: Seq<char>, middle: Seq<char>, tail: Seq<char>)
    ensures
        has(head + middle + tail, middle),
{
    let s = head + middle + tail;
    let i = head.len() as int;
    assert(s.subrange(i, i + middle.len()) =~= middle);
    assert(occurs_at(s, middle, i));
}

/// Which messages are shown: warnings and errors always, details only when more is asked for,
/// and all others unless output is suppressed. What is shown holds the whole text.
pub proof fn lemma_shown(v: Verbosity, tone: Tone, text: Seq<char>)
    requires
        tone != Tone::CmdStderr,
    ensures
        rendered(v, tone, text).len() > 0 <==> {
            ||| tone == Tone::Warning
            ||| tone == Tone::Error
            ||| v == Verbosity::Verbose
            ||| v == Verbosity::Normal && tone != Tone::Detail
        },
        rendered(v, tone, text).len() > 0 && tone != Tone::SectionEnd ==> exists|i: int|
            0 <= i < rendered(v, tone, text).len() && has(
                line_text(#[trigger] rendered(v, tone, text)[i]),
                text,
            ),
{
    let all = rendered(v, tone, text);
    if all.len() > 0 && tone != Tone::SectionEnd {
        let none = Seq::<char>::empty();
        let i: int = if tone == Tone::Header {
            1
        } else {
            0
        };
        let line = all[i];
        match tone {
            Tone::Header => {
                assert(line_text(line) =~= "== "@ + text + " =="@);
                lemma_stands("== "@, text, " =="@);
            },
            Tone::Step => {
                assert(line_text(line) =~= none + text + none);
                lemma_stands(none, text, none);
            },
            Tone::Substep => {
                assert(line_text(line) =~= ("  "@ + "->"@ + " "@) + text + none);
                lemma_stands("  "@ + "->"@ + " "@, text, none);
            },
            Tone::Success => {
                assert(line_text(line) =~= ("  "@ + "\u{2713} "@) + text + none);
                lemma_stands("  "@ + "\u{2713} "@, text, none);
            },
            Tone::Info => {
                assert(line_text(line) =~= "  "@ + text + none);
                lemma_stands("  "@, text, none);
            },
            Tone::Detail => {
                assert(line_text(line) =~= "     "@ + text + none);
                lemma_stands("     "@, text, none);
            },
            Tone::Warning => {
                assert(line_text(line) =~= ("  "@ + "\u{26a0} "@) + text + none);
                lemma_stands("  "@ + "\u{26a0} "@, text, none);
            },
            Tone::Error => {
                assert(line_text(line) =~= ("  "@ + "\u{2717} "@) + text + none);
                lemma_stands("  "@ + "\u{2717} "@, text, none);
            },
            Tone::CmdStart => {
                assert(line_text(line) =~= ("  "@ + "$ "@) + text + none);
                lemma_stands("  "@ + "$ "@, text, none);
            },
            _ => {},
        }
        assert(has(line_text(all[i]), text));
    }
}

/// Of what a command wrote to its standard error, every line that is not blank is shown.
pub proof fn lemma_stderr_shown(all: Seq<Seq<char>>, k: int)
    requires
        0 <= k < all.len(),
        trimmed(all[k]).len() > 0,
    ensures
        exists|i: int|
            0 <= i < stderr_lines(all).len() && has(
                line_text(#[trigger] stderr_lines(all)[i]),
                trimmed(all[k]),
            ),
    decreases all.len(),
{
    let text = trimmed(all[k]);
    let none = Seq::<char>::empty();
    let shown = stderr_lines(all);
    if k == all.len() - 1 {
        let i = shown.len() - 1;
        assert(line_text(shown[i]) =~= ("    "@ + "stderr: "@) + text + none);
        lemma_stands("    "@ + "stderr: "@, text, none);
        assert(has(line_text(shown[i]), text));
    } else {
        let front = all.drop_last();
        assert(front[k] == all[k]);
        lemma_stderr_shown(front, k);
        let rest = stderr_lines(front);
        let i = choose|i: int| 0 <= i < rest.len() && has(line_text(#[trigger] rest[i]), text);
        assert(shown[i] == rest[i]);
        assert(has(line_text(shown[i]), text));
    }
}

/// The command that is announced is the one that is run, right after.
pub proof fn lemma_announced(c: Call, log: Log)
    requires
        settled(log),
    ensures
        ({
            let at = log.asked.len() as int;
            let (l, o) = drive(launching(c), log);
            let (m, p) = drive(querying(c), log);
            &&& o is Some ==> l.asked == log.asked.push(
                Ask::Say { tone: Tone::CmdStart, text: command_text(c) },
            ).push(Ask::Run(c))
            &&& p is Some ==> m.asked == log.asked.push(
                Ask::Say { tone: Tone::Detail, text: "$ "@ + command_text(c) },
            ).push(Ask::Run(c))
        }),
{
    broadcast use group_plan;

    reveal(launching);
    reveal(querying);
}

/// A command is shown as its words with a space between them, as long as no word holds one.
pub proof fn lemma_command_text(program: Seq<char>, args: Seq<Seq<char>>)
    requires
        forall|i: int|
            0 <= i < args.len() ==> !(has(#[trigger] args[i], " "@)) && !args[i].contains('\0'),
    ensures
        command_text(words(program, args)) == joined(seq![program] + args, " "@),
{
    let shown = args.map_values(|a: Seq<char>| shown_arg(a));
    assert forall|i: int| 0 <= i < args.len() implies #[trigger] shown[i] == args[i] by {
        assert(displayed(args[i]) == args[i]);
    }
    assert(shown =~= args);
    if args.len() == 0 {
        assert(seq![program] + args =~= seq![program]);
    } else {
        lemma_joined_first(program, args);
    }
}

proof fn lemma_joined_first(first: Seq<char>, rest: Seq<Seq<char>>)
    requires
        rest.len() > 0,
    ensures
        joined(seq![first] + rest, " "@) == first + " "@ + joined(rest, " "@),
{
    lemma_joined_front(first, rest, " "@);
}

/// A transfer is shown as its two commands with a pipe between them: the one that sends, with
/// the parent where there is one, and the one that receives.
pub proof fn lemma_transfer_shown(source: Seq<char>, parent: Option<Seq<char>>, dest: Seq<char>)
    requires
        !(has(source, " "@)) && !source.contains('\0'),
        !(has(dest, " "@)) && !dest.contains('\0'),
        parent matches Some(p) ==> !(has(p, " "@)) && !p.contains('\0'),
    ensures
        transfer_command_text(source, parent, dest) == command_text(send_call(source, parent))
            + " | "@ + command_text(words("btrfs"@, seq!["receive"@, dest])),
{
    reveal_strlit("btrfs");
    reveal_strlit("send");
    reveal_strlit("receive");
    reveal_strlit("-p");
    reveal_strlit(" ");
    reveal_strlit(" | ");
    reveal_strlit("btrfs send ");
    reveal_strlit("btrfs send -p ");
    reveal_strlit(" | btrfs receive ");
    assert(!(has("send"@, " "@)) && !(has("receive"@, " "@)) && !(has("-p"@, " "@))) by {
        lemma_no_space("send"@);
        lemma_no_space("receive"@);
        lemma_no_space("-p"@);
    }
    let receive = seq!["receive"@, dest];
    lemma_command_text("btrfs"@, receive);
    lemma_joined_first("btrfs"@, receive);
    lemma_joined_two("receive"@, dest);
    assert(receive =~= seq!["receive"@, dest]);
    let right = command_text(words("btrfs"@, receive));
    assert(right =~= "btrfs"@ + " "@ + ("receive"@ + " "@ + dest));
    match parent {
        Some(p) => {
            let send = seq!["send"@, "-p"@, p, source];
            crate::orders::lemma_send_command(source, p);
            lemma_command_text("btrfs"@, send);
            lemma_joined_first("btrfs"@, send);
            assert(send =~= seq!["send"@] + seq!["-p"@, p, source]);
            lemma_joined_first("send"@, seq!["-p"@, p, source]);
            assert(seq!["-p"@, p, source] =~= seq!["-p"@] + seq![p, source]);
            lemma_joined_first("-p"@, seq![p, source]);
            lemma_joined_two(p, source);
            assert(transfer_command_text(source, parent, dest) =~= command_text(
                send_call(source, parent),
            ) + " | "@ + right);
        },
        None => {
            let send = seq!["send"@, source];
            crate::orders::lemma_send_command(source, source);
            lemma_command_text("btrfs"@, send);
            lemma_joined_first("btrfs"@, send);
            lemma_joined_two("send"@, source);
            assert(transfer_command_text(source, parent, dest) =~= command_text(
                send_call(source, parent),
            ) + " | "@ + right);
        },
    }
}

proof fn lemma_joined_two(a: Seq<char>, b: Seq<char>)
    ensures
        joined(seq![a, b], " "@) == a + " "@ + b,
{
    assert(seq![a, b] =~= seq![a] + seq![b]);
    lemma_joined_first(a, seq![b]);
}

proof fn lemma_no_space(s: Seq<char>)
    requires
        !s.contains(' '),
    ensures
        !(has(s, " "@)),
{
    reveal_strlit(" ");
    if has(s, " "@) {
        let i = choose|i: int| occurs_at(s, " "@, i);
        assert(s.subrange(i, i + 1)[0] == ' ');
        assert(s[i] == ' ');
    }
}

/// A duration of a minute or more is written as the hours, minutes and seconds that it is made
/// of, without hours where there are none; a shorter one as it is given.
pub proof fn lemma_duration(h: nat, m: nat, s: nat, short: Seq<char>)
    requires
        m < 60,
        s < 60,
    ensures
        duration_text(3600 * h + 60 * m + s, short) == if h > 0 {
            decimal(h) + "h "@ + decimal(m) + "m "@ + decimal(s) + "s"@
        } else if m > 0 {
            decimal(m) + "m "@ + decimal(s) + "s"@
        } else {
            short + "s"@
        },
{
    let secs = 3600 * h + 60 * m + s;
    if h > 0 {
        assert(secs / 3600 == h && (secs % 3600) / 60 == m && secs % 60 == s) by (nonlinear_arith)
            requires
                secs == 3600 * h + 60 * m + s,
                m < 60,
                s < 60,
        ;
    }
}

/// `t` is `b / unit`, in parts of which `scale` make a whole, to the nearest part.
pub open spec fn rounds_to(t: nat, scale: nat, b: nat, unit: nat) -> bool {
    &&& 2 * (t * unit) <= 2 * (scale * b) + unit
    &&& 2 * (scale * b) <= 2 * (t * unit) + unit
}

proof fn lemma_nearest(n: nat, d: nat)
    requires
        d > 0,
    ensures
        2 * (nearest(n, d) * d) <= 2 * n + d,
        2 * n <= 2 * (nearest(n, d) * d) + d,
{
    let q = n / d;
    let r = n % d;
    assert(n == q * d + r && 0 <= r < d) by (nonlinear_arith)
        requires
            d > 0,
            q == n / d,
            r == n % d,
    ;
    assert((q + 1) * d == q * d + d) by (nonlinear_arith);
}

proof fn lemma_exact_double(n: nat)
    requires
        n < 0x20_0000_0000_0000,
    ensures
        as_double(n) == n,
{
    assert(double_spacing(n) == 1);
    assert(nearest(n, 1) == n);
}

/// An amount of bytes that a double precision number holds exactly is written in the largest
/// unit that it fills, to the nearest hundredth, or tenth for KiB; below that, as it is.
pub proof fn lemma_bytes(n: nat)
    requires
        n < 0x20_0000_0000_0000,
    ensures
        n < 1024 ==> bytes_text(n) == decimal(n) + " B"@,
        1024 <= n < 1024 * 1024 ==> exists|t: nat| #[trigger]
            rounds_to(t, 10, n, 1024) && bytes_text(n) == decimal(t / 10) + "."@ + decimal(t % 10)
                + " KiB"@,
        1024 * 1024 <= n < 1024 * 1024 * 1024 ==> exists|t: nat| #[trigger]
            rounds_to(t, 100, n, 1024 * 1024) && bytes_text(n) == decimal(t / 100) + "."@ + decimal(
                (t % 100) / 10,
            ) + decimal(t % 10) + " MiB"@,
        1024 * 1024 * 1024 <= n ==> exists|t: nat| #[trigger]
            rounds_to(t, 100, n, 1024 * 1024 * 1024) && bytes_text(n) == decimal(t / 100) + "."@
                + decimal((t % 100) / 10) + decimal(t % 10) + " GiB"@,
{
    lemma_exact_double(n);
    lemma_nearest(n * 10, 1024);
    lemma_nearest(n * 100, 1024 * 1024);
    lemma_nearest(n * 100, 1024 * 1024 * 1024);
    if 1024 <= n < 1024 * 1024 {
        assert(rounds_to(nearest(n * 10, 1024), 10, n, 1024));
    } else if 1024 * 1024 <= n < 1024 * 1024 * 1024 {
        assert(rounds_to(nearest(n * 100, 1024 * 1024), 100, n, 1024 * 1024));
    } else if 1024 * 1024 * 1024 <= n {
        assert(rounds_to(nearest(n * 100, 1024 * 1024 * 1024), 100, n, 1024 * 1024 * 1024));
    }
}

proof fn lemma_spacing(n: nat)
    ensures
        double_spacing(n) >= 1,
        n < 0x20_0000_0000_0000 * double_spacing(n),
        double_spacing(n) > 1 ==> 0x10_0000_0000_0000 * double_spacing(n) <= n,
    decreases n,
{
    if n >= 0x20_0000_0000_0000 {
        lemma_spacing(n / 2);
    }
}

/// A larger amount is taken as the double precision number that is nearest to it: a multiple of
/// a spacing that leaves 53 binary digits, at most half a spacing away.
pub proof fn lemma_double(n: nat)
    ensures
        ({
            let d = double_spacing(n);
            &&& d >= 1
            &&& n < 0x20_0000_0000_0000 * d
            &&& d > 1 ==> 0x10_0000_0000_0000 * d <= n
            &&& as_double(n) % d == 0
            &&& 2 * as_double(n) <= 2 * n + d
            &&& 2 * n <= 2 * as_double(n) + d
        }),
{
    let d = double_spacing(n);
    lemma_spacing(n);
    lemma_nearest(n, d);
    assert((nearest(n, d) * d) % d == 0) by (nonlinear_arith)
        requires
            d >= 1,
    ;
}

/// The bytes in all: those of one source after another, and none for a source that failed.
pub proof fn lemma_total_bytes(done: Seq<Outcome>, o: Outcome)
    ensures
        total_bytes(Seq::empty()) == 0,
        total_bytes(done.push(o)) == match o.result {
            Ok(stats) => (total_bytes(done) + stats.bytes) as nat % 0x1_0000_0000_0000_0000,
            Err(_) => total_bytes(done),
        },
{
    assert(done.push(o).drop_last() =~= done);
}

/// Every source that failed is complained of, with its path and what went wrong, in order; no
/// other is.
pub proof fn lemma_complaints_in_order(done: Seq<Outcome>, o: Outcome)
    ensures
        complaints(Seq::empty()).len() == 0,
        complaints(done.push(o)) == match o.result {
            Ok(_) => complaints(done),
            Err(e) => complaints(done).push(o.path + ": "@ + fault_text(e)),
        },
{
    assert(done.push(o).drop_last() =~= done);
}

/// How many of the sources failed.
pub open spec fn failures(outcomes: Seq<Outcome>) -> nat {
    outcomes.filter(|o: Outcome| o.result is Err).len()
}

proof fn lemma_failures(outcomes: Seq<Outcome>)
    ensures
        complaints(outcomes).len() == failures(outcomes),
        failures(outcomes) <= outcomes.len(),
    decreases outcomes.len(),
{
    reveal(Seq::filter);
    if outcomes.len() > 0 {
        lemma_failures(outcomes.drop_last());
    }
}

/// The last line of the summary gives how many sources were backed up; where some failed, it is
/// a warning and gives how many did.
pub proof fn lemma_verdict(outcomes: Seq<Outcome>)
    ensures
        failures(outcomes) <= outcomes.len(),
        failures(outcomes) == 0 ==> verdict(outcomes) == (
            Tone::Success,
            "Backup completed successfully ("@ + decimal(outcomes.len()) + " sources)"@,
        ),
        failures(outcomes) > 0 ==> verdict(outcomes) == (
            Tone::Warning,
            "Backup completed with errors ("@ + decimal(
                (outcomes.len() - failures(outcomes)) as nat,
            ) + " succeeded, "@ + decimal(failures(outcomes)) + " failed)"@,
        ),
{
    lemma_failures(outcomes);
}

/// What is told of a source in the summary: the amount and the speed, or that it failed.
pub open spec fn told_of(o: Outcome) -> Ask {
    match o.result {
        Ok(stats) => Ask::Say {
            tone: Tone::Success,
            text: o.path + ": "@ + bytes_text(stats.bytes as nat) + " ("@ + bytes_text(
                stats.bytes_per_sec as nat,
            ) + "/s)"@,
        },
        Err(_) => Ask::Say { tone: Tone::Error, text: o.path + ": failed"@ },
    }
}

proof fn lemma_telling(outcomes: Seq<Outcome>, i: int, log: Log)
    requires
        settled(log),
        0 <= i <= outcomes.len(),
    ensures
        ({
            let (l, o) = drive(telling_outcomes(outcomes, i), log);
            o is Some ==> {
                &&& l.asked.len() == log.asked.len() + outcomes.len() - i
                &&& forall|j: int|
                    i <= j < outcomes.len() ==> l.asked[log.asked.len() + j - i] == told_of(
                        #[trigger] outcomes[j],
                    )
            }
        }),
    decreases outcomes.len() - i,
{
    broadcast use {group_plan, lemma_drive_extends};

    let (l, o) = drive(telling_outcomes(outcomes, i), log);
    if i < outcomes.len() && o is Some {
        let p1 = say(outcome_line(outcomes[i]).0, outcome_line(outcomes[i]).1);
        let l1 = drive(p1, log).0;
        let at = log.asked.len() as int;
        assert(l1.asked[at] == told_of(outcomes[i]));
        lemma_telling(outcomes, i + 1, l1);
        assert(extends(l1, l));
        assert(l.asked[at] == l1.asked[at]);
        assert forall|j: int| i <= j < outcomes.len() implies l.asked[at + j - i] == told_of(
            #[trigger] outcomes[j],
        ) by {
            if j > i {
                assert(l.asked[l1.asked.len() + j - (i + 1)] == told_of(outcomes[j]));
            }
        }
    }
}

/// The summary: a line for every source, in order, then the bytes in all and the time that the
/// clock gave, then the verdict, and nothing else.
pub proof fn lemma_summary(outcomes: Seq<Outcome>, log: Log)
    requires
        settled(log),
    ensures
        ({
            let (l, o) = drive(summing_up(outcomes), log);
            let at = log.asked.len() as int;
            let n = outcomes.len() as int;
            o matches Some(Ok(_)) ==> {
                &&& l.asked.len() == at + n + 3
                &&& forall|i: int|
                    0 <= i < n ==> l.asked[at + i] == told_of(#[trigger] outcomes[i])
                &&& l.asked[at + n] == Ask::ReadClock
                &&& l.answers[at + n] matches Answer::Elapsed { secs, short } && l.asked[at + n + 1]
                    == (Ask::Say {
                    tone: Tone::Info,
                    text: "Total: "@ + bytes_text(total_bytes(outcomes)) + " transferred in "@
                        + duration_text(secs as nat, short),
                })
                &&& l.asked[at + n + 2] == (Ask::Say {
                    tone: verdict(outcomes).0,
                    text: verdict(outcomes).1,
                })
            }
        }),
{
    broadcast use {group_plan, lemma_drive_extends};

    reveal(summing_up);
    let (l, o) = drive(summing_up(outcomes), log);
    let at = log.asked.len() as int;
    let n = outcomes.len() as int;
    if o matches Some(Ok(_)) {
        let l1 = drive(telling_outcomes(outcomes, 0), log).0;
        lemma_telling(outcomes, 0, log);
        assert(extends(l1, l));
        let l2 = drive(ask(Ask::ReadClock), l1).0;
        assert(l2.asked[at + n] == Ask::ReadClock);
        assert forall|i: int| 0 <= i < n implies l.asked[at + i] == told_of(
            #[trigger] outcomes[i],
        ) by {
            assert(l.asked[at + i] == l1.asked[at + i - 0]);
        }
    }
}

/// A backup that fails says all that went wrong: with every source, in order, and then with the
/// live boot environment.
pub proof fn lemma_failure_says_all(outcomes: Seq<Outcome>, live: Option<Fault>)
    ensures
        conclusion(outcomes, live) matches Err(e) ==> e == Fault::Btrfs(
            "Backup completed with errors: "@ + joined(
                complaints(outcomes) + match live {
                    Some(f) => seq!["live_boot"@ + ": "@ + fault_text(f)],
                    None => Seq::empty(),
                },
                "; "@,
            ),
        ),
{
    match live {
        Some(f) => {
            let more = seq!["live_boot"@ + ": "@ + fault_text(f)];
            assert(all_complaints(outcomes, live) =~= complaints(outcomes) + more);
        },
        None => {
            assert(complaints(outcomes) + Seq::<Seq<char>>::empty() =~= complaints(outcomes));
        },
    }
}

/// The steps are numbered from 1 to their number: mounting comes first, then every source, then
/// the live boot environment where there is one, and the summary is last.
pub proof fn lemma_steps(c: Setup, outcomes: Seq<Outcome>)
    ensures
        last_step(c, outcomes) <= steps_of(c),
        failures(outcomes) == 0 ==> last_step(c, outcomes) == steps_of(c),
        steps_of(c) == c.sources.len() + (if c.target.enable_live_boot {
            3nat
        } else {
            2
        }),
{
    lemma_failures(outcomes);
}

proof fn lemma_among(a: Seq<Seq<char>>, b: Seq<Seq<char>>, x: Seq<char>)
    requires
        a.contains(x) || b.contains(x),
    ensures
        (a + b).contains(x),
{
    if a.contains(x) {
        let i = choose|i: int| 0 <= i < a.len() && a[i] == x;
        assert((a + b)[i] == x);
    } else {
        let i = choose|i: int| 0 <= i < b.len() && b[i] == x;
        assert((a + b)[a.len() + i] == x);
    }
}

/// The hints that go with a failed Btrfs operation are about what the message is about.
pub proof fn lemma_btrfs_hints(m: Seq<char>)
    ensures
        ({
            let hints = hints_for(Fault::Btrfs(m));
            &&& has(m, "Permission denied"@) ==> hints.contains(
                "Try running with sudo or as root"@,
            )
            &&& has(m, "send"@) || has(m, "Send"@) ==> hints.contains(
                "Ensure the parent snapshot still exists for incremental backup"@,
            )
            &&& has(m, "snapshot"@) || has(m, "Snapshot"@) ==> hints.contains(
                "Ensure the source subvolume is accessible"@,
            )
            &&& has(m, "receive"@) || has(m, "Receive"@) ==> hints.contains(
                "Check free space on the target device"@,
            )
        }),
{
    let permission = has(m, "Permission denied"@);
    let send = has(m, "send"@) || has(m, "Send"@);
    let snapshot = has(m, "snapshot"@) || has(m, "Snapshot"@);
    let valid = has(m, "not a btrfs subvolume"@) || has(m, "not a subvolume"@);
    let receive = has(m, "receive"@) || has(m, "Receive"@);
    let root = "Try running with sudo or as root"@;
    let parent = "Ensure the parent snapshot still exists for incremental backup"@;
    let source = "Ensure the source subvolume is accessible"@;
    let space = "Check free space on the target device"@;
    let a = hints_if(permission, seq![root]);
    let b = hints_if(
        send,
        seq!["Check free space on the target: 'btrfs filesystem usage <path>'"@, parent],
    );
    let c = hints_if(
        snapshot,
        seq![source, "Check disk space: 'btrfs filesystem usage <path>'"@],
    );
    let d = hints_if(valid, seq!["Verify the path points to a valid btrfs subvolume"@]);
    let e = hints_if(
        receive,
        seq![
            space,
            "Ensure the target directory exists and is on a btrfs filesystem"@,
        ],
    );
    let all = a + b + c + d + e;
    assert(all.len() > 0 ==> hints_for(Fault::Btrfs(m)) == all);
    if permission {
        assert(a[0] == root);
        lemma_among(a, b, root);
        lemma_among(a + b, c, root);
        lemma_among(a + b + c, d, root);
        lemma_among(a + b + c + d, e, root);
    }
    if send {
        assert(b[1] == parent);
        lemma_among(a, b, parent);
        lemma_among(a + b, c, parent);
        lemma_among(a + b + c, d, parent);
        lemma_among(a + b + c + d, e, parent);
    }
    if snapshot {
        assert(c[0] == source);
        lemma_among(a + b, c, source);
        lemma_among(a + b + c, d, source);
        lemma_among(a + b + c + d, e, source);
    }
    if receive {
        assert(e[0] == space);
        lemma_among(a + b + c + d, e, space);
    }
}

/// The hints that go with a failed mount are about what the message is about.
pub proof fn lemma_mount_hints(m: Seq<char>)
    ensures
        ({
            let hints = hints_for(Fault::Mount(m));
            &&& has(m, "LUKS"@) || has(m, "luks"@) ==> hints.contains(
                "Check that the keyfile exists and is readable"@,
            )
            &&& has(m, "Failed to mount"@) ==> hints.contains(
                "Check that the filesystem on the device is valid"@,
            )
            &&& has(m, "Failed to unmount"@) ==> hints.contains(
                "Check for open files on the mount point: 'lsof <path>'"@,
            )
        }),
{
    let luks = has(m, "LUKS"@) || has(m, "luks"@);
    let key = "Check that the keyfile exists and is readable"@;
    let valid = "Check that the filesystem on the device is valid"@;
    let open = "Check for open files on the mount point: 'lsof <path>'"@;
    let a = hints_if(
        luks,
        seq![
            "Verify the device is a valid LUKS container: 'cryptsetup isLuks <device>'"@,
            key,
        ],
    );
    let b = hints_if(
        has(m, "not a LUKS"@),
        seq!["Ensure encryption is configured for the correct device"@],
    );
    let c = hints_if(
        has(m, "Failed to mount"@),
        seq![valid, "Try mounting manually to diagnose: 'mount <device> <path>'"@],
    );
    let d = hints_if(has(m, "Failed to unmount"@), seq![open]);
    let all = a + b + c + d;
    assert(all.len() > 0 ==> hints_for(Fault::Mount(m)) == all);
    if luks {
        assert(a[1] == key);
        lemma_among(a, b, key);
        lemma_among(a + b, c, key);
        lemma_among(a + b + c, d, key);
    }
    if has(m, "Failed to mount"@) {
        assert(c[0] == valid);
        lemma_among(a + b, c, valid);
        lemma_among(a + b + c, d, valid);
    }
    if has(m, "Failed to unmount"@) {
        assert(d[0] == open);
        lemma_among(a + b + c, d, open);
    }
}

/// The hints that go with the other failures are about what they are about.
pub proof fn lemma_other_hints(m: Seq<char>, e: IoFault)
    ensures
        has(m, "systemd-boot"@) || has(m, "bootctl"@) ==> hints_for(Fault::Bootloader(m)).contains(
            "Check that the ESP is mounted and writable"@,
        ),
        has(m, "UUID"@) ==> hints_for(Fault::Hook(m)).contains(
            "Ensure the target device is properly mounted"@,
        ),
        has(m, "kernel"@) || has(m, "initramfs"@) ==> hints_for(Fault::Hook(m)).contains(
            "Check that the kernel and initramfs paths in boot_entry config are correct"@,
        ),
        has(m, "already running"@) ==> hints_for(Fault::Lock(m)).contains(
            "Wait for the other btrbak instance to finish"@,
        ),
        e.kind == IoKind::PermissionDenied ==> hints_for(Fault::Io(e)).contains(
            "Try running with sudo or as root"@,
        ),
        e.kind == IoKind::NotFound ==> hints_for(Fault::Io(e)).contains(
            "Check that the file or directory path is correct"@,
        ),
        e.kind == IoKind::AlreadyExists ==> hints_for(Fault::Io(e)).contains(
            "A file or directory already exists at the target path"@,
        ),
{
    let boot = hints_for(Fault::Bootloader(m));
    if has(m, "systemd-boot"@) || has(m, "bootctl"@) {
        assert(boot[1] == "Check that the ESP is mounted and writable"@);
    }
    let hook = hints_for(Fault::Hook(m));
    let mounted = "Ensure the target device is properly mounted"@;
    let paths = "Check that the kernel and initramfs paths in boot_entry config are correct"@;
    let a = hints_if(has(m, "UUID"@), seq![mounted]);
    let b = hints_if(has(m, "kernel"@) || has(m, "initramfs"@), seq![paths]);
    assert((a + b).len() > 0 ==> hook == a + b);
    if has(m, "UUID"@) {
        assert(a[0] == mounted);
        lemma_among(a, b, mounted);
    }
    if has(m, "kernel"@) || has(m, "initramfs"@) {
        assert(b[0] == paths);
        lemma_among(a, b, paths);
    }
    let lock = hints_for(Fault::Lock(m));
    if has(m, "already running"@) {
        assert(lock[0] == "Wait for the other btrbak instance to finish"@);
    }
    let io = hints_for(Fault::Io(e));
    if e.kind != IoKind::Other {
        assert(io.contains(io[0]));
    }
}

/// An error with hints: the message comes first, and every hint is on a line of its own, in
/// order.
pub proof fn lemma_error_lines(msg: Seq<char>, hints: Seq<Seq<char>>)
    ensures
        ({
            let lines = error_lines(msg, hints);
            &&& lines.len() == if hints.len() == 0 {
                1
            } else {
                hints.len() + 3
            }
            &&& has(line_text(lines[0]), msg)
            &&& forall|i: int|
                0 <= i < hints.len() ==> has(line_text(lines[i + 3]), #[trigger] hints[i])
        }),
{
    let lines = error_lines(msg, hints);
    let none = Seq::<char>::empty();
    assert(line_text(lines[0]) =~= ("  "@ + "\u{2717} "@) + msg + none);
    lemma_stands("  "@ + "\u{2717} "@, msg, none);
    assert forall|i: int| 0 <= i < hints.len() implies has(
        line_text(lines[i + 3]),
        #[trigger] hints[i],
    ) by {
        assert(line_text(lines[i + 3]) =~= ("    "@ + "\u{2022} "@) + hints[i] + none);
        lemma_stands("    "@ + "\u{2022} "@, hints[i], none);
    }
}

proof fn lemma_telling_sources(sources: Seq<Source>, i: int, log: Log)
    requires
        settled(log),
        0 <= i <= sources.len(),
    ensures
        ({
            let (l, o) = drive(telling_sources(sources, i), log);
            o is Some ==> {
                &&& l.asked.len() == log.asked.len() + sources.len() - i
                &&& forall|j: int|
                    i <= j < sources.len() ==> l.asked[log.asked.len() + j - i] == (Ask::Say {
                        tone: Tone::Info,
                        text: "  "@ + (#[trigger] sources[j]).path,
                    })
            }
        }),
    decreases sources.len() - i,
{
    broadcast use {group_plan, lemma_drive_extends};

    let (l, o) = drive(telling_sources(sources, i), log);
    if i < sources.len() && o is Some {
        let at = log.asked.len() as int;
        let l1 = drive(say(Tone::Info, "  "@ + sources[i].path), log).0;
        lemma_telling_sources(sources, i + 1, l1);
        assert(extends(l1, l));
        assert(l.asked[at] == l1.asked[at]);
        assert forall|j: int| i <= j < sources.len() implies l.asked[at + j - i] == (Ask::Say {
            tone: Tone::Info,
            text: "  "@ + (#[trigger] sources[j]).path,
        }) by {
            if j > i {
                assert(l.asked[at + j - i] == l.asked[l1.asked.len() + j - (i + 1)]);
            }
        }
    }
}

/// What a run says first, a dry run too: its name, every source in order, and the target.
pub proof fn lemma_announcement(c: Setup, log: Log)
    requires
        settled(log),
    ensures
        ({
            let (l, o) = drive(announcing(c), log);
            let at = log.asked.len() as int;
            let n = c.sources.len() as int;
            o matches Some(Ok(_)) ==> {
                &&& l.asked.len() == at + n + 3
                &&& l.asked[at] == (Ask::Say { tone: Tone::Header, text: "Backup: "@ + c.name })
                &&& forall|i: int|
                    0 <= i < n ==> l.asked[at + 2 + i] == (Ask::Say {
                        tone: Tone::Info,
                        text: "  "@ + (#[trigger] c.sources[i]).path,
                    })
                &&& l.asked[at + 2 + n] == (Ask::Say {
                    tone: Tone::Info,
                    text: "Target: "@ + match c.target.location {
                        Location::MountedPath(path) => "MountedPath("@ + quoted_path(path) + ")"@,
                        Location::Device(device) => "Device("@ + quoted_text(device) + ")"@,
                    },
                })
            }
        }),
{
    broadcast use {group_plan, lemma_drive_extends};

    reveal(announcing);
    let (l, o) = drive(announcing(c), log);
    let at = log.asked.len() as int;
    let n = c.sources.len() as int;
    if o matches Some(Ok(_)) {
        let l1 = drive(say(Tone::Header, "Backup: "@ + c.name), log).0;
        let l2 = drive(say(Tone::Info, "Sources:"@), l1).0;
        let l3 = drive(telling_sources(c.sources, 0), l2).0;
        lemma_telling_sources(c.sources, 0, l2);
        assert(extends(l3, l));
        assert(l2.asked[at] == l1.asked[at]);
        assert(l3.asked[at] == l2.asked[at]);
        assert(l.asked[at] == l3.asked[at]);
        assert forall|i: int| 0 <= i < n implies l.asked[at + 2 + i] == (Ask::Say {
            tone: Tone::Info,
            text: "  "@ + (#[trigger] c.sources[i]).path,
        }) by {
            assert(l.asked[at + 2 + i] == l3.asked[l2.asked.len() + i - 0]);
        }
    }
}

/// A word with a space in it is shown in quotes.
pub proof fn lemma_quoted_word(program: Seq<char>, word: Seq<char>)
    requires
        has(word, " "@),
        !word.contains('\0'),
    ensures
        command_text(words(program, seq![word])) == program + " '"@ + word + "'"@,
{
    let args = seq![word];
    let shown = args.map_values(|a: Seq<char>| shown_arg(a));
    assert(displayed(word) == word);
    assert(shown =~= seq!["'"@ + word + "'"@]);
    assert(joined(shown, " "@) == "'"@ + word + "'"@);
    reveal_strlit(" '");
    reveal_strlit(" ");
    reveal_strlit("'");
    assert(command_text(words(program, args)) =~= program + " '"@ + word + "'"@);
}

/// The message of a failure says what it is about, and ends in what went wrong.
pub proof fn lemma_fault_text(f: Fault)
    ensures
        match f {
            Fault::Config(m) => fault_text(f) == "Configuration error: "@ + m,
            Fault::Io(e) => fault_text(f) == "IO error: "@ + e.message,
            Fault::Btrfs(m) => fault_text(f) == "Btrfs operation failed: "@ + m,
            Fault::Mount(m) => fault_text(f) == "Mount error: "@ + m,
            Fault::Bootloader(m) => fault_text(f) == "Bootloader error: "@ + m,
            Fault::Hook(m) => fault_text(f) == "Hook execution error: "@ + m,
            Fault::Lock(m) => fault_text(f) == "Lock error: "@ + m,
        },
{
}

/// The turn of a source is announced with its number among the steps and its path, and ends by
/// saying how it ended: with success where it was backed up, else with an error that says what
/// went wrong.
pub proof fn lemma_turn_told(c: Setup, mount: Seq<char>, i: int, log: Log)
    requires
        settled(log),
        0 <= i < c.sources.len(),
    ensures
        ({
            let (l, o) = drive(backing_up_one(c, mount, i), log);
            let at = log.asked.len() as int;
            let path = c.sources[i].path;
            o matches Some(Ok(out)) ==> {
                &&& at < l.asked.len()
                &&& l.asked[at] == (Ask::Say {
                    tone: Tone::Step,
                    text: "["@ + decimal((i + 2) as nat) + "/"@ + decimal(steps_of(c)) + "] "@ + (
                    "Backing up "@ + path),
                })
                &&& out.path == path
                &&& l.asked.last() == (match out.result {
                    Ok(_) => Ask::Say { tone: Tone::Success, text: "Backed up "@ + path },
                    Err(e) => Ask::Say {
                        tone: Tone::Error,
                        text: "Failed to backup "@ + path + ": "@ + fault_text(e),
                    },
                })
            }
        }),
{
    broadcast use {group_plan, lemma_drive_extends};

    reveal(backing_up_one);
    let (l, o) = drive(backing_up_one(c, mount, i), log);
    let at = log.asked.len() as int;
    let source = c.sources[i];
    if let Some(Ok(out)) = o {
        let text = step_text((i + 2) as nat, steps_of(c), "Backing up "@ + source.path);
        let l1 = drive(say(Tone::Step, text), log).0;
        let l2 = drive(backing_up(source, c.target, mount, c.name), l1).0;
        assert(extends(l2, l));
        assert(extends(l1, l));
        assert(l.asked[at] == l1.asked[at]);
    }
}

/// The amount and the speed of a transfer, while it goes on and when it is done.
pub proof fn lemma_transfer_told(transferred: nat, speed: nat, short: Seq<char>)
    ensures
        progress_text(transferred, speed) == "    "@ + bytes_text(transferred) + " | "@
            + bytes_text(speed) + "/s"@,
        transfer_text(transferred, short, speed) == "    "@ + bytes_text(transferred)
            + " transferred in "@ + short + "s ("@ + bytes_text(speed) + "/s)"@,
{
}

/// What is wrong with a source is said with its path: that it does not exist, that it is no
/// subvolume, or that its snapper configuration is missing. Where the check itself cannot be
/// made, that is said.
pub proof fn lemma_source_fault(source: Source, log: Log)
    requires
        settled(log),
    ensures
        ({
            let (l, o) = drive(validating_source(source), log);
            let at = log.asked.len() as int;
            o matches Some(Err(e)) ==> {
                &&& l.asked[at] == Ask::Exists(source.path)
                &&& !flag_in(l.answers[at]) ==> e == Fault::Config(
                    "Source path does not exist: "@ + quoted_path(source.path),
                )
                &&& flag_in(l.answers[at]) ==> {
                    ||| not_shown(l, at, source.path) && e == Fault::Config(
                        "Source path is not a btrfs subvolume: "@ + quoted_path(source.path),
                    )
                    ||| source.use_snapper && source.snapper_config is None && e == Fault::Config(
                        "snapper_config must be set when use_snapper is true for source: "@
                            + quoted_path(source.path),
                    )
                    ||| e matches Fault::Config(m)
                        && "Failed to check btrfs subvolume status: "@.is_prefix_of(m)
                }
            }
        }),
{
    broadcast use {group_plan, lemma_drive_extends};

    reveal(validating_source);
    reveal(judging);
    let (l, o) = drive(validating_source(source), log);
    let at = log.asked.len() as int;
    if let Some(Err(e)) = o {
        let l1 = drive(present(source.path), log).0;
        assert(l1.asked[at] == Ask::Exists(source.path));
        assert(extends(l1, l));
        assert(l.asked[at] == l1.asked[at]);
        if flag_in(l.answers[at]) {
            let (l2, o2) = drive(checking_subvolume(source.path), l1);
            lemma_checking(source.path, l1);
            assert(extends(l2, l));
            match o2->0 {
                Ok(yes) => {
                    if !yes {
                        lemma_not_shown(l2, l, l1.asked.len() as int, at, source.path);
                    }
                },
                Err(f) => {
                    let head = "Failed to check btrfs subvolume status: "@;
                    let tail = fault_text(f) + ". Ensure btrfs tools are installed."@;
                    let m = head + fault_text(f) + ". Ensure btrfs tools are installed."@;
                    assert(m =~= head + tail);
                    assert(m.subrange(0, head.len() as int) =~= head);
                    assert(head.is_prefix_of(m));
                },
            }
        }
    }
}

/// A run, dry or not, says what it is about: every source is named. A dry run says that it is
/// one.
pub proof fn lemma_run_tells(c: Setup, dry_run: bool, log: Log)
    requires
        settled(log),
    ensures
        ({
            let (l, o) = drive(running(c, dry_run), log);
            let at = log.asked.len() as int;
            o matches Some(Ok(_)) ==> {
                &&& forall|i: int|
                    0 <= i < c.sources.len() ==> asked_for(
                        l,
                        at,
                        Ask::Say {
                            tone: Tone::Info,
                            text: "  "@ + (#[trigger] c.sources[i]).path,
                        },
                    )
                &&& dry_run ==> asked_for(
                    l,
                    at,
                    Ask::Say {
                        tone: Tone::Info,
                        text: "Dry run mode - no changes will be made"@,
                    },
                )
            }
        }),
{
    broadcast use {group_plan, lemma_drive_extends};

    reveal(running);
    reveal(working);
    let (l, o) = drive(running(c, dry_run), log);
    let at = log.asked.len() as int;
    if o matches Some(Ok(_)) {
        let l1 = drive(validating(c), log).0;
        let l2 = drive(acquiring(c.name), l1).0;
        let k = l2.asked.len() as int;
        let l3 = drive(announcing(c), l2).0;
        let w = drive(working(c, dry_run), l2).0;
        lemma_announcement(c, l2);
        assert(extends(w, l));
        assert(extends(l3, w));
        assert(extends(l3, l));
        assert forall|i: int| 0 <= i < c.sources.len() implies asked_for(
            l,
            at,
            Ask::Say { tone: Tone::Info, text: "  "@ + (#[trigger] c.sources[i]).path },
        ) by {
            assert(l.asked[k + 2 + i] == l3.asked[k + 2 + i]);
        }
        if dry_run {
            let n = l3.asked.len() as int;
            let q = Ask::Say {
                tone: Tone::Info,
                text: "Dry run mode - no changes will be made"@,
            };
            assert(w.asked[n] == q);
            assert(l.asked[n] == w.asked[n]);
        }
    }
}

} // verus!
