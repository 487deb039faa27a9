use btrbak::journal::{Command, Tone};
use btrbak::ui::{
    cmd_stderr_output, detail, error, error_with_hints, format_bytes, format_cmd, format_duration,
    header, info, init, numbered, render, section_end, start_transfer, step, substep, success,
    warning, Line, Style, Verbosity,
};

/// A duration from seconds with a fraction.
fn duration(secs: f64) -> String {
    format_duration(secs as u64, &format!("{:.1}", secs))
}

#[test]
fn test_format_duration_sub_second() {
    assert_eq!(duration(0.5), "0.5s");
}

#[test]
fn test_format_duration_one_second() {
    assert_eq!(duration(1.0), "1.0s");
}

#[test]
fn test_format_duration_seconds_only() {
    assert_eq!(duration(45.3), "45.3s");
}

#[test]
fn test_format_duration_minutes_seconds() {
    assert_eq!(duration(150.0), "2m 30s");
}

#[test]
fn test_format_duration_exact_minute() {
    assert_eq!(duration(60.0), "1m 0s");
}

#[test]
fn test_format_duration_hours() {
    assert_eq!(duration(3723.0), "1h 2m 3s");
}

#[test]
fn test_format_duration_exact_hour() {
    assert_eq!(duration(3600.0), "1h 0m 0s");
}

#[test]
fn test_format_duration_zero() {
    assert_eq!(duration(0.0), "0.0s");
}

#[test]
fn test_format_bytes_zero() {
    assert_eq!(format_bytes(0), "0 B");
}

#[test]
fn test_format_bytes_bytes() {
    assert_eq!(format_bytes(100), "100 B");
}

#[test]
fn test_format_bytes_one_kib() {
    assert_eq!(format_bytes(1024), "1.0 KiB");
}

#[test]
fn test_format_bytes_kib() {
    assert_eq!(format_bytes(1536), "1.5 KiB");
}

#[test]
fn test_format_bytes_mib() {
    assert_eq!(format_bytes(1_048_576), "1.00 MiB");
}

#[test]
fn test_format_bytes_mib_fractional() {
    // 1.5 MiB = 1_572_864 bytes
    assert_eq!(format_bytes(1_572_864), "1.50 MiB");
}

#[test]
fn test_format_bytes_gib() {
    assert_eq!(format_bytes(1_073_741_824), "1.00 GiB");
}

#[test]
fn test_format_cmd_no_args() {
    let cmd = Command::new("ls");
    assert_eq!(format_cmd(&cmd), "ls");
}

#[test]
fn test_format_cmd_simple_args() {
    let cmd = Command::new("btrfs").arg("subvolume").arg("show").arg("/mnt");
    assert_eq!(format_cmd(&cmd), "btrfs subvolume show /mnt");
}

#[test]
fn test_format_cmd_args_with_spaces() {
    let cmd = Command::new("echo").arg("hello world");
    assert_eq!(format_cmd(&cmd), "echo 'hello world'");
}

#[test]
fn test_format_cmd_mixed_args() {
    let cmd = Command::new("cp").arg("/src/file").arg("/dest/path with spaces");
    assert_eq!(format_cmd(&cmd), "cp /src/file '/dest/path with spaces'");
}

#[test]
fn test_format_cmd_multiple_space_args() {
    let cmd = Command::new("test").arg("arg one").arg("arg two");
    assert_eq!(format_cmd(&cmd), "test 'arg one' 'arg two'");
}

/// The text that bytes get with floating point.
fn reference_bytes(bytes: u64) -> String {
    let kib = 1024.0;
    let mib = 1024.0 * kib;
    let gib = 1024.0 * mib;
    let b = bytes as f64;
    if b >= gib {
        format!("{:.2} GiB", b / gib)
    } else if b >= mib {
        format!("{:.2} MiB", b / mib)
    } else if b >= kib {
        format!("{:.1} KiB", b / kib)
    } else {
        format!("{} B", bytes)
    }
}

#[test]
fn format_bytes_rounds_like_floating_point() {
    let mut samples: Vec<u64> = vec![u64::MAX, u64::MAX - 1, (1 << 53) + 1, (1 << 54) + 2];
    for shift in 0..64 {
        let unit: u64 = 1 << shift;
        for offset in [0u64, 1, 2, 3, 5, 512, 1023, 5_242, 5_243] {
            samples.push(unit.wrapping_add(offset));
            samples.push(unit.wrapping_sub(offset));
        }
    }
    let mut x: u64 = 0x9E37_79B9_7F4A_7C15;
    for i in 0..20_000u32 {
        x ^= x << 13;
        x ^= x >> 7;
        x ^= x << 17;
        samples.push(x >> (i % 64));
    }
    for b in samples {
        assert_eq!(format_bytes(b), reference_bytes(b), "{} bytes", b);
    }
}

#[test]
fn format_bytes_breaks_ties_to_even() {
    assert_eq!(format_bytes(1024 + 256), "1.2 KiB");
    assert_eq!(format_bytes(1024 + 768), "1.8 KiB");
    assert_eq!(format_bytes((1 << 20) + (1 << 17)), "1.12 MiB");
    assert_eq!(format_bytes((1 << 20) + 3 * (1 << 17)), "1.38 MiB");
}

#[test]
fn verbosity_from_flags() {
    assert_eq!(init(false, false), Verbosity::Normal);
    assert_eq!(init(true, false), Verbosity::Verbose);
    assert_eq!(init(false, true), Verbosity::Quiet);
    assert_eq!(init(true, true), Verbosity::Quiet);
}

/// The text of a line, without its style.
fn plain(line: &Line) -> String {
    format!("{}{}{}", line.before, line.styled, line.after)
}

fn texts(lines: &[Line]) -> Vec<String> {
    lines.iter().map(plain).collect()
}

#[test]
fn messages_are_laid_out() {
    let v = Verbosity::Normal;
    assert_eq!(texts(&header(v, "Backup")), vec!["", "== Backup ==", ""]);
    assert_eq!(numbered(2, 5, "Mount"), "[2/5] Mount");
    assert_eq!(texts(&step(v, 2, 5, "Mount")), vec!["[2/5] Mount"]);
    assert_eq!(texts(&substep(v, "x")), vec!["  -> x"]);
    assert_eq!(texts(&success(v, "x")), vec!["  \u{2713} x"]);
    assert_eq!(texts(&info(v, "x")), vec!["  x"]);
    assert_eq!(texts(&detail(Verbosity::Verbose, "x")), vec!["     x"]);
    assert_eq!(texts(&warning("x")), vec!["  \u{26a0} x"]);
    assert_eq!(texts(&error("x")), vec!["  \u{2717} x"]);
    assert_eq!(texts(&section_end(v)), vec![""]);
    assert_eq!(success(v, "x")[0].style, Style::Green);
    assert_eq!(substep(v, "x")[0].styled, "->");
    assert_eq!(
        render(v, Tone::CmdStart, "ls"),
        vec![Line {
            before: "  ".to_string(),
            style: Style::DimCyan,
            styled: "$ ls".to_string(),
            after: String::new(),
        }]
    );
}

#[test]
fn quiet_output_keeps_warnings_and_errors() {
    let q = Verbosity::Quiet;
    assert!(header(q, "x").is_empty());
    assert!(step(q, 1, 2, "x").is_empty());
    assert!(info(q, "x").is_empty());
    assert!(cmd_stderr_output(q, "x").is_empty());
    assert!(detail(Verbosity::Normal, "x").is_empty());
    assert_eq!(render(q, Tone::Warning, "x").len(), 1);
    assert_eq!(render(q, Tone::Error, "x").len(), 1);
}

#[test]
fn stderr_is_shown_line_by_line() {
    let lines = cmd_stderr_output(Verbosity::Normal, "  one \n\n\t\ntwo\r\n");
    assert_eq!(texts(&lines), vec!["    stderr: one", "    stderr: two"]);
}

#[test]
fn hints_follow_the_error() {
    let lines = error_with_hints("broken", &vec!["first", "second"]);
    assert_eq!(
        texts(&lines),
        vec!["  \u{2717} broken", "", "  Hints:", "    \u{2022} first", "    \u{2022} second"]
    );
    assert_eq!(texts(&error_with_hints("broken", &vec![])), vec!["  \u{2717} broken"]);
}

#[test]
fn transfers_are_summed_up() {
    let shown = start_transfer(Verbosity::Normal, true);
    assert!(shown.show_progress);
    assert_eq!(shown.update(2048, 1024), Some("    2.0 KiB | 1.0 KiB/s".to_string()));
    assert_eq!(
        shown.finish(Verbosity::Normal, 2048, "2.0", 1024),
        Some("    2.0 KiB transferred in 2.0s (1.0 KiB/s)".to_string())
    );
    let hidden = start_transfer(Verbosity::Normal, false);
    assert_eq!(hidden.update(2048, 1024), None);
    assert!(hidden.finish(Verbosity::Normal, 1, "0.1", 10).is_some());
    let quiet = start_transfer(Verbosity::Quiet, true);
    assert!(!quiet.show_progress);
    assert_eq!(quiet.finish(Verbosity::Quiet, 1, "0.1", 10), None);
}
