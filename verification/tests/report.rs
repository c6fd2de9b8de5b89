//! Tests of the terminal report rendering.

use bpflint::{LintMatch, Opts, Point, Range};

fn probe_read_match(bytes: std::ops::Range<usize>, start: Point, end: Point) -> LintMatch {
    LintMatch {
        lint_name: "probe-read".to_string(),
        message: "bpf_probe_read() is deprecated".to_string(),
        range: Range {
            bytes,
            start_point: start,
            end_point: end,
        },
    }
}

/// Tests that a match with an empty range includes no code snippet.
#[test]
fn empty_range_reporting() {
    let code = "int main() {}\n";

    let m = LintMatch {
        lint_name: "bogus-file-extension".to_string(),
        message: "by convention BPF C code should use the file extension '.bpf.c'".to_string(),
        range: Range {
            bytes: 0..0,
            start_point: Point::default(),
            end_point: Point::default(),
        },
    };
    let mut report = String::new();
    let () = bpflint::report_terminal(&m, code.as_bytes(), "./no_bytes.c", &mut report).unwrap();
    let expected = "warning: [bogus-file-extension] by convention BPF C code should use the file extension '.bpf.c'\n  --> ./no_bytes.c:0:0\n";
    assert_eq!(report, expected);
}

/// Make sure that multi-line matches are reported correctly.
#[test]
fn multi_line_report() {
    let code = "SEC(\"tp_btf/sched_switch\")\nint handle__sched_switch(u64 *ctx) {\n    bpf_probe_read(\n      event.comm,\n      TASK_COMM_LEN,\n      prev->comm);\n    return 0;\n}\n";

    let m = probe_read_match(68..140, Point { row: 2, col: 4 }, Point { row: 5, col: 17 });
    let mut report = String::new();
    let () = bpflint::report_terminal(&m, code.as_bytes(), "<stdin>", &mut report).unwrap();

    let expected = concat_lines(&[
        "warning: [probe-read] bpf_probe_read() is deprecated",
        "  --> <stdin>:2:4",
        "  | ",
        "2 |  /     bpf_probe_read(",
        "3 |  |       event.comm,",
        "4 |  |       TASK_COMM_LEN,",
        "5 |  |       prev->comm);",
        "  |  |_________________^",
        "  | ",
    ]);
    assert_eq!(report, expected);
}

fn concat_lines(lines: &[&str]) -> String {
    let mut s = String::new();
    for line in lines {
        s.push_str(line);
        s.push('\n');
    }
    s
}

/// Check that our "terminal" reporting works as expected.
#[test]
fn terminal_reporting() {
    let code = "SEC(\"tp_btf/sched_switch\")\nint handle__sched_switch(u64 *ctx)\n{\n    struct task_struct *prev = (struct task_struct *)ctx[1];\n    struct event event = {0};\n    bpf_probe_read(event.comm, TASK_COMM_LEN, prev->comm);\n    return 0;\n}\n";

    let m = probe_read_match(160..174, Point { row: 5, col: 4 }, Point { row: 5, col: 18 });
    let mut report = String::new();
    let () = bpflint::report_terminal(&m, code.as_bytes(), "<stdin>", &mut report).unwrap();

    let expected = concat_lines(&[
        "warning: [probe-read] bpf_probe_read() is deprecated",
        "  --> <stdin>:5:4",
        "  | ",
        "5 |     bpf_probe_read(event.comm, TASK_COMM_LEN, prev->comm);",
        "  |     ^^^^^^^^^^^^^^",
        "  | ",
    ]);
    assert_eq!(report, expected);
}

/// Check that reporting works properly when the match is on the
/// very first line of input.
#[test]
fn report_top_most_line() {
    let code = "SEC(\"kprobe/test\")\nint handle__test(void)\n{\n}\n";

    let m = LintMatch {
        lint_name: "unstable-attach-point".to_string(),
        message: "kprobe/kretprobe/fentry/fexit are unstable".to_string(),
        range: Range {
            bytes: 4..17,
            start_point: Point { row: 0, col: 4 },
            end_point: Point { row: 0, col: 17 },
        },
    };
    let mut report = String::new();
    let () = bpflint::report_terminal(&m, code.as_bytes(), "<stdin>", &mut report).unwrap();

    let expected = concat_lines(&[
        "warning: [unstable-attach-point] kprobe/kretprobe/fentry/fexit are unstable",
        "  --> <stdin>:0:4",
        "  | ",
        "0 | SEC(\"kprobe/test\")",
        "  |     ^^^^^^^^^^^^^",
        "  | ",
    ]);
    assert_eq!(report, expected);
}

/// Test that `report_terminal_opts` with `Opts::default()` behaves
/// identically to `report_terminal`.
#[test]
fn report_terminal_opts_none_context() {
    let code = "SEC(\"tp_btf/sched_switch\")\nint handle__sched_switch(u64 *ctx)\n{\n    struct task_struct *prev = (struct task_struct *)ctx[1];\n    struct event event = {0};\n    bpf_probe_read(event.comm, TASK_COMM_LEN, prev->comm);\n    return 0;\n}\n";

    let m = probe_read_match(160..174, Point { row: 5, col: 4 }, Point { row: 5, col: 18 });

    let mut report_old = String::new();
    let mut report_new = String::new();

    let () = bpflint::report_terminal(&m, code.as_bytes(), "<stdin>", &mut report_old).unwrap();
    let () = bpflint::report_terminal_opts(
        &m,
        code.as_bytes(),
        "<stdin>",
        &mut report_new,
        Opts::default(),
    )
    .unwrap();

    assert_eq!(report_old, report_new);
}

/// Test `report_terminal_opts` with extra context lines.
#[test]
fn report_terminal_opts_with_context() {
    let code = "SEC(\"tp_btf/sched_switch\")\nint handle__sched_switch(u64 *ctx)\n{\n    struct task_struct *prev = (struct task_struct *)ctx[1];\n    struct event event = {0};\n    bpf_probe_read(event.comm, TASK_COMM_LEN, prev->comm);\n    return 0;\n}\n";

    let m = probe_read_match(160..174, Point { row: 5, col: 4 }, Point { row: 5, col: 18 });
    let mut report = String::new();
    let () = bpflint::report_terminal_opts(
        &m,
        code.as_bytes(),
        "<stdin>",
        &mut report,
        Opts {
            extra_lines: Some((2, 1)),
        },
    )
    .unwrap();

    let expected = concat_lines(&[
        "warning: [probe-read] bpf_probe_read() is deprecated",
        "  --> <stdin>:5:4",
        "  | ",
        "3 |     struct task_struct *prev = (struct task_struct *)ctx[1];",
        "4 |     struct event event = {0};",
        "5 |     bpf_probe_read(event.comm, TASK_COMM_LEN, prev->comm);",
        "  |     ^^^^^^^^^^^^^^",
        "6 |     return 0;",
        "  | ",
    ]);
    assert_eq!(report, expected);
}

/// Test context lines with multi-line matches.
#[test]
fn report_terminal_opts_multiline_with_context() {
    let code = "SEC(\"tp_btf/sched_switch\")\nint handle__sched_switch(u64 *ctx) {\n    bpf_probe_read(\n      event.comm,\n      TASK_COMM_LEN,\n      prev->comm);\n    return 0;\n}\n";

    let m = probe_read_match(68..140, Point { row: 2, col: 4 }, Point { row: 5, col: 17 });
    let mut report = String::new();
    let () = bpflint::report_terminal_opts(
        &m,
        code.as_bytes(),
        "<stdin>",
        &mut report,
        Opts {
            extra_lines: Some((1, 1)),
        },
    )
    .unwrap();

    let expected = concat_lines(&[
        "warning: [probe-read] bpf_probe_read() is deprecated",
        "  --> <stdin>:2:4",
        "  | ",
        "1 | int handle__sched_switch(u64 *ctx) {",
        "2 |  /     bpf_probe_read(",
        "3 |  |       event.comm,",
        "4 |  |       TASK_COMM_LEN,",
        "5 |  |       prev->comm);",
        "  |  |_________________^",
        "6 |     return 0;",
        "  | ",
    ]);
    assert_eq!(report, expected);
}

/// Test context lines when there aren't enough lines before the error.
#[test]
fn report_terminal_opts_insufficient_context_before() {
    let code = "SEC(\"kprobe/test\")\nint handle__test(void)\n{\n}\n";

    let m = LintMatch {
        lint_name: "unstable-attach-point".to_string(),
        message: "kprobe/kretprobe/fentry/fexit are unstable".to_string(),
        range: Range {
            bytes: 4..17,
            start_point: Point { row: 0, col: 4 },
            end_point: Point { row: 0, col: 17 },
        },
    };
    let mut report = String::new();
    let () = bpflint::report_terminal_opts(
        &m,
        code.as_bytes(),
        "<stdin>",
        &mut report,
        Opts {
            extra_lines: Some((5, 2)),
        },
    )
    .unwrap();

    let expected = concat_lines(&[
        "warning: [unstable-attach-point] kprobe/kretprobe/fentry/fexit are unstable",
        "  --> <stdin>:0:4",
        "  | ",
        "0 | SEC(\"kprobe/test\")",
        "  |     ^^^^^^^^^^^^^",
        "1 | int handle__test(void)",
        "2 | {",
        "  | ",
    ]);
    assert_eq!(report, expected);
}

/// Test context lines when there aren't enough lines after the error.
#[test]
fn report_terminal_opts_insufficient_context_after() {
    let code = "SEC(\"tp_btf/sched_switch\")\nint handle__sched_switch(u64 *ctx)\n{\n    bpf_probe_read(event.comm, TASK_COMM_LEN, prev->comm);\n}\n";

    let m = probe_read_match(68..82, Point { row: 3, col: 4 }, Point { row: 3, col: 18 });
    let mut report = String::new();
    let () = bpflint::report_terminal_opts(
        &m,
        code.as_bytes(),
        "<stdin>",
        &mut report,
        Opts {
            extra_lines: Some((1, 5)),
        },
    )
    .unwrap();

    let expected = concat_lines(&[
        "warning: [probe-read] bpf_probe_read() is deprecated",
        "  --> <stdin>:3:4",
        "  | ",
        "2 | {",
        "3 |     bpf_probe_read(event.comm, TASK_COMM_LEN, prev->comm);",
        "  |     ^^^^^^^^^^^^^^",
        "4 | }",
        "5 | ",
        "  | ",
    ]);
    assert_eq!(report, expected);
}

/// Test Opts default and methods.
#[test]
fn opts_behavior() {
    let default_opts = Opts::default();
    assert_eq!(default_opts, Opts { extra_lines: None });
    assert_eq!(default_opts.lines_before(), 0);
    assert_eq!(default_opts.lines_after(), 0);

    let extra_opts = Opts {
        extra_lines: Some((3, 5)),
    };
    assert_eq!(extra_opts.lines_before(), 3);
    assert_eq!(extra_opts.lines_after(), 5);
}

/// Test helper functions for finding context lines.
#[test]
fn find_line_start_by_row() {
    let code = b"line 0\nline 1\nline 2\n";
    assert_eq!(bpflint::find_line_start_by_row(code, 0), 0);
    assert_eq!(bpflint::find_line_start_by_row(code, 1), 7);
    assert_eq!(bpflint::find_line_start_by_row(code, 2), 14);
    assert_eq!(bpflint::find_line_start_by_row(code, 10), 0); // Beyond available lines
}

#[test]
fn count_lines() {
    assert_eq!(bpflint::count_lines(b""), 0);
    assert_eq!(bpflint::count_lines(b"single line"), 1);
    assert_eq!(bpflint::count_lines(b"line 1\nline 2"), 2);
    assert_eq!(bpflint::count_lines(b"line 1\nline 2\n"), 3);
}

#[test]
fn find_context_lines_before() {
    let code = b"line 0\nline 1\nline 2\nline 3\n";

    // No context requested
    assert_eq!(bpflint::find_context_lines_before(code, 2, 0), vec![]);

    // Context from row 0 (should return empty)
    assert_eq!(bpflint::find_context_lines_before(code, 0, 2), vec![]);

    // Normal context
    let result = bpflint::find_context_lines_before(code, 3, 2);
    assert_eq!(result, vec![(1, 7), (2, 14)]);

    // More context than available
    let result = bpflint::find_context_lines_before(code, 2, 5);
    assert_eq!(result, vec![(0, 0), (1, 7)]);
}

#[test]
fn find_context_lines_after() {
    let code = b"line 0\nline 1\nline 2\nline 3\n";

    // No context requested
    assert_eq!(bpflint::find_context_lines_after(code, 1, 0), vec![]);

    // Context beyond available lines - asking for 2 lines after row 3, but only row 4 (empty) exists
    assert_eq!(bpflint::find_context_lines_after(code, 3, 2), vec![(4, 28)]);

    // Normal context
    let result = bpflint::find_context_lines_after(code, 0, 2);
    assert_eq!(result, vec![(1, 7), (2, 14)]);

    // More context than available - asking for 5 lines after row 2, but only rows 3 and 4 exist
    let result = bpflint::find_context_lines_after(code, 2, 5);
    assert_eq!(result, vec![(3, 21), (4, 28)]);
}

/// An empty span stays header + location even when context is configured.
#[test]
fn empty_range_reporting_with_context() {
    let code = "int main() {}\n";

    let m = LintMatch {
        lint_name: "bogus-file-extension".to_string(),
        message: "by convention BPF C code should use the file extension '.bpf.c'".to_string(),
        range: Range {
            bytes: 0..0,
            start_point: Point::default(),
            end_point: Point::default(),
        },
    };
    let mut report = String::new();
    let () = bpflint::report_terminal_opts(
        &m,
        code.as_bytes(),
        "./no_bytes.c",
        &mut report,
        Opts {
            extra_lines: Some((2, 2)),
        },
    )
    .unwrap();
    let expected = "warning: [bogus-file-extension] by convention BPF C code should use the file extension '.bpf.c'\n  --> ./no_bytes.c:0:0\n";
    assert_eq!(report, expected);
}

/// Rendering the same match twice into independent sinks is byte-identical.
#[test]
fn report_rendering_is_idempotent() {
    let code = "SEC(\"kprobe/test\")\nint handle__test(void)\n{\n}\n";

    let m = LintMatch {
        lint_name: "unstable-attach-point".to_string(),
        message: "kprobe/kretprobe/fentry/fexit are unstable".to_string(),
        range: Range {
            bytes: 4..17,
            start_point: Point { row: 0, col: 4 },
            end_point: Point { row: 0, col: 17 },
        },
    };
    let opts = Opts {
        extra_lines: Some((1, 1)),
    };
    let mut first = String::new();
    let mut second = String::new();
    let () =
        bpflint::report_terminal_opts(&m, code.as_bytes(), "<stdin>", &mut first, opts).unwrap();
    let () =
        bpflint::report_terminal_opts(&m, code.as_bytes(), "<stdin>", &mut second, opts).unwrap();
    assert_eq!(first, second);
}

/// Source bytes that are not valid UTF-8 show up lossily decoded, not raw.
#[test]
fn report_decodes_invalid_utf8_lossily() {
    let code: &[u8] = &[b'a', 0xFF, b'b', b'\n'];

    let m = probe_read_match(0..3, Point { row: 0, col: 0 }, Point { row: 0, col: 3 });
    let mut report = String::new();
    let () = bpflint::report_terminal(&m, code, "<stdin>", &mut report).unwrap();

    let expected = concat_lines(&[
        "warning: [probe-read] bpf_probe_read() is deprecated",
        "  --> <stdin>:0:0",
        "  | ",
        "0 | a\u{FFFD}b",
        "  | ^^^",
        "  | ",
    ]);
    assert_eq!(report, expected);
}

/// A zero-width column span renders an underline row with no carets.
#[test]
fn report_zero_width_column_span() {
    let code = "abc\n";

    let m = probe_read_match(1..2, Point { row: 0, col: 1 }, Point { row: 0, col: 1 });
    let mut report = String::new();
    let () = bpflint::report_terminal(&m, code.as_bytes(), "<stdin>", &mut report).unwrap();

    let expected = concat_lines(&[
        "warning: [probe-read] bpf_probe_read() is deprecated",
        "  --> <stdin>:0:1",
        "  | ",
        "0 | abc",
        "  |  ",
        "  | ",
    ]);
    assert_eq!(report, expected);
}

/// A single-row span whose byte start lies past the end of the buffer is a
/// broken upstream contract: the render call fails after the context, and
/// what was written stays written.
#[test]
fn report_fails_on_offset_past_buffer_end() {
    let code = "ab\n";

    let m = probe_read_match(10..12, Point { row: 0, col: 0 }, Point { row: 0, col: 2 });
    let mut report = String::new();
    let err = bpflint::report_terminal(&m, code.as_bytes(), "<stdin>", &mut report).unwrap_err();
    assert_eq!(err, bpflint::RenderError::MissingExcerpt);

    let expected = concat_lines(&[
        "warning: [probe-read] bpf_probe_read() is deprecated",
        "  --> <stdin>:0:0",
        "  | ",
    ]);
    assert_eq!(report, expected);
}

/// The largest possible context request is clipped to the whole buffer.
#[test]
fn report_with_maximal_context() {
    let code = "a\nb\nc\nd\n";

    let m = probe_read_match(4..5, Point { row: 2, col: 0 }, Point { row: 2, col: 1 });
    let mut report = String::new();
    let () = bpflint::report_terminal_opts(
        &m,
        code.as_bytes(),
        "<stdin>",
        &mut report,
        Opts {
            extra_lines: Some((255, 255)),
        },
    )
    .unwrap();

    let expected = concat_lines(&[
        "warning: [probe-read] bpf_probe_read() is deprecated",
        "  --> <stdin>:2:0",
        "  | ",
        "0 | a",
        "1 | b",
        "2 | c",
        "  | ^",
        "3 | d",
        "4 | ",
        "  | ",
    ]);
    assert_eq!(report, expected);
}
