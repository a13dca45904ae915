use oculus::output::csv::render_csv;
use oculus::output::terminal::{paint, render_table, status_color, BOLD, GREEN, RED, RESET, YELLOW};
use oculus::output::Report;
use oculus::types::Stats;

#[test]
fn renders_csv_summary() {
    let mut stats = Stats {
        total_lines: 5,
        parsed_lines: 4,
        parse_errors: 1,
        ..Stats::default()
    };
    stats.status_counts.insert(200, 3);
    stats.status_counts.insert(500, 1);

    let report = Report::from_stats(&stats);
    let rendered = render_csv(&report);

    assert!(rendered.contains("metric,value"));
    assert!(rendered.contains("total_lines,5"));
    assert!(rendered.contains("parsed_lines,4"));
    assert!(rendered.contains("parse_errors,1"));
    assert!(rendered.contains("status_200,3"));
    assert!(rendered.contains("status_500,1"));
}

#[test]
fn escapes_quotes_in_error_samples() {
    // regression: embedded quotes must be doubled per the csv convention
    let mut stats = Stats {
        total_lines: 1,
        parsed_lines: 0,
        parse_errors: 1,
        ..Stats::default()
    };
    stats
        .error_samples
        .push((1, r#"unexpected "quote" here"#.to_string()));

    let report = Report::from_stats(&stats);
    let rendered = render_csv(&report);

    assert!(rendered.contains(r#"error_line_1,"unexpected ""quote"" here""#));
}

#[test]
fn renders_table_summary() {
    let mut stats = Stats {
        total_lines: 5,
        parsed_lines: 4,
        parse_errors: 1,
        ..Stats::default()
    };
    stats.status_counts.insert(500, 1);
    stats.status_counts.insert(200, 3);

    let report = Report::from_stats(&stats);
    let rendered = render_table(&report, false);

    assert!(rendered.contains("Total lines: 5"));
    assert!(rendered.contains("Parsed lines: 4"));
    assert!(rendered.contains("Parse errors: 1"));
    assert!(rendered.contains("200 -> 3"));
    assert!(rendered.contains("500 -> 1"));
    // status codes are rendered in ascending order
    assert!(rendered.find("200 -> 3").unwrap() < rendered.find("500 -> 1").unwrap());
    // plain mode must not emit any ANSI escape codes
    assert!(!rendered.contains('\x1b'));
}

#[test]
fn renders_color_when_enabled() {
    let mut stats = Stats {
        total_lines: 1,
        parsed_lines: 1,
        parse_errors: 0,
        ..Stats::default()
    };
    stats.status_counts.insert(200, 1);

    let report = Report::from_stats(&stats);
    let rendered = render_table(&report, true);

    // color mode wraps text in ANSI escape codes
    assert!(rendered.contains('\x1b'));
}

#[test]
fn render_table_snapshot() {
    let mut stats = Stats {
        total_lines: 10,
        parsed_lines: 8,
        parse_errors: 2,
        ..Stats::default()
    };
    stats.status_counts.insert(200, 5);
    stats.status_counts.insert(404, 2);
    stats.status_counts.insert(500, 1);
    stats.top_paths.insert("/api/users".to_string(), 4);
    stats.top_paths.insert("/health".to_string(), 3);
    stats
        .error_samples
        .push((2, "invalid apache line".to_string()));
    stats
        .error_samples
        .push((7, "invalid apache line".to_string()));

    let report = Report::from_stats(&stats);
    // plain mode keeps the snapshot free of ANSI escape codes
    assert_eq!(
        render_table(&report, false),
        "=== Summary ===\n\
         Total lines: 10\n\
         Parsed lines: 8\n\
         Parse errors: 2\n\
         \n\
         Status counts:\n  200 -> 5\n  404 -> 2\n  500 -> 1\n\
         \n\
         Top paths:\n  /api/users -> 4\n  /health -> 3\n\
         \n\
         Parse errors (showing 2 of 2):\n  line 2: invalid apache line\n  line 7: invalid apache line\n"
    );
}

#[test]
fn report_sorts_statuses_and_keeps_ten_paths() {
    let mut stats = Stats::default();
    for code in [503u16, 200, 404, 301] {
        stats.status_counts.insert(code, code as usize);
    }
    for i in 0..12usize {
        stats.top_paths.insert(format!("/p{:02}", i), 100 - i);
    }
    stats.error_samples.push((3, "x".to_string()));

    let report = Report::from_stats(&stats);
    assert_eq!(report.status_counts, vec![(200, 200), (301, 301), (404, 404), (503, 503)]);
    assert_eq!(report.top_paths.len(), 10);
    assert_eq!(report.top_paths[0], ("/p00".to_string(), 100));
    assert_eq!(report.top_paths[9], ("/p09".to_string(), 91));
    assert_eq!(report.error_samples, vec![(3, "x".to_string())]);
}

#[test]
fn csv_exact_rendering() {
    let mut stats = Stats { total_lines: 3, parsed_lines: 1, parse_errors: 2, ..Stats::default() };
    stats.status_counts.insert(404, 1);
    stats.error_samples.push((1, "a,b".to_string()));
    stats.error_samples.push((3, "\"".to_string()));

    let report = Report::from_stats(&stats);
    assert_eq!(
        render_csv(&report),
        "metric,value\ntotal_lines,3\nparsed_lines,1\nparse_errors,2\nstatus_404,1\n\
         error_line_1,\"a,b\"\nerror_line_3,\"\"\"\"\n"
    );
}

#[test]
fn colored_table_paints_headings_and_codes() {
    let mut stats = Stats { total_lines: 3, parsed_lines: 3, ..Stats::default() };
    stats.status_counts.insert(204, 1);
    stats.status_counts.insert(302, 1);
    stats.status_counts.insert(418, 1);

    let report = Report::from_stats(&stats);
    let rendered = render_table(&report, true);
    assert!(rendered.starts_with("\x1b[1m=== Summary ===\x1b[0m\n"));
    assert!(rendered.contains("  \x1b[32m204\x1b[0m -> 1\n"));
    assert!(rendered.contains("  \x1b[33m302\x1b[0m -> 1\n"));
    assert!(rendered.contains("  \x1b[31m418\x1b[0m -> 1\n"));
    assert!(!rendered.contains("Parse errors (showing"));
}

#[test]
fn paint_and_status_colors() {
    assert_eq!(paint("x", BOLD, false), "x");
    assert_eq!(paint("x", BOLD, true), "\x1b[1mx\x1b[0m");
    assert_eq!(RESET, "\x1b[0m");
    assert_eq!(status_color(200), GREEN);
    assert_eq!(status_color(299), GREEN);
    assert_eq!(status_color(300), YELLOW);
    assert_eq!(status_color(399), YELLOW);
    assert_eq!(status_color(199), RED);
    assert_eq!(status_color(400), RED);
    assert_eq!(GREEN, "\x1b[32m");
}

/// Removes every `ESC [ digits m` sequence.
fn without_color_codes(s: &str) -> String {
    let chars: Vec<char> = s.chars().collect();
    let mut out = String::new();
    let mut i = 0;
    while i < chars.len() {
        if chars[i] == '\x1b' && i + 2 < chars.len() && chars[i + 1] == '[' && chars[i + 2].is_ascii_digit() {
            let mut j = i + 2;
            while j < chars.len() && chars[j].is_ascii_digit() {
                j += 1;
            }
            if j < chars.len() && chars[j] == 'm' {
                i = j + 1;
                continue;
            }
        }
        out.push(chars[i]);
        i += 1;
    }
    out
}

#[test]
fn colored_table_without_codes_is_the_plain_table() {
    let mut stats = Stats { total_lines: 9, parsed_lines: 7, parse_errors: 2, ..Stats::default() };
    stats.status_counts.insert(200, 4);
    stats.status_counts.insert(301, 2);
    stats.status_counts.insert(503, 1);
    stats.top_paths.insert("/a".to_string(), 5);
    stats.error_samples.push((3, "invalid apache line".to_string()));

    let report = Report::from_stats(&stats);
    let colored = render_table(&report, true);
    assert_ne!(colored, render_table(&report, false));
    assert_eq!(without_color_codes(&colored), render_table(&report, false));
}
