use oculus::cli::{format_note, overwrite_refusal, parse_error_note, strict_failure, Cli};
use oculus::error::AppError;
use oculus::filter::FilterEngine;
use oculus::parser::apache::ApacheParser;
use oculus::parser::json::JsonLogEntry;
use oculus::parser::LogParser;
use oculus::pipeline::{LineParser, LineSample};
use oculus::reader::{is_gzip_extension, strip_ending, LineIterator};
use oculus::types::{LogFormat, OutputFormat};
use std::path::PathBuf;

fn cli() -> Cli {
    Cli {
        file: PathBuf::from("access.log"),
        format: LogFormat::Auto,
        output: OutputFormat::Table,
        output_file: None,
        force: false,
        status: None,
        contains: None,
        regex: None,
        from: None,
        to: None,
        fail_on_parse_errors: false,
        verbose: false,
        ip: None,
        cidr: None,
        no_color: false,
    }
}

#[test]
fn line_endings_are_stripped_once() {
    assert_eq!(strip_ending("line 1\n"), "line 1");
    assert_eq!(strip_ending("line 2\r\n"), "line 2");
    assert_eq!(strip_ending("line 3"), "line 3");
    assert_eq!(strip_ending("line 4\r"), "line 4");
    assert_eq!(strip_ending("line 5\n\n"), "line 5\n");
    assert_eq!(strip_ending("\n"), "");
    assert_eq!(strip_ending(""), "");
}

#[test]
fn lines_are_numbered_from_one() {
    let mut it = LineIterator::new();
    let item = |r: Option<Result<(usize, String), std::io::Error>>| r.map(|x| x.expect("line"));
    assert_eq!(item(it.next_line(Ok(7), "line 1\n".to_string())), Some((1, "line 1".to_string())));
    let failed = it.next_line(Err(std::io::Error::other("disk")), String::new());
    assert!(matches!(failed, Some(Err(_))));
    assert_eq!(it.count(), 1);
    assert_eq!(item(it.next_line(Ok(8), "line 2\r\n".to_string())), Some((2, "line 2".to_string())));
    assert_eq!(item(it.next_line(Ok(6), "line 3".to_string())), Some((3, "line 3".to_string())));
    assert!(it.next_line(Ok(0), String::new()).is_none());
    assert_eq!(it.count(), 3);
}

#[test]
fn gzip_is_told_by_extension() {
    assert!(is_gzip_extension("gz"));
    assert!(is_gzip_extension("GZ"));
    assert!(is_gzip_extension("gZ"));
    assert!(!is_gzip_extension("log"));
    assert!(!is_gzip_extension("gzip"));
    assert!(!is_gzip_extension(""));
}

#[test]
fn sample_skips_blank_lines_and_stops_at_limit() {
    let mut sample = LineSample::new(2);
    for line in ["", "a", "  ", "b", "c"] {
        if !sample.wants_more() {
            break;
        }
        sample.offer(line.to_string());
    }
    assert_eq!(sample.lines, vec!["a".to_string(), "b".to_string()]);
    assert!(!sample.wants_more());
}

#[test]
fn parser_follows_the_format() {
    let line = r#"127.0.0.1 - - [10/Oct/2023:13:55:36 +0000] "GET /x HTTP/1.1" 200 1"#;
    let none: Option<JsonLogEntry> = None;
    let apache = LineParser::for_format(LogFormat::Apache, false);
    let entry = apache.parse(line, &none).expect("should parse");
    assert_eq!(entry.timestamp, None);
    let direct = ApacheParser::new().with_timestamps(false).parse(line).expect("should parse");
    assert_eq!(entry.path, direct.path);

    let nginx = LineParser::for_format(LogFormat::Nginx, false);
    let entry = nginx.parse(line, &none).expect("should parse");
    assert!(entry.timestamp.is_some());

    let json = LineParser::for_format(LogFormat::Json, true);
    assert_eq!(json.parse(line, &none).err(), Some("invalid json log line".to_string()));
}

#[test]
fn run_decisions() {
    let mut c = cli();
    assert!(!c.needs_timestamps());
    c.to = Some("2023-10-10T13:00:00+00:00".to_string());
    assert!(c.needs_timestamps());

    assert!(c.use_color(true));
    assert!(!c.use_color(false));
    c.output_file = Some(PathBuf::from("out.csv"));
    assert!(!c.use_color(true));
    c.output_file = None;
    c.no_color = true;
    assert!(!c.use_color(true));

    assert!(c.refuses_overwrite(true));
    assert!(!c.refuses_overwrite(false));
    c.force = true;
    assert!(!c.refuses_overwrite(true));

    assert!(!c.fails_strictly(3));
    c.fail_on_parse_errors = true;
    assert!(c.fails_strictly(3));
    assert!(!c.fails_strictly(0));
}

#[test]
fn filter_config_carries_the_criteria() {
    let mut c = cli();
    c.status = Some(404);
    c.contains = Some("/api".to_string());
    c.cidr = Some("10.0.0.0/8".to_string());
    let config = c.filter_config();
    assert_eq!(config.status, Some(404));
    assert_eq!(config.contains.as_deref(), Some("/api"));
    assert_eq!(config.cidr.as_deref(), Some("10.0.0.0/8"));
    assert_eq!(config.regex, None);
    assert!(FilterEngine::new(config).is_ok());
}

#[test]
fn run_messages() {
    assert_eq!(strict_failure(1), "encountered 1 parse error(s) with strict mode enabled");
    assert_eq!(
        overwrite_refusal("report.csv"),
        "output file 'report.csv' already exists; use --force to overwrite"
    );
    assert_eq!(parse_error_note(2, "invalid apache line"), "parse error at line 2: invalid apache line");
    assert_eq!(format_note(LogFormat::Json), "using format: Json");
    assert_eq!(format_note(LogFormat::Apache), format!("using format: {:?}", LogFormat::Apache));
}

#[test]
fn io_errors_convert_into_app_errors() {
    let e = std::io::Error::new(std::io::ErrorKind::NotFound, "gone");
    let app: AppError = e.into();
    let AppError::IO(inner) = app;
    assert_eq!(inner.kind(), std::io::ErrorKind::NotFound);
}

#[test]
fn stripped_lines_rejoin_to_the_content() {
    let content = "first\nsecond line\n\nlast\n";
    let mut reads: Vec<String> = content.split_inclusive('\n').map(|p| p.to_string()).collect();
    reads.push(String::new());
    let mut it = LineIterator::new();
    let mut items = Vec::new();
    for piece in reads {
        let n = piece.len();
        match it.next_line(Ok(n), piece) {
            Some(item) => items.push(item.expect("line")),
            None => break,
        }
    }
    let numbers: Vec<usize> = items.iter().map(|(k, _)| *k).collect();
    assert_eq!(numbers, vec![1, 2, 3, 4]);
    let rejoined: String = items.iter().map(|(_, l)| format!("{}\n", l)).collect();
    assert_eq!(rejoined, content);
}
