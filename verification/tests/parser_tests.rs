use oculus::parser::apache::ApacheParser;
use oculus::parser::detector::detect_format;
use oculus::parser::json::{JsonLogEntry, JsonParser};
use oculus::parser::nginx::NginxParser;
use oculus::parser::LogParser;
use oculus::types::{LogFormat, Timestamp};

/// Reads a line the way a derived `Deserialize` for the JSON record reads it: an object whose
/// known fields are each missing, `null`, or of the field's type.
fn decode(line: &str) -> Option<JsonLogEntry> {
    let value: serde_json::Value = serde_json::from_str(line).ok()?;
    let object = value.as_object()?;
    let text = |name: &str| -> Result<Option<String>, ()> {
        match object.get(name) {
            None | Some(serde_json::Value::Null) => Ok(None),
            Some(serde_json::Value::String(s)) => Ok(Some(s.clone())),
            Some(_) => Err(()),
        }
    };
    let status = match object.get("status") {
        None | Some(serde_json::Value::Null) => None,
        Some(v) => Some(u16::try_from(v.as_u64()?).ok()?),
    };
    Some(JsonLogEntry {
        ip: text("ip").ok()?,
        method: text("method").ok()?,
        path: text("path").ok()?,
        status,
        timestamp: text("timestamp").ok()?,
        message: text("message").ok()?,
    })
}

fn decode_all(lines: &[String]) -> Vec<Option<JsonLogEntry>> {
    lines.iter().map(|l| decode(l)).collect()
}

#[test]
fn parse_valid_apache_line() {
    let parser = ApacheParser::new();
    let line =
        r#"127.0.0.1 - - [10/Oct/2023:13:55:36 +0000] "GET /api/users HTTP/1.1" 200 1234"#;

    let entry = parser.parse(line).expect("should parse");
    assert_eq!(entry.ip.as_deref(), Some("127.0.0.1"));
    assert_eq!(entry.method.as_deref(), Some("GET"));
    assert_eq!(entry.path.as_deref(), Some("/api/users"));
    assert_eq!(entry.status, Some(200));
}

#[test]
fn parse_invalid_apache_line() {
    let parser = ApacheParser::new();
    let bad = "this is not apache log format";
    let res = parser.parse(bad);
    assert!(res.is_err());
}

#[test]
fn parse_valid_nginx_line() {
    let parser = NginxParser::new();
    let line = r#"127.0.0.1 - - [10/Oct/2023:13:55:36 +0000] "GET /health HTTP/1.1" 200 612"#;

    let entry = parser.parse(line).expect("should parse");

    assert_eq!(entry.ip.as_deref(), Some("127.0.0.1"));
    assert_eq!(entry.method.as_deref(), Some("GET"));
    assert_eq!(entry.path.as_deref(), Some("/health"));
    assert_eq!(entry.status, Some(200));
}

#[test]
fn parse_invalid_nginx_line() {
    let parser = NginxParser::new();
    let bad = "not a nginx log line";

    let result = parser.parse(bad);

    assert!(result.is_err());
}

#[test]
fn detect_apache_format() {
    let lines = vec![
        r#"127.0.0.1 - - [10/Oct/2023:13:55:36 +0000] "GET /api/users HTTP/1.1" 200 1234"#
            .to_string(),
        r#"192.168.1.1 - - [10/Oct/2023:13:55:37 +0000] "POST /login HTTP/1.1" 401 456"#
            .to_string(),
    ];

    assert_eq!(detect_format(&lines, &decode_all(&lines)), LogFormat::Apache);
}

#[test]
fn detect_nginx_format() {
    let lines = vec![
        r#"127.0.0.1 - - [10/Oct/2023:13:55:36 +0000] "GET /health HTTP/1.1" 200 612"#
            .to_string(),
        r#"10.0.0.2 - - [10/Oct/2023:13:55:37 +0000] "POST /login HTTP/1.1" 403 120"#
            .to_string(),
    ];

    assert_eq!(detect_format(&lines, &decode_all(&lines)), LogFormat::Apache);
}

#[test]
fn detect_json_format() {
    let lines = vec![
        r#"{"ip":"127.0.0.1","method":"GET","path":"/api/users","status":200,"message":"ok"}"#
            .to_string(),
        r#"{"ip":"10.0.0.5","method":"POST","path":"/login","status":401,"message":"denied"}"#
            .to_string(),
    ];

    assert_eq!(detect_format(&lines, &decode_all(&lines)), LogFormat::Json);
}

#[test]
fn detect_fallback_for_invalid_lines() {
    let lines = vec![
        "not a valid log line".to_string(),
        "still not valid".to_string(),
    ];

    assert_eq!(detect_format(&lines, &decode_all(&lines)), LogFormat::Apache);
}

#[test]
fn detect_fallback_for_blank_lines() {
    let lines = vec!["".to_string(), "   ".to_string(), "\t".to_string()];

    assert_eq!(detect_format(&lines, &decode_all(&lines)), LogFormat::Apache);
}

#[test]
fn parse_valid_json_line() {
    let parser = JsonParser::new();
    let line =
        r#"{"ip":"127.0.0.1","method":"GET","path":"/api/users","status":200,"message":"ok"}"#;

    let entry = parser.parse(line, &decode(line)).expect("should parse");

    assert_eq!(entry.ip.as_deref(), Some("127.0.0.1"));
    assert_eq!(entry.method.as_deref(), Some("GET"));
    assert_eq!(entry.path.as_deref(), Some("/api/users"));
    assert_eq!(entry.status, Some(200));
    assert_eq!(entry.message, "ok");
}

#[test]
fn parse_valid_json_line_with_missing_optional_fields() {
    let parser = JsonParser::new();
    let line = r#"{"path":"/health","status":204}"#;

    let entry = parser.parse(line, &decode(line)).expect("should parse");

    assert_eq!(entry.ip, None);
    assert_eq!(entry.method, None);
    assert_eq!(entry.path.as_deref(), Some("/health"));
    assert_eq!(entry.status, Some(204));
    assert_eq!(entry.message, "");
}

#[test]
fn parse_invalid_json_line() {
    let parser = JsonParser::new();
    let bad = r#"{"ip":"127.0.0.1","status":"oops""#;

    let result = parser.parse(bad, &decode(bad));

    assert!(result.is_err());
}

#[test]
fn json_timestamp_is_read_as_rfc3339() {
    let parser = JsonParser::new();
    let line = r#"{"timestamp":"2023-10-10T13:55:36+02:00","message":"m"}"#;
    let entry = parser.parse(line, &decode(line)).expect("should parse");
    assert_eq!(
        entry.timestamp,
        Some(Timestamp { seconds: 1_696_938_936, nanos: 0, offset_seconds: 7200 })
    );
    assert_eq!(entry.raw, line);

    let odd = r#"{"timestamp":"yesterday"}"#;
    let entry = parser.parse(odd, &decode(odd)).expect("should parse");
    assert_eq!(entry.timestamp, None);
}

#[test]
fn apache_timestamp_is_read_only_when_enabled() {
    let line = r#"127.0.0.1 - - [10/Oct/2023:13:55:36 +0000] "GET /api/users HTTP/1.1" 200 1234"#;
    let with_time = ApacheParser::new().parse(line).expect("should parse");
    let without_time = ApacheParser::new().with_timestamps(false).parse(line).expect("should parse");

    assert_eq!(
        with_time.timestamp,
        Some(Timestamp { seconds: 1_696_946_136, nanos: 0, offset_seconds: 0 })
    );
    assert_eq!(without_time.timestamp, None);
    assert_eq!(with_time.ip, without_time.ip);
    assert_eq!(with_time.method, without_time.method);
    assert_eq!(with_time.path, without_time.path);
    assert_eq!(with_time.status, without_time.status);
    assert_eq!(with_time.raw, without_time.raw);
}

#[test]
fn apache_keeps_entry_with_unreadable_time() {
    let line = r#"10.0.0.1 - bob [yesterday] "GET /x HTTP/1.0" 404 0"#;
    let entry = ApacheParser::new().parse(line).expect("should parse");
    assert_eq!(entry.timestamp, None);
    assert_eq!(entry.status, Some(404));
    assert_eq!(entry.path.as_deref(), Some("/x"));
    assert!(NginxParser::new().parse(line).is_err());
}

#[test]
fn apache_status_with_other_digits_is_missing() {
    let line = "1.2.3.4 - - [t] \"GET / HTTP/1.1\" \u{0661}\u{0662}\u{0663} 5";
    let entry = ApacheParser::new().with_timestamps(false).parse(line).expect("should parse");
    assert_eq!(entry.status, None);
}

#[test]
fn nginx_needs_dashes() {
    let line = r#"127.0.0.1 - frank [10/Oct/2023:13:55:36 +0000] "GET / HTTP/1.1" 200 1"#;
    assert!(NginxParser::new().parse(line).is_err());
    assert!(ApacheParser::new().parse(line).is_ok());
}

#[test]
fn detection_prefers_the_format_that_reads_most_lines() {
    let lines = vec![
        r#"{"path":"/a"}"#.to_string(),
        r#"{"path":"/b"}"#.to_string(),
        r#"127.0.0.1 - - [10/Oct/2023:13:55:36 +0000] "GET /health HTTP/1.1" 200 612"#.to_string(),
        "".to_string(),
    ];
    assert_eq!(detect_format(&lines, &decode_all(&lines)), LogFormat::Json);
}
