use oculus::analyzer::MAX_ERROR_SAMPLES;
use oculus::filter::{FilterConfig, FilterEngine};
use oculus::types::{LogEntry, Stats};

fn entry(status: Option<u16>, path: Option<&str>) -> LogEntry {
    LogEntry {
        ip: Some("127.0.0.1".to_string()),
        method: Some("GET".to_string()),
        path: path.map(|p| p.to_string()),
        status,
        timestamp: None,
        message: String::new(),
        raw: "raw".to_string(),
    }
}

#[test]
fn parse_error_records_current_line_number() {
    // regression: samples must carry the line number the error occurred on
    let mut stats = Stats::default();
    stats.on_line_read(); // line 1
    stats.on_line_read(); // line 2
    stats.on_parse_error("bad line");

    assert_eq!(stats.error_samples, vec![(2, "bad line".to_string())]);
}

#[test]
fn error_samples_are_capped_but_count_keeps_growing() {
    // regression: the sample list is bounded, the error count is not
    let mut stats = Stats::default();
    for _ in 0..10 {
        stats.on_line_read();
        stats.on_parse_error("bad");
    }

    assert_eq!(stats.parse_errors, 10);
    assert_eq!(stats.error_samples.len(), 5);
}

#[test]
fn sample_cap_is_five() {
    assert_eq!(MAX_ERROR_SAMPLES, 5);
}

#[test]
fn parsed_entries_count_status_and_path() {
    let mut stats = Stats::default();
    stats.on_parsed_entry(&entry(Some(200), Some("/a")));
    stats.on_parsed_entry(&entry(Some(200), Some("/b")));
    stats.on_parsed_entry(&entry(Some(404), Some("/a")));
    stats.on_parsed_entry(&entry(None, None));

    assert_eq!(stats.parsed_lines, 4);
    assert_eq!(stats.status_counts.get(&200), Some(&2));
    assert_eq!(stats.status_counts.get(&404), Some(&1));
    assert_eq!(stats.status_counts.len(), 2);
    assert_eq!(stats.top_paths.get("/a"), Some(2));
    assert_eq!(stats.top_paths.get("/b"), Some(1));
    assert_eq!(stats.top_paths.get("/c"), None);
    assert_eq!(stats.top_paths.len(), 2);
}

#[test]
fn top_paths_sorted_orders_by_count_then_path() {
    let mut stats = Stats::default();
    stats.top_paths.insert("/b".to_string(), 3);
    stats.top_paths.insert("/a".to_string(), 3);
    stats.top_paths.insert("/z".to_string(), 7);
    stats.top_paths.insert("/c".to_string(), 1);

    let top = stats.top_paths_sorted(10);
    assert_eq!(
        top,
        vec![
            ("/z".to_string(), 7),
            ("/a".to_string(), 3),
            ("/b".to_string(), 3),
            ("/c".to_string(), 1),
        ]
    );
}

#[test]
fn top_paths_sorted_keeps_only_the_limit() {
    let mut stats = Stats::default();
    for i in 0..15usize {
        stats.top_paths.insert(format!("/p{:02}", i), i + 1);
    }

    let top = stats.top_paths_sorted(3);
    assert_eq!(
        top,
        vec![("/p14".to_string(), 15), ("/p13".to_string(), 14), ("/p12".to_string(), 13)]
    );
    assert!(stats.top_paths_sorted(0).is_empty());
    assert_eq!(stats.top_paths_sorted(100).len(), 15);
}

#[test]
fn record_line_counts_kept_entries_and_failures() {
    let filters = FilterEngine::new(FilterConfig {
        status: Some(200),
        contains: None,
        regex: None,
        from: None,
        to: None,
        ip: None,
        cidr: None,
    })
    .expect("valid filter config");
    let mut stats = Stats::default();

    stats.record_line(&Ok(entry(Some(200), Some("/a"))), &filters);
    stats.record_line(&Ok(entry(Some(500), Some("/b"))), &filters);
    stats.record_line(&Err("invalid apache line".to_string()), &filters);

    assert_eq!(stats.total_lines, 3);
    assert_eq!(stats.parsed_lines, 1);
    assert_eq!(stats.parse_errors, 1);
    assert_eq!(stats.status_counts.get(&200), Some(&1));
    assert_eq!(stats.status_counts.get(&500), None);
    assert_eq!(stats.top_paths.get("/a"), Some(1));
    assert_eq!(stats.top_paths.get("/b"), None);
    assert_eq!(stats.error_samples, vec![(3, "invalid apache line".to_string())]);
}

#[test]
fn record_line_samples_failures_on_increasing_lines() {
    let filters = FilterEngine::new(FilterConfig::default()).expect("valid filter config");
    let mut stats = Stats::default();
    for i in 0..8 {
        if i % 2 == 0 {
            stats.record_line(&Err(format!("bad {}", i)), &filters);
        } else {
            stats.record_line(&Ok(entry(Some(200), Some("/x"))), &filters);
        }
    }

    assert_eq!(stats.total_lines, 8);
    assert_eq!(stats.parsed_lines, 4);
    assert_eq!(stats.parse_errors, 4);
    let lines: Vec<usize> = stats.error_samples.iter().map(|(n, _)| *n).collect();
    assert_eq!(lines, vec![1, 3, 5, 7]);
    assert_eq!(stats.top_paths.get("/x"), Some(4));
}

#[test]
fn summed_counts_stay_within_parsed_lines() {
    let filters = FilterEngine::new(FilterConfig::default()).expect("valid filter config");
    let mut stats = Stats::default();
    for i in 0..6 {
        let status = if i % 3 == 0 { None } else { Some(200 + i as u16) };
        let path = if i % 2 == 0 { Some("/a") } else { None };
        stats.record_line(&Ok(entry(status, path)), &filters);
    }
    stats.record_line(&Err("bad".to_string()), &filters);

    let status_sum: usize = stats.status_counts.values().sum();
    assert_eq!(stats.top_paths.len(), 1);
    let path_sum: usize = stats.top_paths.get("/a").unwrap_or(0);
    assert_eq!(stats.parsed_lines, 6);
    assert_eq!(status_sum, 4);
    assert_eq!(path_sum, 3);
    assert!(status_sum <= stats.parsed_lines && path_sum <= stats.parsed_lines);
}
