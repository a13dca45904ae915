use oculus::filter::{FilterConfig, FilterEngine, FilterError};
use oculus::ip::{parse_ip, IpAddress, IpNetwork};
use oculus::types::{LogEntry, Timestamp};

fn sample_entry() -> LogEntry {
    LogEntry {
        ip: Some("127.0.0.1".to_string()),
        method: Some("GET".to_string()),
        path: Some("/api/users".to_string()),
        status: Some(200),
        timestamp: Some(
            Timestamp::from_rfc3339("2023-10-10T13:55:36+00:00").expect("valid timestamp"),
        ),
        message: String::new(),
        raw: r#"127.0.0.1 - - [10/Oct/2023:13:55:36 +0000] "GET /api/users HTTP/1.1" 200 1234"#
            .to_string(),
    }
}

fn config() -> FilterConfig {
    FilterConfig::default()
}

#[test]
fn default_filter_accepts_entry() {
    let engine = FilterEngine::new(FilterConfig::default()).expect("valid filter config");

    assert!(engine.accept(&sample_entry()));
}

#[test]
fn matching_status_is_accepted() {
    let engine = FilterEngine::new(FilterConfig {
        status: Some(200),
        contains: None,
        regex: None,
        from: None,
        to: None,
        ip: None,
        cidr: None,
    })
    .expect("valid filter config");

    assert!(engine.accept(&sample_entry()));
}

#[test]
fn non_matching_status_is_rejected() {
    let engine = FilterEngine::new(FilterConfig {
        status: Some(404),
        contains: None,
        regex: None,
        from: None,
        to: None,
        ip: None,
        cidr: None,
    })
    .expect("valid filter config");

    assert!(!engine.accept(&sample_entry()));
}

#[test]
fn matching_contains_is_accepted() {
    let engine = FilterEngine::new(FilterConfig {
        status: None,
        contains: Some("/api/users".to_string()),
        regex: None,
        from: None,
        to: None,
        ip: None,
        cidr: None,
    })
    .expect("valid filter config");

    assert!(engine.accept(&sample_entry()));
}

#[test]
fn non_matching_contains_is_rejected() {
    let engine = FilterEngine::new(FilterConfig {
        status: None,
        contains: Some("/admin".to_string()),
        regex: None,
        from: None,
        to: None,
        ip: None,
        cidr: None,
    })
    .expect("valid filter config");

    assert!(!engine.accept(&sample_entry()));
}

#[test]
fn matching_regex_is_accepted() {
    let engine = FilterEngine::new(FilterConfig {
        status: None,
        contains: None,
        regex: Some(r"/api/\w+".to_string()),
        from: None,
        to: None,
        ip: None,
        cidr: None,
    })
    .expect("valid filter config");

    assert!(engine.accept(&sample_entry()));
}

#[test]
fn non_matching_regex_is_rejected() {
    let engine = FilterEngine::new(FilterConfig {
        status: None,
        contains: None,
        regex: Some(r"/admin/\w+".to_string()),
        from: None,
        to: None,
        ip: None,
        cidr: None,
    })
    .expect("valid filter config");

    assert!(!engine.accept(&sample_entry()));
}

#[test]
fn invalid_regex_is_rejected_during_construction() {
    let result = FilterEngine::new(FilterConfig {
        status: None,
        contains: None,
        regex: Some("[".to_string()),
        from: None,
        to: None,
        ip: None,
        cidr: None,
    });

    assert!(result.is_err());
}

#[test]
fn all_filters_can_be_combined() {
    let engine = FilterEngine::new(FilterConfig {
        status: Some(200),
        contains: Some("GET".to_string()),
        regex: Some(r"users".to_string()),
        from: None,
        to: None,
        ip: None,
        cidr: None,
    })
    .expect("valid filter config");

    assert!(engine.accept(&sample_entry()));
}

#[test]
fn rejects_invalid_from_timestamp() {
    let result = FilterEngine::new(FilterConfig {
        status: None,
        contains: None,
        regex: None,
        from: Some("invalid".to_string()),
        to: None,
        ip: None,
        cidr: None,
    });

    assert!(result.is_err());
}

#[test]
fn rejects_invalid_to_timestamp() {
    let result = FilterEngine::new(FilterConfig {
        status: None,
        contains: None,
        regex: None,
        from: None,
        to: Some("invalid".to_string()),
        ip: None,
        cidr: None,
    });

    assert!(result.is_err());
}

#[test]
fn accepts_entry_within_time_range() {
    let engine = FilterEngine::new(FilterConfig {
        status: None,
        contains: None,
        regex: None,
        from: Some("2023-10-10T13:00:00+00:00".to_string()),
        to: Some("2023-10-10T14:00:00+00:00".to_string()),
        ip: None,
        cidr: None,
    })
    .expect("valid filter config");

    assert!(engine.accept(&sample_entry()));
}

#[test]
fn rejects_entry_before_from_time() {
    let engine = FilterEngine::new(FilterConfig {
        status: None,
        contains: None,
        regex: None,
        from: Some("2023-10-10T14:00:00+00:00".to_string()),
        to: None,
        ip: None,
        cidr: None,
    })
    .expect("valid filter config");

    assert!(!engine.accept(&sample_entry()));
}

#[test]
fn rejects_entry_after_to_time() {
    let engine = FilterEngine::new(FilterConfig {
        status: None,
        contains: None,
        regex: None,
        from: None,
        to: Some("2023-10-10T13:00:00+00:00".to_string()),
        ip: None,
        cidr: None,
    })
    .expect("valid filter config");

    assert!(!engine.accept(&sample_entry()));
}

#[test]
fn exact_ip_filter_accepts_matching_ip() {
    let engine = FilterEngine::new(FilterConfig {
        status: None,
        contains: None,
        regex: None,
        from: None,
        to: None,
        ip: Some("127.0.0.1".to_string()),
        cidr: None,
    })
    .expect("valid filter config");

    assert!(engine.accept(&sample_entry()));
}

#[test]
fn exact_ip_filter_rejects_non_matching_ip() {
    let engine = FilterEngine::new(FilterConfig {
        status: None,
        contains: None,
        regex: None,
        from: None,
        to: None,
        ip: Some("10.0.0.1".to_string()),
        cidr: None,
    })
    .expect("valid filter config");

    assert!(!engine.accept(&sample_entry()));
}

#[test]
fn cidr_filter_accepts_matching_subnet() {
    let engine = FilterEngine::new(FilterConfig {
        status: None,
        contains: None,
        regex: None,
        from: None,
        to: None,
        ip: None,
        cidr: Some("127.0.0.0/24".to_string()),
    })
    .expect("valid filter config");

    assert!(engine.accept(&sample_entry()));
}

#[test]
fn cidr_filter_rejects_non_matching_subnet() {
    let engine = FilterEngine::new(FilterConfig {
        status: None,
        contains: None,
        regex: None,
        from: None,
        to: None,
        ip: None,
        cidr: Some("10.0.0.0/24".to_string()),
    })
    .expect("valid filter config");

    assert!(!engine.accept(&sample_entry()));
}

#[test]
fn entry_without_timestamp_fails_time_filter() {
    let engine = FilterEngine::new(FilterConfig {
        from: Some("2023-10-10T13:00:00+00:00".to_string()),
        ..config()
    })
    .expect("valid filter config");
    let mut entry = sample_entry();
    entry.timestamp = None;

    assert!(!engine.accept(&entry));
}

#[test]
fn time_bounds_compare_instants_across_offsets() {
    // 13:55:36 UTC is 15:55:36 at +02:00: the bound is the same instant, so it is kept.
    let engine = FilterEngine::new(FilterConfig {
        from: Some("2023-10-10T15:55:36+02:00".to_string()),
        to: Some("2023-10-10T15:55:36+02:00".to_string()),
        ..config()
    })
    .expect("valid filter config");

    assert!(engine.accept(&sample_entry()));
}

#[test]
fn inverted_time_range_keeps_nothing() {
    let engine = FilterEngine::new(FilterConfig {
        from: Some("2023-10-10T14:00:00+00:00".to_string()),
        to: Some("2023-10-10T13:00:00+00:00".to_string()),
        ..config()
    })
    .expect("valid filter config");

    assert!(!engine.accept(&sample_entry()));
}

#[test]
fn combined_filter_rejects_when_one_criterion_fails() {
    let engine = FilterEngine::new(FilterConfig {
        status: Some(200),
        contains: Some("GET".to_string()),
        regex: Some(r"admin".to_string()),
        ..config()
    })
    .expect("valid filter config");

    assert!(!engine.accept(&sample_entry()));
}

#[test]
fn errors_name_the_first_bad_criterion() {
    let both_bad = FilterEngine::new(FilterConfig {
        regex: Some("(".to_string()),
        from: Some("nope".to_string()),
        ..config()
    });
    assert!(matches!(both_bad, Err(FilterError::Regex(_))));

    let from_bad = FilterEngine::new(FilterConfig { from: Some("nope".to_string()), ..config() });
    assert!(matches!(from_bad, Err(FilterError::From(_))));

    let to_bad = FilterEngine::new(FilterConfig { to: Some("nope".to_string()), ..config() });
    assert!(matches!(to_bad, Err(FilterError::To(_))));

    let ip_bad = FilterEngine::new(FilterConfig { ip: Some("10.0.0.256".to_string()), ..config() });
    assert!(matches!(ip_bad, Err(FilterError::Ip)));

    let cidr_bad = FilterEngine::new(FilterConfig { cidr: Some("10.0.0.0/33".to_string()), ..config() });
    assert!(matches!(cidr_bad, Err(FilterError::Cidr(_))));
}

#[test]
fn entry_with_unreadable_ip_fails_address_filters() {
    let engine = FilterEngine::new(FilterConfig { cidr: Some("0.0.0.0/0".to_string()), ..config() })
        .expect("valid filter config");
    let mut entry = sample_entry();
    entry.ip = Some("localhost".to_string());
    assert!(!engine.accept(&entry));
    entry.ip = None;
    assert!(!engine.accept(&entry));
}

#[test]
fn ipv4_literals() {
    assert_eq!(parse_ip("127.0.0.1"), Some(IpAddress::V4(0x7f00_0001)));
    assert_eq!(parse_ip("0.0.0.0"), Some(IpAddress::V4(0)));
    assert_eq!(parse_ip("255.255.255.255"), Some(IpAddress::V4(0xffff_ffff)));
    assert_eq!(parse_ip("256.0.0.1"), None);
    assert_eq!(parse_ip("01.2.3.4"), None);
    assert_eq!(parse_ip("1.2.3"), None);
    assert_eq!(parse_ip("1.2.3.4.5"), None);
    assert_eq!(parse_ip("1.2.3.4 "), None);
    assert_eq!(parse_ip(""), None);
    assert_eq!(parse_ip("1..2.3"), None);
}

#[test]
fn ipv6_literals() {
    assert_eq!(parse_ip("::"), Some(IpAddress::V6(0)));
    assert_eq!(parse_ip("::1"), Some(IpAddress::V6(1)));
    assert_eq!(
        parse_ip("2001:db8::ff00:42:8329"),
        Some(IpAddress::V6(0x2001_0db8_0000_0000_0000_ff00_0042_8329))
    );
    assert_eq!(
        parse_ip("2001:DB8:0:0:0:0:0:1"),
        Some(IpAddress::V6(0x2001_0db8_0000_0000_0000_0000_0000_0001))
    );
    assert_eq!(
        parse_ip("::ffff:192.168.1.1"),
        Some(IpAddress::V6(0x0000_0000_0000_0000_0000_ffff_c0a8_0101))
    );
    assert_eq!(
        parse_ip("1:2:3:4:5:6:7::"),
        Some(IpAddress::V6(0x0001_0002_0003_0004_0005_0006_0007_0000))
    );
    assert_eq!(parse_ip("1:2:3:4:5:6:7:8:9"), None);
    assert_eq!(parse_ip("1::2::3"), None);
    assert_eq!(parse_ip("12345::"), None);
    assert_eq!(parse_ip("1.2.3.4::"), None);
    assert_eq!(parse_ip(":::"), None);
    assert_eq!(parse_ip("1:2:3:4:5:6:7:8::"), None);
}

#[test]
fn ip_literal_edge_cases() {
    let cases: [(&str, Option<IpAddress>); 22] = [
        ("127.0.0.1", Some(IpAddress::V4(0x7f00_0001))),
        ("0.0.0.0", Some(IpAddress::V4(0))),
        ("1.2.3.04", None),
        ("300.1.1.1", None),
        ("::", Some(IpAddress::V6(0))),
        ("::1", Some(IpAddress::V6(1))),
        ("fe80::1", Some(IpAddress::V6(0xfe80_0000_0000_0000_0000_0000_0000_0001))),
        ("1::", Some(IpAddress::V6(0x0001_0000_0000_0000_0000_0000_0000_0000))),
        ("::ffff:1.2.3.4", Some(IpAddress::V6(0x0000_0000_0000_0000_0000_ffff_0102_0304))),
        ("1:2:3:4:5:6:1.2.3.4", Some(IpAddress::V6(0x0001_0002_0003_0004_0005_0006_0102_0304))),
        ("1:2:3:4:5:6:7:1.2.3.4", None),
        ("a:b:c:d:e:f:0:1", Some(IpAddress::V6(0x000a_000b_000c_000d_000e_000f_0000_0001))),
        ("1:2:3:4:5:6:7", None),
        ("12345::", None),
        (":1::", None),
        ("1:::2", None),
        ("1.2.3.4:5::", None),
        ("", None),
        ("x", None),
        ("::1.2.3", None),
        ("1:2:3:4:5:6::1.2.3.4", None),
        ("1:2:3:4:5::1.2.3.4", Some(IpAddress::V6(0x0001_0002_0003_0004_0005_0000_0102_0304))),
    ];
    for (text, expected) in cases {
        assert_eq!(parse_ip(text), expected, "address {:?}", text);
    }
}

#[test]
fn networks_and_membership() {
    let net = IpNetwork::parse("10.1.2.3/8").expect("network");
    assert_eq!(net, IpNetwork::V4 { addr: 0x0a01_0203, prefix: 8 });
    assert!(net.contains(&IpAddress::V4(0x0aff_ffff)));
    assert!(net.contains(&IpAddress::V4(0x0a00_0000)));
    assert!(!net.contains(&IpAddress::V4(0x0b00_0000)));
    assert!(!net.contains(&IpAddress::V6(0x0a00_0000)));

    let all = IpNetwork::parse("0.0.0.0/0").expect("network");
    assert!(all.contains(&IpAddress::V4(0xffff_ffff)));
    let one = IpNetwork::parse("192.168.1.7/32").expect("network");
    assert!(one.contains(&IpAddress::V4(0xc0a8_0107)));
    assert!(!one.contains(&IpAddress::V4(0xc0a8_0108)));

    let v6 = IpNetwork::parse("fd00::/8").expect("network");
    assert!(v6.contains(&IpAddress::V6(0xfd12_0000_0000_0000_0000_0000_0000_0001)));
    assert!(!v6.contains(&IpAddress::V6(0xfe00_0000_0000_0000_0000_0000_0000_0000)));

    assert_eq!(IpNetwork::parse("10.0.0.0/33"), None);
    assert_eq!(IpNetwork::parse("10.0.0.0"), None);
}

#[test]
fn verdict_without_time_bounds_ignores_timestamp() {
    let engine = FilterEngine::new(FilterConfig {
        status: Some(200),
        cidr: Some("127.0.0.0/8".to_string()),
        ..config()
    })
    .expect("valid filter config");
    let with_time = sample_entry();
    let mut without_time = sample_entry();
    without_time.timestamp = None;

    assert!(engine.accept(&with_time));
    assert_eq!(engine.accept(&with_time), engine.accept(&without_time));
}
