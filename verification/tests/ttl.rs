use escutcheon::decimal::format_u64;
use escutcheon::ttl::{format_record, parse_record, record_age, record_file_name, sanitize_host, should_knock};

#[test]
fn should_knock_zero_ttl_always() {
    assert!(should_knock(0, Some(0)));
    assert!(should_knock(0, None));
}

#[test]
fn should_knock_compares_age_to_ttl() {
    assert!(!should_knock(10, Some(10)));
    assert!(!should_knock(10, Some(0)));
    assert!(should_knock(10, Some(11)));
    assert!(should_knock(10, None));
}

#[test]
fn record_roundtrip() {
    for t in [0u64, 7, 10, 1_700_000_000, u64::MAX] {
        assert_eq!(format_record(t), t.to_string());
        assert_eq!(parse_record(&format_record(t)), Some(t));
    }
}

#[test]
fn parse_record_trims_and_matches_std() {
    let cases = [
        "12", " 12\n", "\t42 ", "+5", "+", "-5", "", "  ", "1 2", "0x10", "18446744073709551615",
        "18446744073709551616", "007", "\u{a0}9\u{3000}", "٣", "1_000",
    ];
    for c in cases {
        assert_eq!(parse_record(c), c.trim().parse::<u64>().ok(), "input {:?}", c);
    }
}

#[test]
fn record_age_saturates() {
    assert_eq!(record_age("100", 160), Some(60));
    assert_eq!(record_age("200\n", 160), Some(0));
    assert_eq!(record_age("garbage", 160), None);
}

#[test]
fn sanitize_host_replaces_separators() {
    assert_eq!(sanitize_host("a/b\\c:d"), "a_b_c_d");
    assert_eq!(sanitize_host("host.example"), "host.example");
    assert_eq!(sanitize_host("[::1]"), "[__1]");
    assert_eq!(record_file_name("gw:22"), "gw_22.knock");
}

#[test]
fn decimal_matches_to_string() {
    for n in [0u64, 1, 9, 10, 99, 100, 65535, 4294967296, u64::MAX] {
        assert_eq!(format_u64(n), n.to_string());
    }
}

#[test]
fn knock_again_only_after_ttl() {
    let recorded = format_record(1_000);
    assert!(!should_knock(60, record_age(&recorded, 1_060)));
    assert!(should_knock(60, record_age(&recorded, 1_061)));
    assert!(!should_knock(60, record_age(&recorded, 900)));
    assert!(should_knock(0, record_age(&recorded, 900)));
}
