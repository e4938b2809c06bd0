use pihole_metrics::config::EnvConfig;
use pihole_metrics::config::get_default_db_location;
use pihole_metrics::config::get_default_limit;
use pihole_metrics::config::get_default_lock_file_location;
use pihole_metrics::digits::parse_u64;
use pihole_metrics::digits::u64_to_dec;
use pihole_metrics::record::PiholeEntry;
use pihole_metrics::record::SourceRow;
use pihole_metrics::record::extract_places;
use pihole_metrics::record::pihole_entry_to_ilp;
use pihole_metrics::record::process_individual_value;

#[test]
fn decimal_rendering_is_canonical() {
    assert_eq!(u64_to_dec(0), "0");
    assert_eq!(u64_to_dec(7), "7");
    assert_eq!(u64_to_dec(1234567890), "1234567890");
    assert_eq!(u64_to_dec(u64::MAX), "18446744073709551615");
}

#[test]
fn parse_accepts_surrounded_digits() {
    assert_eq!(parse_u64("0"), Some(0));
    assert_eq!(parse_u64(" \t 9001 \r\n"), Some(9001));
    assert_eq!(parse_u64("007"), Some(7));
    assert_eq!(parse_u64("18446744073709551615"), Some(u64::MAX));
}

#[test]
fn parse_rejects_non_numbers() {
    assert_eq!(parse_u64(""), None);
    assert_eq!(parse_u64("   "), None);
    assert_eq!(parse_u64("12a"), None);
    assert_eq!(parse_u64("1 2"), None);
    assert_eq!(parse_u64("-1"), None);
    assert_eq!(parse_u64("18446744073709551616"), None);
}

#[test]
fn rendering_then_parsing_returns_the_value() {
    for n in [0, 1, 10, 999, 1000, 4999, u64::MAX - 1, u64::MAX] {
        assert_eq!(parse_u64(u64_to_dec(n).as_str()), Some(n));
    }
}

#[test]
fn extract_places_gives_low_decimal_digits() {
    assert_eq!(extract_places(54321), (3, 2, 1));
    assert_eq!(extract_places(7), (0, 0, 7));
    assert_eq!(extract_places(1000), (0, 0, 0));
}

#[test]
fn timestamp_gains_sub_second_digits_from_id() {
    let entry = process_individual_value(&SourceRow {
        id: 123456,
        timestamp: 1700000000,
        query_type: 1,
        status: 2,
        domain: "example.com".to_string(),
        client: "10.0.0.2".to_string(),
        upstream: Some("8.8.8.8".to_string()),
        reply_type: 4,
    });
    assert_eq!(entry.time, 1700000000456);
    assert_eq!(entry.id, 123456);
    assert_eq!(entry.upstream, "8.8.8.8");
}

#[test]
fn absent_upstream_becomes_placeholder() {
    let entry = process_individual_value(&SourceRow {
        id: 5,
        timestamp: 100,
        query_type: 1,
        status: 2,
        domain: "example.com".to_string(),
        client: "10.0.0.2".to_string(),
        upstream: None,
        reply_type: 0,
    });
    assert_eq!(entry.upstream, "null");
}

#[test]
fn entry_renders_as_one_comma_separated_line() {
    let (line, id) = pihole_entry_to_ilp(PiholeEntry {
        id: 7,
        time: 1234,
        query_type: 1,
        domain: "example.com".to_string(),
        client: "10.0.0.2".to_string(),
        status: 2,
        upstream: "8.8.8.8".to_string(),
        reply_type: 3,
    });
    assert_eq!(line, "7,1234,1,2,3,10.0.0.2,example.com,8.8.8.8");
    assert_eq!(id, 7);
}

#[test]
fn defaults_match_documented_values() {
    assert_eq!(get_default_limit(), 5000);
    assert_eq!(get_default_db_location(), "/pihole-FTL.db");
    assert_eq!(get_default_lock_file_location(), "/last_file_check");
    let cfg = EnvConfig::default();
    assert_eq!(cfg.limit, 5000);
    assert_eq!(cfg.db_location, "/pihole-FTL.db");
    assert_eq!(cfg.lock_file, "/last_file_check");
}
