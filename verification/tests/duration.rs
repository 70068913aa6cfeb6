use dippin_parser::Duration;
use std::time::Duration as StdDuration;

#[test]
fn parses_seconds() {
    assert_eq!(Duration::parse("30s").unwrap().0, StdDuration::from_secs(30).as_nanos());
}

#[test]
fn parses_minutes() {
    assert_eq!(Duration::parse("5m").unwrap().0, StdDuration::from_secs(300).as_nanos());
}

#[test]
fn parses_hours_and_minutes() {
    assert_eq!(
        Duration::parse("1h30m").unwrap().0,
        StdDuration::from_secs(3600 + 1800).as_nanos()
    );
}

#[test]
fn parses_milliseconds() {
    assert_eq!(
        Duration::parse("500ms").unwrap().0,
        StdDuration::from_millis(500).as_nanos()
    );
}

#[test]
fn empty_is_zero() {
    assert!(Duration::parse("").unwrap().is_zero());
}

#[test]
fn rejects_unknown_unit() {
    assert!(Duration::parse("5x").is_err());
}

#[test]
fn rejects_missing_unit() {
    assert!(Duration::parse("5").is_err());
}

#[test]
fn display_round_trip_seconds() {
    assert_eq!(Duration::parse("30s").unwrap().to_string(), "30s");
}

#[test]
fn display_round_trip_minutes() {
    assert_eq!(Duration::parse("5m").unwrap().to_string(), "5m");
}

#[test]
fn display_round_trip_hours_and_minutes() {
    assert_eq!(Duration::parse("1h30m").unwrap().to_string(), "1h30m");
}

#[test]
fn display_round_trip_hours_only() {
    assert_eq!(Duration::parse("2h").unwrap().to_string(), "2h");
}

#[test]
fn display_round_trip_plain_seconds() {
    assert_eq!(Duration::parse("30s").unwrap().to_string(), "30s");
}

#[test]
fn display_round_trip_milliseconds() {
    assert_eq!(Duration::parse("500ms").unwrap().to_string(), "500ms");
}

#[test]
fn display_zero_is_zero_seconds() {
    assert_eq!(Duration::parse("").unwrap().to_string(), "0s");
}

#[test]
fn display_round_trip_full_compound() {
    assert_eq!(Duration::parse("1h2m3s").unwrap().to_string(), "1h2m3s");
}

#[test]
fn duration_fractions_and_units() {
    assert_eq!(Duration::parse("1.5h").unwrap().0, 5_400_000_000_000);
    assert_eq!(Duration::parse(".5s").unwrap().0, 500_000_000);
    assert_eq!(Duration::parse("5.s").unwrap().0, 5_000_000_000);
    assert_eq!(Duration::parse("250us").unwrap().0, 250_000);
    assert_eq!(Duration::parse("250\u{b5}s").unwrap().0, 250_000);
    assert_eq!(Duration::parse("7ns").unwrap().0, 7);
    assert_eq!(Duration::parse("1m30s").unwrap().0, 90_000_000_000);
}

#[test]
fn duration_component_is_capped() {
    assert_eq!(Duration::parse("99999999999999999999ns").unwrap().0, u64::MAX as u128);
}

#[test]
fn duration_error_messages() {
    assert_eq!(Duration::parse("5x").unwrap_err(), "unknown duration unit: x");
    assert_eq!(Duration::parse("5").unwrap_err(), "invalid duration: 5");
    assert_eq!(Duration::parse("1.2.3s").unwrap_err(), "invalid duration number: 1.2.3");
    assert_eq!(Duration::parse("s").unwrap_err(), "invalid duration: s");
    assert_eq!(Duration::parse(".s").unwrap_err(), "invalid duration number: .");
}

#[test]
fn duration_display_drops_sub_millisecond_part() {
    assert_eq!(Duration(1_500).to_string(), "0s");
    assert_eq!(Duration(3_723_004_000_000).to_string(), "1h2m3s4ms");
    assert_eq!(Duration::default().0, 0);
}

#[test]
fn written_duration_reads_back() {
    for n in [0u128, 4_000_000, 59_000_000_000, 3_723_004_000_000, 90_061_001_000_000] {
        let text = Duration(n).to_string();
        assert_eq!(Duration::parse(&text).unwrap().0, n);
    }
}

#[test]
fn concatenated_literals_read_as_the_sum() {
    let a = Duration::parse("1h").unwrap();
    let b = Duration::parse("30m15s").unwrap();
    let ab = Duration::parse("1h30m15s").unwrap();
    assert_eq!(ab.0, a.0 + b.0);
    assert_eq!(ab.0, 5415 * 1_000_000_000);
}
