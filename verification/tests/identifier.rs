use dn::identifier::{generate_identifier, parse_identifier, Timestamp};

#[test]
fn identifier_has_fixed_width() {
    let early = Timestamp::new(7, 1, 2, 3, 4, 5).unwrap();
    assert_eq!(generate_identifier(&early), "00070102T030405");
    let late = Timestamp::new(9999, 12, 31, 23, 59, 59).unwrap();
    assert_eq!(generate_identifier(&late), "99991231T235959");
}

#[test]
fn identifiers_one_second_apart_sort_in_order() {
    let pairs = [
        ((2024, 1, 1, 12, 0, 0), (2024, 1, 1, 12, 0, 1)),
        ((2024, 1, 1, 12, 0, 59), (2024, 1, 1, 12, 1, 0)),
        ((2024, 1, 1, 12, 59, 59), (2024, 1, 1, 13, 0, 0)),
        ((2024, 1, 31, 23, 59, 59), (2024, 2, 1, 0, 0, 0)),
        ((2024, 2, 29, 23, 59, 59), (2024, 3, 1, 0, 0, 0)),
        ((2024, 12, 31, 23, 59, 59), (2025, 1, 1, 0, 0, 0)),
        ((999, 12, 31, 23, 59, 59), (1000, 1, 1, 0, 0, 0)),
    ];
    for (a, b) in pairs {
        let first = Timestamp::new(a.0, a.1, a.2, a.3, a.4, a.5).unwrap();
        let second = Timestamp::new(b.0, b.1, b.2, b.3, b.4, b.5).unwrap();
        assert!(generate_identifier(&first) < generate_identifier(&second));
    }
}

#[test]
fn timestamp_rejects_what_does_not_exist() {
    assert!(Timestamp::new(2023, 2, 29, 0, 0, 0).is_none());
    assert!(Timestamp::new(2024, 2, 29, 0, 0, 0).is_some());
    assert!(Timestamp::new(1900, 2, 29, 0, 0, 0).is_none());
    assert!(Timestamp::new(2000, 2, 29, 0, 0, 0).is_some());
    assert!(Timestamp::new(2024, 13, 1, 0, 0, 0).is_none());
    assert!(Timestamp::new(2024, 0, 1, 0, 0, 0).is_none());
    assert!(Timestamp::new(2024, 4, 31, 0, 0, 0).is_none());
    assert!(Timestamp::new(2024, 4, 0, 0, 0, 0).is_none());
    assert!(Timestamp::new(2024, 1, 1, 24, 0, 0).is_none());
    assert!(Timestamp::new(2024, 1, 1, 0, 60, 0).is_none());
    assert!(Timestamp::new(2024, 1, 1, 0, 0, 60).is_none());
    assert!(Timestamp::new(10000, 1, 1, 0, 0, 0).is_none());
}

#[test]
fn unix_seconds_give_the_moment() {
    let cases: [(u64, &str); 9] = [
        (0, "19700101T000000"),
        (59, "19700101T000059"),
        (86_399, "19700101T235959"),
        (86_400, "19700102T000000"),
        (951_782_400, "20000229T000000"),
        (1_704_110_400, "20240101T120000"),
        (4_107_542_399, "21000228T235959"),
        (4_107_542_400, "21000301T000000"),
        (253_402_300_799, "99991231T235959"),
    ];
    for (seconds, expected) in cases {
        let timestamp = Timestamp::from_unix_seconds(seconds).unwrap();
        assert_eq!(generate_identifier(&timestamp), expected, "seconds {seconds}");
    }
}

#[test]
fn unix_seconds_beyond_the_last_year_give_nothing() {
    assert!(Timestamp::from_unix_seconds(253_402_300_800).is_none());
    assert!(Timestamp::from_unix_seconds(u64::MAX).is_none());
}

#[test]
fn consecutive_seconds_give_rising_identifiers() {
    let start: u64 = 1_709_251_190;
    let mut previous = generate_identifier(&Timestamp::from_unix_seconds(start).unwrap());
    for seconds in start + 1..start + 30 {
        let next = generate_identifier(&Timestamp::from_unix_seconds(seconds).unwrap());
        assert!(previous < next);
        previous = next;
    }
}

#[test]
fn identifier_reads_back_as_its_moment() {
    let written = Timestamp::new(2024, 2, 29, 23, 59, 58).unwrap();
    let read = parse_identifier(&generate_identifier(&written)).unwrap();
    assert_eq!(generate_identifier(&read), "20240229T235958");
}

#[test]
fn parse_identifier_rejects_what_names_no_moment() {
    assert!(parse_identifier("20230229T000000").is_none());
    assert!(parse_identifier("20240101T240000").is_none());
    assert!(parse_identifier("20241301T000000").is_none());
    assert!(parse_identifier("20240100T000000").is_none());
    assert!(parse_identifier("2024-01-01T0000").is_none());
    assert!(parse_identifier("20240101T12000").is_none());
    assert!(parse_identifier("").is_none());
    assert!(parse_identifier("20240101T120000").is_some());
}

#[test]
fn timestamp_gives_its_fields() {
    let timestamp = Timestamp::from_unix_seconds(1_704_110_400).unwrap();
    assert_eq!(timestamp.year(), 2024);
    assert_eq!(timestamp.month(), 1);
    assert_eq!(timestamp.day(), 1);
    assert_eq!(timestamp.hour(), 12);
    assert_eq!(timestamp.minute(), 0);
    assert_eq!(timestamp.second(), 0);
    let read = parse_identifier("19991231T235958").unwrap();
    assert_eq!(
        (read.year(), read.month(), read.day(), read.hour(), read.minute(), read.second()),
        (1999, 12, 31, 23, 59, 58)
    );
}
