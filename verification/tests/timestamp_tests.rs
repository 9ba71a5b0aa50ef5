use agent_slint::timestamp::DateTime;

fn millis(s: &str) -> Option<i64> {
    DateTime::parse(s).ok().map(|t| t.millis)
}

#[test]
fn parses_fractional_utc_timestamp() {
    assert_eq!(millis("2026-09-22T10:00:00.000Z"), Some(1790071200000));
}

#[test]
fn parses_leap_day_with_millis() {
    assert_eq!(millis("2024-02-29T12:34:56.789Z"), Some(1709210096789));
}

#[test]
fn parses_without_fraction() {
    assert_eq!(millis("2000-03-01T00:00:00Z"), Some(951868800000));
    assert_eq!(millis("2023-06-15T08:30:00Z"), Some(1686817800000));
}

#[test]
fn epoch_is_zero() {
    assert_eq!(millis("1970-01-01T00:00:00Z"), Some(0));
    assert_eq!(millis("1970-01-01T00:00:00.001Z"), Some(1));
}

#[test]
fn before_epoch_is_negative() {
    assert_eq!(millis("1969-12-31T23:59:59Z"), Some(-1000));
}

#[test]
fn year_boundary_is_one_hour_apart() {
    let a = millis("2024-12-31T23:00:00Z").unwrap();
    let b = millis("2025-01-01T00:00:00Z").unwrap();
    assert_eq!(b - a, 3_600_000);
    assert_eq!(b, 1735689600000);
}

#[test]
fn too_short_is_rejected() {
    assert!(DateTime::parse("2024-01-01T00:00").is_err());
    assert!(DateTime::parse("").is_err());
}

#[test]
fn non_digit_field_is_rejected() {
    assert!(DateTime::parse("20x4-01-01T00:00:00Z").is_err());
    assert!(DateTime::parse("2024-01-01T00:00:0aZ").is_err());
}

#[test]
fn truncated_fraction_is_rejected() {
    assert!(DateTime::parse("2024-01-01T00:00:00.5Z").is_err());
    assert!(DateTime::parse("2024-01-01T00:00:00.").is_err());
}

#[test]
fn separators_are_not_checked() {
    assert_eq!(millis("2024/01/01 00:00:00"), millis("2024-01-01T00:00:00Z"));
}

#[test]
fn signed_fields_parse_like_integers() {
    assert_eq!(millis("2024-+1-01T00:00:00Z"), Some(1704067200000));
    assert!(DateTime::parse("2024--1-01T00:00:00Z").is_ok());
    assert!(DateTime::parse("2024-+--01T00:00:00Z").is_err());
}

#[test]
fn month_thirteen_rolls_into_next_year() {
    assert_eq!(millis("2024-13-01T00:00:00Z"), Some(1735689600000));
}

#[test]
fn from_str_matches_parse() {
    let t: DateTime = "2026-09-22T10:00:00.000Z".parse().unwrap();
    assert_eq!(t.millis, 1790071200000);
    assert!("garbage".parse::<DateTime>().is_err());
}

#[test]
fn non_ascii_field_is_rejected() {
    assert!(DateTime::parse("2024-0é-01T00:00:00Z").is_err());
}

#[test]
fn later_text_reads_larger() {
    let texts = [
        "1999-12-31T23:59:59.999Z",
        "2000-01-01T00:00:00.000Z",
        "2024-02-28T23:59:59.999Z",
        "2024-02-29T00:00:00.000Z",
        "2024-03-01T00:00:00.000Z",
        "2026-09-22T10:00:00.000Z",
    ];
    for w in texts.windows(2) {
        assert!(w[0] < w[1]);
        assert!(millis(w[0]).unwrap() < millis(w[1]).unwrap());
    }
}
