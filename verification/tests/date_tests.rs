use shellist::date::{
    Bucket, bucket_key, civil_from_days, days_from_civil, parse_date_to_unix, resolve_date_spec,
    resolve_until,
};

#[test]
fn epoch_is_zero_days() {
    assert_eq!(days_from_civil(1970, 1, 1), 0);
}

#[test]
fn y2k_known_offset() {
    // 2000-01-01 is 10957 days after 1970-01-01.
    assert_eq!(days_from_civil(2000, 1, 1), 10_957);
}

#[test]
fn civil_round_trip() {
    for (y, m, d) in [
        (1970, 1, 1),
        (2000, 1, 1),
        (1999, 12, 31),
        (2024, 2, 29),
        (2099, 6, 15),
        (1601, 1, 1),
    ] {
        let days = days_from_civil(y, m, d);
        assert_eq!(civil_from_days(days), (y, m, d), "{y}-{m}-{d}");
    }
}

#[test]
fn civil_negative_years_round_trip() {
    for (y, m, d) in [(-1, 3, 1), (0, 2, 29), (-400, 12, 31), (-4713, 11, 24)] {
        let days = days_from_civil(y, m, d);
        assert_eq!(civil_from_days(days), (y, m, d));
    }
    assert_eq!(civil_from_days(-1), (1969, 12, 31));
}

#[test]
fn parse_date_valid() {
    assert_eq!(parse_date_to_unix("2020-01-01"), Some(1_577_836_800));
    assert_eq!(parse_date_to_unix("1970-01-01"), Some(0));
}

#[test]
fn parse_date_invalid() {
    assert_eq!(parse_date_to_unix("not-a-date"), None);
    assert_eq!(parse_date_to_unix("2020-13-01"), None);
    assert_eq!(parse_date_to_unix("2020-00-40"), None);
    assert_eq!(parse_date_to_unix("2020-02-30"), None);
    assert_eq!(parse_date_to_unix("2023-04-31"), None);
    assert_eq!(parse_date_to_unix("2023-02-29"), None);
    assert_eq!(
        parse_date_to_unix("2020-1-1"),
        Some(days_from_civil(2020, 1, 1) * 86400)
    );
}

#[test]
fn parse_date_field_shapes() {
    assert_eq!(parse_date_to_unix("  2020 - 01 - 02 "), Some(1_577_923_200));
    assert_eq!(parse_date_to_unix("2020-01-01-01"), None);
    assert_eq!(parse_date_to_unix("2020-01"), None);
    assert_eq!(parse_date_to_unix("2020-03-00"), None);
    assert_eq!(parse_date_to_unix("+2020-+01-+01"), Some(1_577_836_800));
}

#[test]
fn bucket_day_key() {
    assert_eq!(bucket_key(1_577_836_800, Bucket::Day), "2020-01-01");
}

#[test]
fn bucket_month_key() {
    assert_eq!(bucket_key(1_577_836_800, Bucket::Month), "2020-01");
}

#[test]
fn bucket_week_aligns_to_monday() {
    let key = bucket_key(1_577_923_200, Bucket::Week); // 2020-01-02 (Thursday)
    // ISO week 1 of 2020 starts Monday 2019-12-30.
    assert_eq!(key, "2019-12-30");
}

#[test]
fn bucket_week_before_first_monday() {
    assert_eq!(bucket_key(0, Bucket::Week), "1969-12-29");
    assert_eq!(bucket_key(0, Bucket::Day), "1970-01-01");
}

#[test]
fn bucket_from_name() {
    assert_eq!(Bucket::from_name("day"), Some(Bucket::Day));
    assert_eq!(Bucket::from_name("WEEKLY"), Some(Bucket::Week));
    assert_eq!(Bucket::from_name("month"), Some(Bucket::Month));
    assert_eq!(Bucket::from_name("hour"), None);
}

#[test]
fn resolve_relative_and_absolute_dates() {
    let now = 1_600_000_000;
    assert_eq!(resolve_date_spec("7d", now), Some(now - 7 * 86_400));
    assert_eq!(resolve_date_spec("2w", now), Some(now - 14 * 86_400));
    assert_eq!(resolve_date_spec("3m", now), Some(now - 90 * 86_400));
    assert_eq!(resolve_date_spec(" 2020-01-01 ", now), Some(1_577_836_800));
    assert_eq!(resolve_date_spec("7y", now), None);
    assert_eq!(resolve_date_spec("d", now), None);
    assert_eq!(resolve_date_spec("9223372036854775807-01-01", now), None);
}

#[test]
fn parse_date_rejects_day_zero_and_huge_years() {
    assert_eq!(parse_date_to_unix("2020-03-00"), None);
    assert_eq!(parse_date_to_unix("2020-01-00"), None);
    assert_eq!(parse_date_to_unix("1000000000000-01-01"), None);
    assert_eq!(parse_date_to_unix("-9223372036854775808-01-01"), None);
    assert_eq!(parse_date_to_unix("292277026596-12-04"), Some(9223372036854720000));
    assert_eq!(parse_date_to_unix("292277026596-12-05"), None);
    assert_eq!(parse_date_to_unix("100000000-01-01"), Some(3155633032780800));
}

#[test]
fn resolve_until_keeps_the_whole_day() {
    assert_eq!(resolve_until("2020-01-01", 0), Some(1_577_836_800 + 86_399));
    assert_eq!(resolve_until(" 3d ", 1_000_000), Some(1_000_000 - 3 * 86_400));
    assert_eq!(resolve_until("yesterday", 0), None);
    assert_eq!(resolve_until("292277026596-12-04", 0), Some(i64::MAX));
}
