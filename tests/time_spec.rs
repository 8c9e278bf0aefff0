use host_plugins::moment::{utc_now, Moment};
use host_plugins::text::{parse_i64, split_tokens, to_lowercase};
use host_plugins::time_spec::{parse_time, parse_time_at, unit_length, TimeSpecError};

fn at(secs: i64) -> Moment {
    Moment { secs, nanos: 250 }
}

#[test]
fn minutes_are_sixty_seconds() {
    assert_eq!(parse_time_at("5 minutes", at(1_000)), Ok(Moment { secs: 1_300, nanos: 250 }));
    assert_eq!(parse_time_at("1 minute", at(1_000)), Ok(Moment { secs: 1_060, nanos: 250 }));
}

#[test]
fn seconds_and_hours() {
    assert_eq!(parse_time_at("1 second", at(0)), Ok(Moment { secs: 1, nanos: 250 }));
    assert_eq!(parse_time_at("30 seconds", at(0)), Ok(Moment { secs: 30, nanos: 250 }));
    assert_eq!(parse_time_at("2 hours", at(0)), Ok(Moment { secs: 7_200, nanos: 250 }));
    assert_eq!(parse_time_at("1 hour", at(0)), Ok(Moment { secs: 3_600, nanos: 250 }));
}

#[test]
fn unit_case_is_ignored() {
    assert_eq!(parse_time_at("3 HOURS", at(0)), Ok(Moment { secs: 10_800, nanos: 250 }));
    assert_eq!(parse_time_at("3 Minute", at(0)), Ok(Moment { secs: 180, nanos: 250 }));
}

#[test]
fn negative_amount_gives_the_past() {
    assert_eq!(parse_time_at("-10 seconds", at(100)), Ok(Moment { secs: 90, nanos: 250 }));
    assert_eq!(parse_time_at("+2 minutes", at(100)), Ok(Moment { secs: 220, nanos: 250 }));
}

#[test]
fn any_white_space_separates() {
    assert_eq!(parse_time_at("  4\tminutes \n", at(0)), Ok(Moment { secs: 240, nanos: 250 }));
}

#[test]
fn parse_time_is_relative_to_now() {
    let before = utc_now();
    let r = parse_time("2 minutes").unwrap();
    let after = utc_now();
    assert!(r.secs >= before.secs + 120);
    assert!(r.secs <= after.secs + 120);
}

#[test]
fn wrong_token_count_is_a_format_error() {
    for s in ["", "   ", "5", "minutes", "1 2 3", "5 minutes later"] {
        assert_eq!(parse_time_at(s, at(0)), Err(TimeSpecError::FormatError), "{s:?}");
    }
}

#[test]
fn bad_amount_is_a_number_error() {
    for s in ["x minutes", "1.5 minutes", "- minutes", "99999999999999999999 seconds", "5m minutes"] {
        assert_eq!(parse_time_at(s, at(0)), Err(TimeSpecError::NumberError), "{s:?}");
    }
}

#[test]
fn unknown_unit_is_unsupported() {
    for s in ["5 days", "5 secondss", "5 sec", "5 s", "5 hourly"] {
        assert_eq!(parse_time_at(s, at(0)), Err(TimeSpecError::UnsupportedUnitError), "{s:?}");
    }
}

#[test]
fn number_is_checked_before_unit() {
    assert_eq!(parse_time_at("x days", at(0)), Err(TimeSpecError::NumberError));
}

#[test]
fn result_outside_range_is_refused() {
    assert_eq!(parse_time_at("9223372036854775807 hours", at(0)), Err(TimeSpecError::OutOfRangeError));
    assert_eq!(parse_time_at("9000000000000 seconds", at(0)), Err(TimeSpecError::OutOfRangeError));
    assert_eq!(
        parse_time_at("1 second", Moment { secs: 8_210_266_876_799, nanos: 0 }),
        Err(TimeSpecError::OutOfRangeError)
    );
    assert_eq!(
        parse_time_at("0 seconds", Moment { secs: 8_210_266_876_799, nanos: 0 }),
        Ok(Moment { secs: 8_210_266_876_799, nanos: 0 })
    );
}

#[test]
fn error_messages() {
    assert_eq!(TimeSpecError::NumberError.message(), "Invalid number");
    assert_eq!(
        TimeSpecError::FormatError.message(),
        "Invalid time format. Use 'amount unit', e.g., '1 minute'"
    );
    assert_eq!(TimeSpecError::OutOfRangeError.message(), "The resulting time is out of range");
    assert_eq!(
        TimeSpecError::UnsupportedUnitError.message(),
        "Unsupported unit. Use seconds, minutes, or hours."
    );
}

#[test]
fn unit_words() {
    assert_eq!(unit_length("second"), Some(1));
    assert_eq!(unit_length("seconds"), Some(1));
    assert_eq!(unit_length("minutes"), Some(60));
    assert_eq!(unit_length("hour"), Some(3600));
    assert_eq!(unit_length("hours"), Some(3600));
    assert_eq!(unit_length("Hours"), None);
    assert_eq!(unit_length(""), None);
    assert_eq!(unit_length("s"), None);
}

#[test]
fn tokens_split_on_white_space() {
    assert_eq!(split_tokens("  a\t bc \n"), vec!["a".to_string(), "bc".to_string()]);
    assert_eq!(split_tokens(""), Vec::<String>::new());
    assert_eq!(split_tokens("one"), vec!["one".to_string()]);
}

#[test]
fn decimal_integers() {
    assert_eq!(parse_i64("42"), Some(42));
    assert_eq!(parse_i64("+7"), Some(7));
    assert_eq!(parse_i64("-0"), Some(0));
    assert_eq!(parse_i64("-9223372036854775808"), Some(i64::MIN));
    assert_eq!(parse_i64("9223372036854775807"), Some(i64::MAX));
    assert_eq!(parse_i64("9223372036854775808"), None);
    assert_eq!(parse_i64("-9223372036854775809"), None);
    assert_eq!(parse_i64("-"), None);
    assert_eq!(parse_i64(""), None);
    assert_eq!(parse_i64("1a"), None);
    assert_eq!(parse_i64(" 1"), None);
}

#[test]
fn lowercasing() {
    assert_eq!(to_lowercase("MiNuTeS"), "minutes");
}

#[test]
fn moments_order_by_seconds_then_nanos() {
    let a = Moment { secs: 5, nanos: 10 };
    assert!(a.le(&Moment { secs: 5, nanos: 10 }));
    assert!(a.le(&Moment { secs: 5, nanos: 11 }));
    assert!(!a.le(&Moment { secs: 5, nanos: 9 }));
    assert!(a.le(&Moment { secs: 6, nanos: 0 }));
    assert!(!a.le(&Moment { secs: 4, nanos: 999_999_999 }));
}

#[test]
fn clock_reads_a_recent_time() {
    let now = utc_now();
    assert!(now.secs > 1_600_000_000);
    assert!(now.nanos < 1_000_000_000);
}
