use healthkit_to_sqlite::sql::get_valid_sqlite_identifier;
use healthkit_to_sqlite::text::{is_float_text, parse_i32, same_text};
use healthkit_to_sqlite::value::{
    classify_parsed, classify_text, coerce_parsed, coerce_text, CalendarDate, StorageType, Value,
};

#[test]
fn integers_parse_within_thirty_two_bits() {
    assert_eq!(parse_i32("5"), Some(5));
    assert_eq!(parse_i32("+7"), Some(7));
    assert_eq!(parse_i32("-12"), Some(-12));
    assert_eq!(parse_i32("2147483647"), Some(2147483647));
    assert_eq!(parse_i32("-2147483648"), Some(-2147483648));
    assert_eq!(parse_i32("2147483648"), None);
    assert_eq!(parse_i32("99999999999999999999"), None);
    assert_eq!(parse_i32("-"), None);
    assert_eq!(parse_i32(""), None);
    assert_eq!(parse_i32("1x"), None);
}

#[test]
fn float_literals_follow_the_decimal_grammar() {
    for ok in ["1.5", "1.", ".5", "1e5", "1E+5", "-2.5e-3", "inf", "-Infinity", "NaN", "+3"] {
        assert!(is_float_text(ok), "{ok}");
    }
    for bad in [".", "1e", "e5", "1.2.3", "", "five", " 1", "infinit", "1e+"] {
        assert!(!is_float_text(bad), "{bad}");
    }
}

#[test]
fn classification_order_is_integer_real_timestamp_date_text() {
    assert_eq!(classify_text("5"), StorageType::Integer);
    assert_eq!(classify_text("2147483648"), StorageType::Real);
    assert_eq!(classify_text("72.5"), StorageType::Real);
    assert_eq!(classify_text("2020-01-02 03:04:05 +0100"), StorageType::Timestamp);
    assert_eq!(classify_text("2020-01-02"), StorageType::Date);
    assert_eq!(classify_text("2020-13-02"), StorageType::Text);
    assert_eq!(classify_text("five"), StorageType::Text);
    assert_eq!(classify_text(""), StorageType::Text);
}

#[test]
fn coercion_agrees_with_classification() {
    assert!(matches!(coerce_text("-42"), Value::Integer(-42)));
    assert!(matches!(coerce_text("3.25"), Value::Real(ref t) if t == "3.25"));
    assert!(matches!(
        coerce_text("2021-06-30"),
        Value::Date(CalendarDate { year: 2021, month: 6, day: 30 })
    ));
    match coerce_text("2020-01-02 03:04:05 -0130") {
        Value::Timestamp(t) => {
            assert_eq!(t.date, CalendarDate { year: 2020, month: 1, day: 2 });
            assert_eq!((t.hour, t.minute, t.second), (3, 4, 5));
            assert_eq!((t.offset_hours, t.offset_minutes), (-1, -30));
        }
        _ => panic!("expected a timestamp"),
    }
    assert!(matches!(coerce_text("Running"), Value::Text(ref t) if t == "Running"));
    for s in ["5", "1.5", "2020-01-02", "2020-01-02 03:04:05 +0000", "x"] {
        let ty = match coerce_text(s) {
            Value::Integer(_) => StorageType::Integer,
            Value::Real(_) => StorageType::Real,
            Value::Date(_) => StorageType::Date,
            Value::Timestamp(_) => StorageType::Timestamp,
            Value::Text(_) => StorageType::Text,
            Value::Structured(_) => StorageType::Structured,
        };
        assert_eq!(ty, classify_text(s));
    }
}

#[test]
fn integer_round_trips_through_its_decimal_text() {
    for s in ["0", "-0", "+15", "007", "-2147483648", "2147483647"] {
        let v = match coerce_text(s) {
            Value::Integer(v) => v,
            _ => panic!("{s} should be an integer"),
        };
        let back = v.to_string();
        assert_eq!(classify_text(&back), StorageType::Integer);
        assert!(matches!(coerce_text(&back), Value::Integer(w) if w == v));
    }
}

#[test]
fn identifiers_are_quoted_and_escaped() {
    assert_eq!(get_valid_sqlite_identifier("name"), "`name`");
    assert_eq!(get_valid_sqlite_identifier("a`b"), "`a``b`");
    assert_eq!(get_valid_sqlite_identifier(""), "``");
    assert_eq!(
        get_valid_sqlite_identifier("HKQuantityTypeIdentifierHeartRate"),
        "`HKQuantityTypeIdentifierHeartRate`"
    );
}

#[test]
fn text_comparison_is_exact() {
    assert!(same_text("Workout", "Workout"));
    assert!(!same_text("Workout", "workout"));
    assert!(!same_text("Work", "Workout"));
}

#[test]
fn dates_and_timestamps_round_trip_through_their_text() {
    match coerce_text("2019-02-28") {
        Value::Date(d) => {
            let back = format!("{:04}-{:02}-{:02}", d.year, d.month, d.day);
            assert_eq!(back, "2019-02-28");
            assert_eq!(classify_text(&back), StorageType::Date);
        }
        _ => panic!("expected a date"),
    }
    match coerce_text("2022-11-05 23:59:01 +0530") {
        Value::Timestamp(t) => {
            let sign = if t.offset_hours < 0 || t.offset_minutes < 0 { '-' } else { '+' };
            let back = format!(
                "{:04}-{:02}-{:02} {:02}:{:02}:{:02} {}{:02}{:02}",
                t.date.year,
                t.date.month,
                t.date.day,
                t.hour,
                t.minute,
                t.second,
                sign,
                t.offset_hours.unsigned_abs(),
                t.offset_minutes.unsigned_abs()
            );
            assert_eq!(back, "2022-11-05 23:59:01 +0530");
            assert_eq!(classify_text(&back), StorageType::Timestamp);
        }
        _ => panic!("expected a timestamp"),
    }
}

#[test]
fn reals_keep_their_literal() {
    for s in ["1e5", "0.10", "-.5", "inf"] {
        assert_eq!(classify_text(s), StorageType::Real);
        match coerce_text(s) {
            Value::Real(t) => {
                assert_eq!(t, s);
                assert_eq!(classify_text(&t), StorageType::Real);
            }
            _ => panic!("{s} should be real"),
        }
    }
}

#[test]
fn classification_given_date_readings() {
    let ts = Some((2020, 1, 2, 3, 4, 5, 1, 0));
    let d = Some((2020, 1, 2));
    assert_eq!(classify_parsed("2020-01-02", None, d), StorageType::Date);
    assert_eq!(classify_parsed("2020-01-02 03:04:05 +0100", ts, None), StorageType::Timestamp);
    assert_eq!(classify_parsed("anything", ts, d), StorageType::Timestamp);
    assert_eq!(classify_parsed("anything", None, None), StorageType::Text);
    assert_eq!(classify_parsed("12", ts, d), StorageType::Integer);
    assert_eq!(classify_parsed("1.5", ts, d), StorageType::Real);
    assert!(matches!(
        coerce_parsed("2020-01-02", None, d),
        Value::Date(CalendarDate { year: 2020, month: 1, day: 2 })
    ));
    match coerce_parsed("x", ts, None) {
        Value::Timestamp(t) => {
            assert_eq!(t.date, CalendarDate { year: 2020, month: 1, day: 2 });
            assert_eq!((t.hour, t.minute, t.second, t.offset_hours, t.offset_minutes), (3, 4, 5, 1, 0));
        }
        _ => panic!("expected a timestamp"),
    }
    assert!(matches!(coerce_parsed("x", None, None), Value::Text(ref t) if t == "x"));
}
