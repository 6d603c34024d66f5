use presence::clock::{parse_time, TimeField, TimeOfDay};
use presence::config::{parse_config, AttendanceConfig, ConfigValues};
use presence::number::parse_integer;
use presence::text::{is_white, trim};

fn config(start: &str, end: &str, late: &str, absent: &str) -> AttendanceConfig {
    AttendanceConfig {
        class_start: start.to_string(),
        class_end: end.to_string(),
        late_minutes: late.to_string(),
        absent_minutes: absent.to_string(),
        total_points: "10".to_string(),
        late_penalty: "0.5".to_string(),
        absent_penalty: "1".to_string(),
    }
}

#[test]
fn parse_config_accepts_a_valid_window() {
    let values = parse_config(config(" 13:30 ", "15:00", " 10", "30 ")).unwrap();
    assert_eq!(
        values,
        ConfigValues {
            class_start: TimeOfDay { second: 13 * 3600 + 30 * 60, nano: 0 },
            late_minutes: 10,
            absent_minutes: 30,
        }
    );
}

#[test]
fn parse_config_does_not_read_the_point_fields() {
    let mut raw = config("08:00", "09:00", "5", "15");
    raw.total_points = "many".to_string();
    assert!(parse_config(raw).is_ok());
}

#[test]
fn parse_config_names_an_invalid_start_time() {
    assert_eq!(
        parse_config(config("1:30pm", "15:00", "10", "30")).unwrap_err(),
        "Invalid class start time: 1:30pm. Use HH:MM."
    );
}

#[test]
fn parse_config_names_an_invalid_end_time_as_given() {
    assert_eq!(
        parse_config(config("13:30", " 25:00 ", "10", "30")).unwrap_err(),
        "Invalid class end time:  25:00 . Use HH:MM."
    );
}

#[test]
fn parse_config_reports_the_start_before_the_end() {
    assert_eq!(
        parse_config(config("bad", "worse", "x", "y")).unwrap_err(),
        "Invalid class start time: bad. Use HH:MM."
    );
}

#[test]
fn parse_config_names_the_field_that_it_refuses() {
    assert_eq!(
        parse_config(config("25:00", "15:00", "x", "30")).unwrap_err(),
        "Invalid class start time: 25:00. Use HH:MM."
    );
    assert_eq!(
        parse_config(config("15:00", "25:00", "x", "30")).unwrap_err(),
        "Invalid class end time: 25:00. Use HH:MM."
    );
}

#[test]
fn parse_config_wants_the_end_after_the_start() {
    let message = "Class end time must be after the start time.";
    assert_eq!(parse_config(config("13:30", "13:30", "10", "30")).unwrap_err(), message);
    assert_eq!(parse_config(config("13:30", "09:00", "10", "30")).unwrap_err(), message);
    assert!(parse_config(config("13:30", "13:31", "10", "30")).is_ok());
}

#[test]
fn parse_config_wants_whole_numbers_for_the_thresholds() {
    assert_eq!(
        parse_config(config("13:30", "15:00", "ten", "30")).unwrap_err(),
        "Late minutes must be a number."
    );
    assert_eq!(
        parse_config(config("13:30", "15:00", "10", "3.5")).unwrap_err(),
        "Absent minutes must be a number."
    );
    assert_eq!(
        parse_config(config("13:30", "15:00", "", "")).unwrap_err(),
        "Late minutes must be a number."
    );
}

#[test]
fn parse_config_takes_negative_and_unordered_thresholds() {
    let values = parse_config(config("13:30", "15:00", "-5", "-10")).unwrap();
    assert_eq!(values.late_minutes, -5);
    assert_eq!(values.absent_minutes, -10);
}

#[test]
fn parse_time_reads_hours_and_minutes() {
    assert_eq!(parse_time(TimeField::ClassStart, "07:05"), Ok(TimeOfDay { second: 7 * 3600 + 5 * 60, nano: 0 }));
    assert_eq!(parse_time(TimeField::ClassStart, "7:15"), Ok(TimeOfDay { second: 7 * 3600 + 15 * 60, nano: 0 }));
    assert_eq!(parse_time(TimeField::ClassEnd, "23:59"), Ok(TimeOfDay { second: 86_340, nano: 0 }));
}

#[test]
fn parse_time_refuses_other_shapes() {
    assert_eq!(
        parse_time(TimeField::ClassStart, "24:00"),
        Err("Invalid class start time: 24:00. Use HH:MM.".to_string())
    );
    assert_eq!(
        parse_time(TimeField::ClassEnd, "12:60"),
        Err("Invalid class end time: 12:60. Use HH:MM.".to_string())
    );
    assert_eq!(
        parse_time(TimeField::ClassEnd, ""),
        Err("Invalid class end time: . Use HH:MM.".to_string())
    );
    assert!(parse_time(TimeField::ClassStart, "12:30:00").is_err());
}

#[test]
fn parse_integer_follows_the_rules_for_64_bit_integers() {
    assert_eq!(parse_integer("0"), Some(0));
    assert_eq!(parse_integer("+42"), Some(42));
    assert_eq!(parse_integer("-42"), Some(-42));
    assert_eq!(parse_integer("007"), Some(7));
    assert_eq!(parse_integer("9223372036854775807"), Some(i64::MAX));
    assert_eq!(parse_integer("-9223372036854775808"), Some(i64::MIN));
    assert_eq!(parse_integer("9223372036854775808"), None);
    assert_eq!(parse_integer("-9223372036854775809"), None);
    assert_eq!(parse_integer("99999999999999999999999"), None);
    assert_eq!(parse_integer(""), None);
    assert_eq!(parse_integer("+"), None);
    assert_eq!(parse_integer("-"), None);
    assert_eq!(parse_integer("1 2"), None);
    assert_eq!(parse_integer(" 1"), None);
    assert_eq!(parse_integer("1e3"), None);
    assert_eq!(parse_integer("--1"), None);
    assert_eq!(parse_integer("١٢"), None);
}

#[test]
fn parse_integer_agrees_with_the_standard_parser() {
    for text in ["12", "-0", "+0", "0x10", "1_000", "18446744073709551616", "-1-", "3.0", "٣"] {
        assert_eq!(parse_integer(text), text.parse::<i64>().ok(), "{}", text);
    }
}

#[test]
fn trim_cuts_white_space_at_both_ends_only() {
    assert_eq!(trim("  a b \t\r\n"), "a b");
    assert_eq!(trim("\u{a0}x\u{3000}"), "x");
    assert_eq!(trim(" \t "), "");
    assert_eq!(trim(""), "");
    assert_eq!(trim("plain"), "plain");
}

#[test]
fn white_space_is_what_the_standard_library_takes_for_it() {
    for code in 0..=0x10FFFFu32 {
        if let Some(c) = char::from_u32(code) {
            assert_eq!(is_white(c), c.is_whitespace(), "U+{:04X}", code);
        }
    }
}
