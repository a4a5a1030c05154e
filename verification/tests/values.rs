//! Tests of the value model: time codes and days.

use whereisclass::models::{Day, PeriodType, TimeCode, TimeCodeError, TimeCodeParseErrorKind};

#[test]
fn time_code_accepts_window() {
    assert_eq!(TimeCode::parse("700").unwrap().time(), 700);
    assert_eq!(TimeCode::parse("2350").unwrap().time(), 2350);
    assert_eq!(TimeCode::parse("1335").unwrap().time(), 1335);
    assert_eq!(TimeCode::parse("0700").unwrap().time(), 700);
}

#[test]
fn time_code_rejects_below_window() {
    let err = TimeCode::parse("699").unwrap_err();
    assert_eq!(err.input(), "699");
    assert_eq!(
        *err.kind(),
        TimeCodeParseErrorKind::InvalidTime(TimeCodeError::OutOfBounds)
    );
}

#[test]
fn time_code_rejects_above_window() {
    let err = TimeCode::parse("2351").unwrap_err();
    assert_eq!(
        *err.kind(),
        TimeCodeParseErrorKind::InvalidTime(TimeCodeError::OutOfBounds)
    );
}

#[test]
fn time_code_rejects_bad_minutes() {
    let err = TimeCode::parse("1360").unwrap_err();
    assert_eq!(
        *err.kind(),
        TimeCodeParseErrorKind::InvalidTime(TimeCodeError::InvalidMinutes)
    );
}

#[test]
fn time_code_rejects_non_numbers() {
    let err = TimeCode::parse("abc").unwrap_err();
    assert_eq!(err.input(), "abc");
    assert_eq!(*err.kind(), TimeCodeParseErrorKind::NotANumber);
    assert_eq!(
        *TimeCode::parse("").unwrap_err().kind(),
        TimeCodeParseErrorKind::NotANumber
    );
    assert_eq!(
        *TimeCode::parse("12 34").unwrap_err().kind(),
        TimeCodeParseErrorKind::NotANumber
    );
}

#[test]
fn time_code_from_u16_matches_parse() {
    assert_eq!(TimeCode::from_u16(1335).unwrap().time(), 1335);
    assert_eq!(TimeCode::from_u16(699).unwrap_err(), TimeCodeError::OutOfBounds);
    assert_eq!(TimeCode::from_u16(1360).unwrap_err(), TimeCodeError::InvalidMinutes);
}

#[test]
fn time_code_renders_hour_and_padded_minutes() {
    assert_eq!(TimeCode::from_u16(1335).unwrap().to_text(), "13:35");
    assert_eq!(TimeCode::from_u16(705).unwrap().to_text(), "7:05");
    assert_eq!(TimeCode::from_u16(2300).unwrap().to_text(), "23:00");
}

#[test]
fn day_parses_both_spellings() {
    assert_eq!(Day::parse("0").unwrap(), Day::Monday);
    assert_eq!(Day::parse("M").unwrap(), Day::Monday);
    assert_eq!(Day::parse("1").unwrap(), Day::Tuesday);
    assert_eq!(Day::parse("T").unwrap(), Day::Tuesday);
    assert_eq!(Day::parse("2").unwrap(), Day::Wednesday);
    assert_eq!(Day::parse("W").unwrap(), Day::Wednesday);
    assert_eq!(Day::parse("3").unwrap(), Day::Thursday);
    assert_eq!(Day::parse("R").unwrap(), Day::Thursday);
    assert_eq!(Day::parse("4").unwrap(), Day::Friday);
    assert_eq!(Day::parse("F").unwrap(), Day::Friday);
}

#[test]
fn day_rejects_everything_else() {
    assert_eq!(Day::parse("5").unwrap_err().input(), "5");
    assert_eq!(Day::parse("X").unwrap_err().input(), "X");
    assert!(Day::parse("").is_err());
    assert!(Day::parse("MW").is_err());
    assert!(Day::parse("m").is_err());
}

#[test]
fn period_type_reads_codes() {
    assert_eq!(PeriodType::parse("LEC"), PeriodType::Lecture);
    assert_eq!(PeriodType::parse("REC"), PeriodType::Recitation);
    assert_eq!(PeriodType::parse("LAB"), PeriodType::Lab);
    assert_eq!(PeriodType::parse("TST"), PeriodType::Test);
    assert_eq!(
        PeriodType::parse("STU"),
        PeriodType::Other(String::from("STU"))
    );
}
