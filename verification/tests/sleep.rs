use raw_linux::sleep::{parse_duration, plan, Duration, DurationError, SleepPlan};
use raw_linux::startup::{Args, Image};

fn d(seconds: u64, nanos: u32) -> Result<Duration, DurationError> {
    Ok(Duration { seconds, nanos })
}

#[test]
fn whole_seconds() {
    assert_eq!(parse_duration(b"1"), d(1, 0));
    assert_eq!(parse_duration(b"42"), d(42, 0));
}

#[test]
fn fraction_is_scaled_to_nanoseconds() {
    assert_eq!(parse_duration(b"1.5"), d(1, 500_000_000));
    assert_eq!(parse_duration(b"0.05"), d(0, 50_000_000));
    assert_eq!(parse_duration(b"2.000000001"), d(2, 1));
}

#[test]
fn empty_parts_count_as_zero() {
    assert_eq!(parse_duration(b""), d(0, 0));
    assert_eq!(parse_duration(b".25"), d(0, 250_000_000));
    assert_eq!(parse_duration(b"3."), d(3, 0));
}

#[test]
fn bytes_after_nine_fraction_digits_are_ignored() {
    assert_eq!(parse_duration(b"0.1234567891x"), d(0, 123_456_789));
}

#[test]
fn non_digits_are_refused() {
    assert_eq!(parse_duration(b"abc"), Err(DurationError::Invalid));
    assert_eq!(parse_duration(b"1.5x"), Err(DurationError::Invalid));
    assert_eq!(parse_duration(b"1s"), Err(DurationError::Invalid));
    assert_eq!(parse_duration(b"1..5"), Err(DurationError::Invalid));
}

#[test]
fn seconds_that_overflow_are_reported() {
    assert_eq!(parse_duration(b"18446744073709551615"), d(u64::MAX, 0));
    assert_eq!(parse_duration(b"18446744073709551616"), Err(DurationError::Overflow));
    assert_eq!(parse_duration(b"99999999999999999999x"), Err(DurationError::Overflow));
}

#[test]
fn nanoseconds_stay_below_a_second() {
    assert_eq!(parse_duration(b"0.999999999"), d(0, 999_999_999));
}

fn args_for(strs: &[&str]) -> Args {
    let mut mem = Vec::new();
    let mut words = vec![strs.len()];
    for s in strs {
        words.push(0x1000 + mem.len());
        mem.extend_from_slice(s.as_bytes());
        mem.push(0);
    }
    words.extend_from_slice(&[0, 0, 0, 0]);
    Args(Image { sp: 0, words, base: 0x1000, strings: mem })
}

#[test]
fn plan_sleeps_for_the_operand() {
    assert_eq!(plan(&args_for(&["sleep", "2.5"])), SleepPlan::Sleep(Duration { seconds: 2, nanos: 500_000_000 }));
}

#[test]
fn plan_wants_exactly_one_operand() {
    assert_eq!(plan(&args_for(&["sleep"])), SleepPlan::Exit(1));
    assert_eq!(plan(&args_for(&["sleep", "1", "2"])), SleepPlan::Exit(1));
}

#[test]
fn plan_exit_statuses_for_bad_operands() {
    assert_eq!(plan(&args_for(&["sleep", "x"])), SleepPlan::Exit(1));
    assert_eq!(plan(&args_for(&["sleep", "99999999999999999999"])), SleepPlan::Exit(255));
}
