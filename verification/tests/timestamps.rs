use sleepview::clock::split_millis;
use sleepview::display::file_line;
use sleepview::timestamp::{parse_timestamp, TimestampError};

fn parse(s: &str) -> Result<i128, TimestampError> {
    parse_timestamp(s.to_string())
}

#[test]
fn full_timestamp() {
    assert_eq!(parse("1:02:03:04.5"), Ok(86_400_000 + 2 * 3_600_000 + 3 * 60_000 + 4 * 1000 + 500));
}

#[test]
fn minutes_and_seconds() {
    assert_eq!(parse("1:30"), Ok(90_000));
    assert_eq!(parse("0:5.25"), Ok(5_250));
}

#[test]
fn decimal_is_padded_on_the_right() {
    assert_eq!(parse("0:0.5"), Ok(500));
    assert_eq!(parse("0:0.05"), Ok(50));
    assert_eq!(parse("0:0.1234"), Ok(123));
    assert_eq!(parse("0:1.1234"), Ok(1_123));
    assert_eq!(parse("0:0.9999999999999999999999999999999999999999"), Ok(999));
    assert_eq!(parse("0:0."), Ok(0));
}

#[test]
fn plus_sign_in_the_decimal_part() {
    assert_eq!(parse("1:2.+5"), Ok(62_050));
    assert_eq!(parse("1.+5"), Ok(1_050));
    assert_eq!(parse("0:0.+"), Ok(0));
    assert_eq!(parse("0:0.+1234"), Ok(123));
}

#[test]
fn a_single_field_is_seconds() {
    assert_eq!(parse("45"), Ok(45_000));
    assert_eq!(parse("90.5"), Ok(90_500));
    assert_eq!(parse(".25"), Err(TimestampError::InvalidNumber));
    assert_eq!(parse(""), Err(TimestampError::InvalidNumber));
}

#[test]
fn sections_before_the_days_are_ignored() {
    assert_eq!(parse("junk:1:0:0:0"), Ok(86_400_000));
}

#[test]
fn brackets_of_the_display_are_trimmed() {
    assert_eq!(parse("[1:0:0:0"), Ok(86_400_000));
    assert_eq!(parse("1]:0:0:0"), Ok(86_400_000));
}

#[test]
fn plus_sign_is_accepted() {
    assert_eq!(parse("+1:+2"), Ok(62_000));
}

#[test]
fn errors() {
    assert_eq!(parse("1:2.3.4"), Err(TimestampError::MultipleDecimalPoints));
    assert_eq!(parse("1:2.x"), Err(TimestampError::InvalidDecimal));
    assert_eq!(parse("1:2.-5"), Err(TimestampError::InvalidDecimal));
    assert_eq!(parse("1:2.++5"), Err(TimestampError::InvalidDecimal));
    assert_eq!(parse("1:2.12x"), Err(TimestampError::InvalidDecimal));
    assert_eq!(parse("a:2"), Err(TimestampError::InvalidNumber));
    assert_eq!(parse(":2"), Err(TimestampError::InvalidNumber));
    assert_eq!(parse("1:-2"), Err(TimestampError::InvalidNumber));
    assert_eq!(
        parse("0:340282366920938463463374607431768211456"),
        Err(TimestampError::InvalidNumber)
    );
    assert_eq!(
        parse("0:340282366920938463463374607431768211455"),
        Err(TimestampError::Overflow)
    );
}

#[test]
fn copied_display_line_reads_back() {
    assert_eq!(parse("[01:]00:01:30.000"), Ok(86_490_000));
    let v = split_millis(86_400_000 + 1000);
    assert_eq!(parse(&file_line(&v, 5, 0)), Ok(86_401_000));
    assert_eq!(parse("]]5]]"), Ok(5_000));
    assert_eq!(parse("]]5[["), Err(TimestampError::InvalidNumber));
    assert_eq!(parse("5[:0"), Err(TimestampError::InvalidNumber));
}

#[test]
fn file_line_reads_back() {
    for m in [0i128, 1, 999, 61_001, 3_599_999] {
        let v = split_millis(m);
        assert_eq!(parse(&file_line(&v, 3, 0)), Ok(m));
        assert_eq!(parse(&file_line(&v, 4, 0)), Ok(m));
        assert_eq!(parse(&file_line(&v, 3, 1)), Ok(m - v[0]));
    }
    let m: i128 = 23 * 3_600_000 + 59 * 60_000 + 59_999;
    assert_eq!(parse(&file_line(&split_millis(m), 4, 0)), Ok(m));
    for m in [0i128, 59_999, 1_234] {
        let v = split_millis(m);
        assert_eq!(parse(&file_line(&v, 2, 0)), Ok(m));
        assert_eq!(parse(&file_line(&v, 2, 1)), Ok(m - v[0]));
    }
    for m in [0i128, 86_400_000 * 150 + 7, 123_456_789_012_345] {
        let v = split_millis(m);
        assert_eq!(parse(&file_line(&v, 5, 0)), Ok(m));
        assert_eq!(parse(&file_line(&v, 5, 1)), Ok(m - v[0]));
    }
}

#[test]
fn large_total_wraps_into_i128() {
    // 2^127 milliseconds as seconds and decimal: the total passes i128::MAX.
    let secs: u128 = (1u128 << 127) / 1000 + 1;
    let r = parse(&format!("0:{}", secs)).unwrap();
    assert_eq!(r, (secs * 1000) as i128);
    assert!(r < 0);
}
