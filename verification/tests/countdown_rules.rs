use sleepview::clock::split_millis;
use sleepview::countdown::{
    add_duration, check_resolution, factor, format_width, is_file_output, parse_resolution,
    sleep_or_shrink, settle_sleep, suffix_factor_index, uses_timestamp, Countdown, ResolutionFit,
    SleepStep,
};

#[test]
fn widths() {
    assert_eq!(format_width(1, false), 2);
    assert_eq!(format_width(59_999, false), 2);
    assert_eq!(format_width(60_000, false), 3);
    assert_eq!(format_width(3_599_999, false), 3);
    assert_eq!(format_width(3_600_000, false), 4);
    assert_eq!(format_width(86_399_999, false), 4);
    assert_eq!(format_width(86_400_000, false), 5);
    assert_eq!(format_width(1, true), 5);
}

#[test]
fn hidden_fields_are_zero_below_target() {
    for target in [59_999i128, 60_000, 60_001, 3_599_999, 3_600_000, 86_399_999, 86_400_000] {
        let w = format_width(target, false);
        for m in [0, target / 3, target / 2, target - 1, target] {
            let f = split_millis(m);
            for i in w..5 {
                assert_eq!(f[i], 0);
            }
        }
    }
    // At a unit boundary the unit is shown.
    let f = split_millis(60_000);
    assert_eq!(format_width(60_000, false), 3);
    assert_eq!(f[2], 1);
}

#[test]
fn resolutions() {
    assert_eq!(parse_resolution('m'), Some(0));
    assert_eq!(parse_resolution('0'), Some(0));
    assert_eq!(parse_resolution('s'), Some(1));
    assert_eq!(parse_resolution('S'), Some(1));
    assert_eq!(parse_resolution('M'), Some(2));
    assert_eq!(parse_resolution('h'), Some(3));
    assert_eq!(parse_resolution('D'), Some(4));
    assert_eq!(parse_resolution('4'), Some(4));
    assert_eq!(parse_resolution('x'), None);
    assert_eq!(parse_resolution('5'), None);
}

#[test]
fn resolution_fit() {
    assert_eq!(check_resolution(0, 2), ResolutionFit::Fits);
    assert_eq!(check_resolution(2, 2), ResolutionFit::Useless);
    assert_eq!(check_resolution(3, 2), ResolutionFit::TooCoarse);
}

#[test]
fn suffixes_and_factors() {
    assert_eq!(suffix_factor_index('s'), Some(0));
    assert_eq!(suffix_factor_index('M'), Some(1));
    assert_eq!(suffix_factor_index('h'), Some(2));
    assert_eq!(suffix_factor_index('d'), Some(3));
    assert_eq!(suffix_factor_index('x'), None);
    assert_eq!(factor(0), 1);
    assert_eq!(factor(1), 60);
    assert_eq!(factor(2), 3600);
    assert_eq!(factor(3), 86_400);
}

#[test]
fn durations_add_up() {
    assert_eq!(add_duration(0, 1500, 1), Some(90_000));
    assert_eq!(add_duration(90_000, 30_000, 0), Some(120_000));
    assert_eq!(add_duration(0, i128::MAX, 1), None);
    assert_eq!(add_duration(i128::MAX, 1, 0), None);
    assert_eq!(add_duration(i128::MIN, i128::MAX / 2, 3), None);
}

#[test]
fn countdown_frames() {
    let mut c = Countdown::new(10_000, false, 3);
    assert_eq!(c.last, 9_997);
    let f = c.frame(2_500);
    assert_eq!(f.difference, 7_500);
    assert_eq!(f.previous, 9_997);
    assert!(!f.over);
    assert!(f.first_draw);
    assert!(!c.advance(f.difference));
    let f = c.frame(12_000);
    assert_eq!(f.difference, 0);
    assert!(f.over);
    assert!(!f.first_draw);
    // The value going up (a clock moved back) rings the bell.
    assert!(c.advance(8_000));
}

#[test]
fn counting_up() {
    let mut c = Countdown::new(5_000, true, 100);
    assert_eq!(c.last, 5_000);
    let f = c.frame(1_000);
    assert_eq!(f.difference, 1_000);
    assert!(!f.over);
    assert!(!c.advance(f.difference));
    let f = c.frame(2_000);
    assert!(c.advance(f.difference));
    let f = c.frame(7_000);
    assert_eq!(f.difference, 5_000);
    assert!(f.over);
}

#[test]
fn sleeping() {
    assert_eq!(settle_sleep(1, 600), Some(8000));
    assert_eq!(settle_sleep(1, 5_000), Some(8000));
    assert_eq!(settle_sleep(1, 500), None);
    assert_eq!(sleep_or_shrink(5_000, 10, 0), SleepStep::Sleep(5_000));
    assert_eq!(sleep_or_shrink(13_000, 10, 0), SleepStep::Shrink(12_000));
    assert_eq!(sleep_or_shrink(10_000, 10, 0), SleepStep::Shrink(9_230));
    assert_eq!(sleep_or_shrink(0, 0, 100), SleepStep::Shrink(0));
}

#[test]
fn output_and_timestamp_switches() {
    assert!(!is_file_output(""));
    assert!(!is_file_output("-"));
    assert!(is_file_output("--"));
    assert!(is_file_output("x"));
    assert!(is_file_output("/tmp/countdown.txt"));
    assert!(!uses_timestamp(""));
    assert!(uses_timestamp("1:00"));
}
