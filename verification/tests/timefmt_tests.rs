use clip_history::timefmt::civil_from_secs;
use clip_history::timefmt::do_time_display;
use clip_history::timefmt::is_leap;
use clip_history::timefmt::time_display;
use clip_history::timefmt::time_format;

#[test]
fn leap_year_rule() {
    assert!(is_leap(2000));
    assert!(!is_leap(1900));
    assert!(!is_leap(2100));
    assert!(is_leap(2024));
    assert!(!is_leap(2023));
    assert!(is_leap(1972));
}

#[test]
fn epoch_displays_at_utc_plus_8() {
    assert_eq!(time_display(0), "1970-01-01 08:00:00");
}

#[test]
fn known_timestamps_display() {
    // 2001-09-09 01:46:40 UTC, shown at +08:00.
    assert_eq!(time_display(1_000_000_000), "2001-09-09 09:46:40");
    // 2000-02-29 00:00:00 UTC reached by subtracting the offset first.
    assert_eq!(time_display(951_782_400 - 28_800), "2000-02-29 00:00:00");
    // 2023-12-31 23:59:59 UTC crosses into the new year at +08:00.
    assert_eq!(time_display(1_704_067_199), "2024-01-01 07:59:59");
}

#[test]
fn century_year_is_not_leap() {
    assert_eq!(time_display(4_107_542_399 - 28_800), "2100-02-28 23:59:59");
    assert_eq!(time_display(4_107_542_400 - 28_800), "2100-03-01 00:00:00");
}

#[test]
fn custom_start_year_and_offset() {
    assert_eq!(do_time_display(0, 2000, 0), "2000-01-01 00:00:00");
    assert_eq!(do_time_display(86_399, 2000, 0), "2000-01-01 23:59:59");
    assert_eq!(do_time_display(86_400 * 31, 2000, 0), "2000-02-01 00:00:00");
    assert_eq!(do_time_display(86_400 * 60, 2000, 0), "2000-03-01 00:00:00");
    assert_eq!(do_time_display(0, 1970, 28_800), "1970-01-01 08:00:00");
    assert_eq!(do_time_display(59, 1970, 1), "1970-01-01 00:01:00");
}

#[test]
fn wide_years_keep_all_digits() {
    assert_eq!(do_time_display(0, 9999, 0), "9999-01-01 00:00:00");
    assert_eq!(do_time_display(0, 10000, 0), "10000-01-01 00:00:00");
    assert_eq!(do_time_display(0, 1, 0), "0001-01-01 00:00:00");
}

#[test]
fn civil_split_of_epoch() {
    assert_eq!(civil_from_secs(0, 1970), (1970, 1, 1, 0, 0, 0));
    assert_eq!(civil_from_secs(86_400 + 3_661, 1970), (1970, 1, 2, 1, 1, 1));
}

#[test]
fn current_time_has_display_shape() {
    let s = time_format();
    let b = s.as_bytes();
    assert!(b.len() >= 19);
    assert_eq!(b[4], b'-');
    assert_eq!(b[7], b'-');
    assert_eq!(b[10], b' ');
    assert_eq!(b[13], b':');
    assert_eq!(b[16], b':');
}
