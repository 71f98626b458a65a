use remote_lab::calendar::{civil_from_unix, iso_now, MAX_CIVIL_SECS, MAX_CLOCK_SECS, MIN_CIVIL_SECS};

#[test]
fn epoch_is_the_start_of_1970() {
    assert_eq!(civil_from_unix(0), (1970, 1, 1, 0, 0, 0));
}

#[test]
fn second_before_the_epoch_is_in_1969() {
    assert_eq!(civil_from_unix(-1), (1969, 12, 31, 23, 59, 59));
}

#[test]
fn leap_day_of_2000() {
    assert_eq!(civil_from_unix(951_782_400), (2000, 2, 29, 0, 0, 0));
    assert_eq!(civil_from_unix(951_868_800), (2000, 3, 1, 0, 0, 0));
}

#[test]
fn century_without_leap_day() {
    assert_eq!(civil_from_unix(4_107_542_399), (2100, 2, 28, 23, 59, 59));
    assert_eq!(civil_from_unix(4_107_542_400), (2100, 3, 1, 0, 0, 0));
}

#[test]
fn ordinary_second() {
    assert_eq!(civil_from_unix(1_700_000_000), (2023, 11, 14, 22, 13, 20));
}

#[test]
fn first_and_last_supported_second() {
    assert_eq!(civil_from_unix(MIN_CIVIL_SECS), (i32::MIN, 1, 1, 0, 0, 0));
    assert_eq!(civil_from_unix(MAX_CIVIL_SECS), (i32::MAX, 12, 31, 23, 59, 59));
}

#[test]
fn days_follow_each_other_from_1600_to_2400() {
    let leap = |y: i32| y % 4 == 0 && (y % 100 != 0 || y % 400 == 0);
    let (mut y, mut m, mut d) = (1600, 1u32, 1u32);
    let mut secs: i64 = -11_676_096_000;
    while y < 2401 {
        assert_eq!(civil_from_unix(secs), (y, m, d, 0, 0, 0));
        assert_eq!(civil_from_unix(secs + 86_399), (y, m, d, 23, 59, 59));
        let len = match m {
            2 => if leap(y) { 29 } else { 28 },
            4 | 6 | 9 | 11 => 30,
            _ => 31,
        };
        d += 1;
        if d > len {
            d = 1;
            m += 1;
        }
        if m > 12 {
            m = 1;
            y += 1;
        }
        secs += 86_400;
    }
}

#[test]
fn stamp_of_a_second() {
    assert_eq!(iso_now(Some(951_782_401)), "2000-02-29T00:00:01Z");
    assert_eq!(iso_now(Some(1_700_000_000)), "2023-11-14T22:13:20Z");
}

#[test]
fn clock_before_1970_counts_as_its_start() {
    assert_eq!(iso_now(None), "1970-01-01T00:00:00Z");
    assert_eq!(iso_now(None), iso_now(Some(0)));
}

#[test]
fn stamp_of_a_year_with_more_than_four_digits() {
    assert_eq!(iso_now(Some(253_402_300_800)), "10000-01-01T00:00:00Z");
    assert_eq!(iso_now(Some(MAX_CLOCK_SECS)), "2147483647-12-31T23:59:59Z");
}

#[test]
fn dates_are_ordered_as_their_seconds() {
    let mut earlier = civil_from_unix(-4_000_000_000);
    let mut secs = -4_000_000_000 + 1;
    while secs < 4_000_000_000 {
        let later = civil_from_unix(secs);
        assert!(earlier < later);
        earlier = later;
        secs += 86_399 * 3;
    }
}
