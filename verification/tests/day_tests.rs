use archiver::calendar::{leap_year, month_length, valid_date};
use archiver::day::{Day, DayError};
use archiver::pattern::check_day_regex;

fn day(year: u16, month: u8, day: u8) -> Day {
    Day::new(year, month, day).unwrap()
}

#[test]
fn parses_a_canonical_text() {
    let parsed = Day::from_string("2024-06-01").unwrap();
    assert_eq!(parsed.year(), 2024);
    assert_eq!(parsed.month(), 6);
    assert_eq!(parsed.day(), 1);
    assert_eq!(parsed, day(2024, 6, 1));
}

#[test]
fn parses_the_first_and_the_last_day_of_the_calendar() {
    assert_eq!(Day::from_string("0001-01-01"), Ok(day(1, 1, 1)));
    assert_eq!(Day::from_string("9999-12-31"), Ok(day(9999, 12, 31)));
}

#[test]
fn rejects_dates_that_do_not_exist() {
    assert_eq!(Day::from_string("2023-02-30"), Err(DayError::InvalidCalendarDate));
    assert_eq!(Day::from_string("2023-13-01"), Err(DayError::InvalidCalendarDate));
    assert_eq!(Day::from_string("2023-00-10"), Err(DayError::InvalidCalendarDate));
    assert_eq!(Day::from_string("2023-06-00"), Err(DayError::InvalidCalendarDate));
    assert_eq!(Day::from_string("2023-04-31"), Err(DayError::InvalidCalendarDate));
    assert_eq!(Day::from_string("0000-01-01"), Err(DayError::InvalidCalendarDate));
}

#[test]
fn rejects_texts_of_another_shape() {
    assert_eq!(Day::from_string("2023/06/01"), Err(DayError::InvalidFormat));
    assert_eq!(Day::from_string("23-06-01"), Err(DayError::InvalidFormat));
    assert_eq!(Day::from_string(""), Err(DayError::InvalidFormat));
    assert_eq!(Day::from_string("2023-06-01 "), Err(DayError::InvalidFormat));
    assert_eq!(Day::from_string(" 2023-06-01"), Err(DayError::InvalidFormat));
    assert_eq!(Day::from_string("2023-06-01\n"), Err(DayError::InvalidFormat));
    assert_eq!(Day::from_string("2023-6-1"), Err(DayError::InvalidFormat));
    assert_eq!(Day::from_string("2023-06-011"), Err(DayError::InvalidFormat));
    assert_eq!(Day::from_string("abcd-ef-gh"), Err(DayError::InvalidFormat));
    assert_eq!(Day::from_string("+123-06-01"), Err(DayError::InvalidFormat));
    assert_eq!(Day::from_string("2023_06_01"), Err(DayError::InvalidFormat));
}

#[test]
fn rejects_digits_that_are_no_numbers() {
    // Digits of other scripts have the shape of a day, and write no number.
    assert_eq!(
        Day::from_string("\u{0662}\u{0660}\u{0662}\u{0664}-\u{0660}\u{0666}-\u{0660}\u{0661}"),
        Err(DayError::InvalidField)
    );
    assert_eq!(Day::from_string("2024-06-0\u{0663}"), Err(DayError::InvalidField));
    assert_eq!(Day::from_string("2024-\u{ff10}6-01"), Err(DayError::InvalidField));
    assert_eq!(Day::from_string("\u{ff12}024-06-01"), Err(DayError::InvalidField));
}

#[test]
fn the_pattern_is_the_shape_and_not_the_date() {
    assert!(check_day_regex("2024-06-01"));
    assert!(check_day_regex("0000-00-00"));
    assert!(check_day_regex("9999-99-99"));
    assert!(check_day_regex("2024-06-0\u{0663}"));
    assert!(!check_day_regex("2024-06-1"));
    assert!(!check_day_regex("2024:06:01"));
    assert!(!check_day_regex("x2024-06-01"));
    assert!(!check_day_regex("2024-06-01x"));
    assert!(!check_day_regex(""));
    assert!(!check_day_regex("2024-06-0\u{00e9}"));
}

#[test]
fn new_takes_dates_of_the_calendar_only() {
    assert!(Day::new(2024, 2, 29).is_ok());
    assert_eq!(Day::new(2023, 2, 29), Err(DayError::InvalidCalendarDate));
    assert_eq!(Day::new(2023, 2, 30), Err(DayError::InvalidCalendarDate));
    assert_eq!(Day::new(2023, 13, 1), Err(DayError::InvalidCalendarDate));
    assert_eq!(Day::new(2023, 0, 1), Err(DayError::InvalidCalendarDate));
    assert_eq!(Day::new(2023, 1, 0), Err(DayError::InvalidCalendarDate));
    assert_eq!(Day::new(2023, 1, 32), Err(DayError::InvalidCalendarDate));
    assert_eq!(Day::new(0, 1, 1), Err(DayError::InvalidCalendarDate));
    assert_eq!(Day::new(10000, 1, 1), Err(DayError::InvalidCalendarDate));
    assert!(Day::new(9999, 12, 31).is_ok());
    assert!(Day::new(1, 1, 1).is_ok());
}

#[test]
fn leap_years_follow_the_gregorian_rule() {
    assert!(leap_year(2024));
    assert!(leap_year(2000));
    assert!(!leap_year(1900));
    assert!(!leap_year(2023));
    assert!(leap_year(400));
    assert!(!leap_year(100));
}

#[test]
fn months_have_their_lengths() {
    let lengths = [31u8, 28, 31, 30, 31, 30, 31, 31, 30, 31, 30, 31];
    for month in 1u8..=12 {
        assert_eq!(month_length(2023, month), lengths[(month - 1) as usize]);
    }
    assert_eq!(month_length(2024, 2), 29);
    assert_eq!(month_length(1900, 2), 28);
    assert_eq!(month_length(2000, 2), 29);
}

#[test]
fn valid_date_agrees_with_new() {
    assert!(valid_date(2024, 2, 29));
    assert!(!valid_date(2023, 2, 29));
    assert!(!valid_date(2024, 6, 31));
    assert!(valid_date(2024, 7, 31));
}

#[test]
fn canonical_text_is_zero_padded() {
    assert_eq!(day(2024, 6, 1).format_canonical(), "2024-06-01");
    assert_eq!(day(7, 1, 9).format_canonical(), "0007-01-09");
    assert_eq!(day(9999, 12, 31).format_canonical(), "9999-12-31");
    assert_eq!(day(812, 10, 20).format_canonical(), "0812-10-20");
}

#[test]
fn parse_undoes_format() {
    let days = [
        day(1, 1, 1),
        day(2024, 2, 29),
        day(2000, 2, 29),
        day(1999, 12, 31),
        day(2024, 6, 15),
        day(9999, 12, 31),
        day(101, 10, 10),
    ];
    for d in days {
        assert_eq!(Day::from_string(&d.format_canonical()), Ok(d));
    }
}

#[test]
fn parse_undoes_format_for_every_day_of_four_years() {
    for year in 2021u16..=2024 {
        for month in 1u8..=12 {
            for dom in 1u8..=month_length(year, month) {
                let d = day(year, month, dom);
                assert_eq!(Day::from_string(&d.format_canonical()), Ok(d));
            }
        }
    }
}

#[test]
fn display_text_names_the_month() {
    assert_eq!(day(2024, 6, 1).format_display(), "01. Juni 2024");
    assert_eq!(day(2024, 12, 24).format_display(), "24. Dezember 2024");
    assert_eq!(day(33, 1, 5).format_display(), "05. Januar 0033");
}

#[test]
fn month_names_are_the_twelve_of_the_table() {
    let names = [
        "Januar",
        "Februar",
        "Ma\u{cc}\u{2c6}rz",
        "April",
        "Mai",
        "Juni",
        "Juli",
        "August",
        "September",
        "Oktober",
        "November",
        "Dezember",
    ];
    for month in 1u8..=12 {
        assert_eq!(day(2024, month, 1).month_name(), names[(month - 1) as usize]);
    }
}

#[test]
fn days_are_ordered_by_the_calendar() {
    let a = day(2024, 6, 1);
    let b = day(2024, 6, 15);
    let c = day(2024, 7, 3);
    let d = day(2025, 1, 1);
    assert!(a < b && b < c && c < d);
    assert!(d > a);
    assert!(a <= a && a >= a);
    assert!(!(a < a));
    assert_eq!(a.partial_cmp(&b), Some(std::cmp::Ordering::Less));
    assert_eq!(b.partial_cmp(&a), Some(std::cmp::Ordering::Greater));
    assert_eq!(a.partial_cmp(&a), Some(std::cmp::Ordering::Equal));
    assert_eq!(a.cmp(&b), std::cmp::Ordering::Less);
    assert_eq!(day(2023, 12, 31).cmp(&day(2024, 1, 1)), std::cmp::Ordering::Less);
    assert_eq!(day(2024, 1, 31).cmp(&day(2024, 2, 1)), std::cmp::Ordering::Less);
}

#[test]
fn sorting_days_is_sorting_by_date() {
    let mut days = vec![day(2024, 7, 3), day(2024, 6, 15), day(2023, 12, 31), day(2024, 6, 1)];
    days.sort();
    assert_eq!(days, vec![day(2023, 12, 31), day(2024, 6, 1), day(2024, 6, 15), day(2024, 7, 3)]);
}

#[test]
fn equal_days_are_equal() {
    assert_eq!(day(2024, 6, 1), Day::from_string("2024-06-01").unwrap());
    assert_ne!(day(2024, 6, 1), day(2024, 6, 2));
    assert_ne!(day(2024, 6, 1), day(2024, 7, 1));
    assert_ne!(day(2024, 6, 1), day(2023, 6, 1));
}
