use chrono::Datelike;
use dbase::{Date, DateTime, Decimal, Time};

fn day(year: u32, month: u32, day: u32) -> Date {
    Date::new(day, month, year).unwrap()
}

#[test]
fn julian_day_numbers_of_known_days() {
    assert_eq!(day(2000, 1, 1).to_julian_day_number(), 2_451_545);
    assert_eq!(day(1970, 1, 1).to_julian_day_number(), 2_440_588);
    assert_eq!(day(1858, 11, 17).to_julian_day_number(), 2_400_001);
    assert_eq!(day(0, 1, 1).to_julian_day_number(), 1_721_060);
    assert_eq!(day(9999, 12, 31).to_julian_day_number(), 5_373_484);
    assert_eq!(day(2024, 2, 29).to_julian_day_number(), 2_460_370);
    assert_eq!(day(2024, 3, 1).to_julian_day_number(), 2_460_371);
}

#[test]
fn julian_day_numbers_name_their_days() {
    assert_eq!(Date::from_julian_day_number(2_451_545), Some(day(2000, 1, 1)));
    assert_eq!(Date::from_julian_day_number(2_460_370), Some(day(2024, 2, 29)));
    assert_eq!(Date::from_julian_day_number(1_721_060), Some(day(0, 1, 1)));
    assert_eq!(Date::from_julian_day_number(5_373_484), Some(day(9999, 12, 31)));
    assert_eq!(Date::from_julian_day_number(1_721_059), None);
    assert_eq!(Date::from_julian_day_number(5_373_485), None);
    assert_eq!(Date::from_julian_day_number(0), None);
    assert_eq!(Date::from_julian_day_number(u32::MAX), None);
}

#[test]
fn julian_day_numbers_follow_the_calendar_day_by_day() {
    let mut n = 1_721_060u32;
    let mut previous: Option<chrono::NaiveDate> = None;
    while n <= 5_373_484 {
        let date = Date::from_julian_day_number(n).unwrap();
        assert_eq!(date.to_julian_day_number(), n);
        let naive =
            chrono::NaiveDate::from_ymd_opt(date.year() as i32, date.month(), date.day()).unwrap();
        assert_eq!(naive.num_days_from_ce() as i64 + 1_721_425, n as i64);
        if let Some(p) = previous {
            assert!(p < naive);
        }
        previous = Some(naive);
        n += if n % 5 == 0 { 1 } else { 13 };
    }
}

#[test]
fn every_day_of_some_years_comes_back_from_its_number() {
    for year in [0u32, 1, 99, 100, 400, 1899, 1900, 1999, 2000, 2023, 2024, 9998, 9999] {
        let mut expected = day(year, 1, 1).to_julian_day_number();
        for month in 1..=12u32 {
            for d in 1..=31u32 {
                if let Ok(date) = Date::new(d, month, year) {
                    assert_eq!(date.to_julian_day_number(), expected);
                    assert_eq!(Date::from_julian_day_number(expected), Some(date));
                    expected += 1;
                }
            }
        }
        let days = expected - day(year, 1, 1).to_julian_day_number();
        let leap = year % 4 == 0 && (year % 100 != 0 || year % 400 == 0);
        assert_eq!(days, if leap { 366 } else { 365 });
    }
}

#[test]
fn times_of_day_are_milliseconds_since_midnight() {
    let time = Time { hours: 13, minutes: 5, seconds: 59, milliseconds: 250 };
    assert_eq!(time.since_midnight(), Some(47_159_250));
    assert_eq!(Time::from_milliseconds(47_159_250), Some(time));
    assert_eq!(
        Time::from_milliseconds(0),
        Some(Time { hours: 0, minutes: 0, seconds: 0, milliseconds: 0 })
    );
    assert_eq!(
        Time::from_milliseconds(86_399_999),
        Some(Time { hours: 23, minutes: 59, seconds: 59, milliseconds: 999 })
    );
    assert_eq!(Time::from_milliseconds(86_400_000), None);
    for bad in [
        Time { hours: 24, minutes: 0, seconds: 0, milliseconds: 0 },
        Time { hours: 0, minutes: 60, seconds: 0, milliseconds: 0 },
        Time { hours: 0, minutes: 0, seconds: 60, milliseconds: 0 },
        Time { hours: 0, minutes: 0, seconds: 0, milliseconds: 1000 },
    ] {
        assert_eq!(bad.since_midnight(), None);
    }
}

#[test]
fn date_times_are_a_day_and_a_time() {
    let date = day(2024, 2, 29);
    let time = Time { hours: 12, minutes: 0, seconds: 0, milliseconds: 1 };
    let stamp = DateTime::new(&date, &time).unwrap();
    assert_eq!(stamp, DateTime { julian_day: 2_460_370, milliseconds: 43_200_001 });
    assert_eq!(stamp.date(), Some(date));
    assert_eq!(stamp.time(), Some(time));
    let odd = DateTime { julian_day: 7, milliseconds: 90_000_000 };
    assert_eq!(odd.date(), None);
    assert_eq!(odd.time(), None);
    assert_eq!(
        DateTime::new(&date, &Time { hours: 25, minutes: 0, seconds: 0, milliseconds: 0 }),
        None
    );
}

#[test]
fn decimals_give_their_digits_as_a_number() {
    let parse = |text: &str| Decimal::parse(text.as_bytes()).unwrap();
    assert_eq!(parse("32.0000000000").unscaled(), Some(320_000_000_000));
    assert_eq!(parse("32.0000000000").scale(), 10);
    assert_eq!(parse("-1.5").unscaled(), Some(-15));
    assert_eq!(parse("007").unscaled(), Some(7));
    assert_eq!(parse(".5").unscaled(), Some(5));
    assert_eq!(parse("-0").unscaled(), Some(0));
    assert_eq!(parse("9223372036854775807").unscaled(), Some(i64::MAX));
    assert_eq!(parse("9223372036854775808").unscaled(), None);
    assert_eq!(parse("-9223372036854775808").unscaled(), Some(i64::MIN));
    assert_eq!(parse("-9223372036854775809").unscaled(), None);
    assert_eq!(parse("-92233720368547758.08").unscaled(), Some(i64::MIN));
    assert_eq!(parse("99999999999999999999").unscaled(), None);
    assert_eq!(Decimal::from_i64(-12345).unscaled(), Some(-12345));
}
