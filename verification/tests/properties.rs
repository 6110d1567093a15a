use practicaltimestamp::util;
use practicaltimestamp::util::Weekday;
use practicaltimestamp::{Timestamp, TimestampResult, UnixTimestamp};

const LAST_SECOND: i64 = 253_402_300_800;
const LAST_DAY: i64 = LAST_SECOND / 86_400;

fn unix(seconds: i64) -> UnixTimestamp {
    UnixTimestamp::checked_from_unix_timestamp(seconds).unwrap()
}

fn plain(seconds: i64) -> Timestamp {
    Timestamp::checked_from_unix_timestamp(seconds).unwrap()
}

#[test]
fn every_day_round_trips_through_its_date() {
    for day in 0..=LAST_DAY {
        let seconds = day * 86_400;
        let (y, m, d) = unix(seconds).to_year_month_day();
        assert!(util::is_valid_year_month_day(y, m, d));
        assert_eq!(UnixTimestamp::checked_from_year_month_day(y, m, d), Some(unix(seconds)));
        assert_eq!(plain(seconds).as_year_month_day(), (y, m, d));
        assert_eq!(Timestamp::checked_from_year_month_day(y, m, d), Some(plain(seconds)));
    }
}

#[test]
fn every_day_round_trips_through_its_ordinal_date() {
    for day in 0..=LAST_DAY {
        let seconds = day * 86_400;
        let (y, o) = unix(seconds).to_year_ordinal();
        assert!(util::is_valid_year_ordinal(y, o));
        assert_eq!(UnixTimestamp::checked_from_year_ordinal(y, o), Some(unix(seconds)));
        assert_eq!(plain(seconds).as_year_ordinal(), (y, o));
        assert_eq!(Timestamp::checked_from_year_ordinal(y, o), Some(plain(seconds)));
    }
}

#[test]
fn every_day_round_trips_through_its_day_number() {
    for day in 0..=LAST_DAY {
        let seconds = day * 86_400;
        let jdn = unix(seconds).julian_day_number();
        assert_eq!(jdn as i64, day + 2_440_588);
        assert_eq!(UnixTimestamp::checked_from_julian_day_number(jdn), Some(unix(seconds)));
        assert_eq!(plain(seconds).julian_day_number(), jdn);
        assert_eq!(Timestamp::checked_from_julian_day_number(jdn), Some(plain(seconds)));
    }
}

#[test]
fn a_round_trip_within_a_day_gives_its_midnight() {
    let noon = unix(1_602_115_200 + 43_200);
    let (y, m, d) = noon.to_year_month_day();
    assert_eq!((y, m, d), (2020, 10, 8));
    assert_eq!(UnixTimestamp::from_year_month_day(y, m, d).unwrap(), noon.midnight());
    assert_eq!(noon.midnight().unix_timestamp(), 1_602_115_200);
    let (y, o) = noon.to_year_ordinal();
    assert_eq!(UnixTimestamp::from_year_ordinal(y, o).unwrap(), noon.midnight());
    assert_eq!(
        UnixTimestamp::from_julian_day_number(noon.julian_day_number()).unwrap(),
        noon.midnight()
    );
    assert_eq!(noon.seconds_since_midnight(), 43_200);
    assert_eq!(unix(86_399).seconds_since_midnight(), 86_399);
    assert_eq!(unix(86_399).midnight(), UnixTimestamp::min_value());
    assert_eq!(plain(86_400).seconds_since_midnight(), 0);
    assert_eq!(plain(86_400).midnight(), plain(86_400));
}

#[test]
fn boundaries_of_the_supported_range() {
    assert_eq!(UnixTimestamp::checked_from_unix_timestamp(-1), None);
    assert_eq!(UnixTimestamp::from_unix_timestamp(-1).unwrap().unix_timestamp(), 0);
    assert_eq!(UnixTimestamp::checked_from_unix_timestamp(LAST_SECOND + 1), None);
    assert_eq!(
        UnixTimestamp::from_unix_timestamp(LAST_SECOND + 1).unwrap().unix_timestamp(),
        LAST_SECOND
    );
    assert_eq!(UnixTimestamp::from_unix_timestamp(0).unwrap(), UnixTimestamp::min_value());
    assert_eq!(
        UnixTimestamp::from_unix_timestamp(LAST_SECOND).unwrap(),
        UnixTimestamp::max_value()
    );
    assert_eq!(UnixTimestamp::min_value().unix_timestamp(), 0);
    assert_eq!(UnixTimestamp::max_value().unix_timestamp(), LAST_SECOND);
    assert_eq!(Timestamp::min_value().unix_timestamp(), 0);
    assert_eq!(Timestamp::max_value().unix_timestamp(), LAST_SECOND);
    assert_eq!(UnixTimestamp::checked_from_unix_timestamp(i64::MIN), None);
    assert_eq!(UnixTimestamp::checked_from_unix_timestamp(i64::MAX), None);
    assert_eq!(Timestamp::from_unix_timestamp(i64::MIN).unwrap(), Timestamp::min_value());
    assert_eq!(Timestamp::from_unix_timestamp(i64::MAX).unwrap(), Timestamp::max_value());
}

#[test]
fn an_overflow_carries_the_second_that_was_asked_for() {
    assert!(matches!(
        UnixTimestamp::from_unix_timestamp(-1),
        TimestampResult::OverflowErr(-1)
    ));
    assert!(matches!(
        UnixTimestamp::from_unix_timestamp(LAST_SECOND + 1),
        TimestampResult::OverflowErr(253_402_300_801)
    ));
    assert!(matches!(
        UnixTimestamp::from_julian_day_number(2_440_587),
        TimestampResult::OverflowErr(-86_400)
    ));
    assert!(matches!(
        UnixTimestamp::from_year_month_day(1969, 12, 31),
        TimestampResult::OverflowErr(-86_400)
    ));
    assert!(matches!(
        UnixTimestamp::from_year_ordinal(10000, 2),
        TimestampResult::OverflowErr(253_402_387_200)
    ));
    assert!(matches!(
        Timestamp::from_year_ordinal(1969, 365),
        TimestampResult::OverflowErr(-86_400)
    ));
    assert!(matches!(
        Timestamp::from_year_month_day(10000, 1, 2),
        TimestampResult::OverflowErr(253_402_387_200)
    ));
    assert!(matches!(
        Timestamp::from_julian_day_number(5_373_486),
        TimestampResult::OverflowErr(253_402_387_200)
    ));
}

#[test]
fn the_first_days_of_year_zero_are_counted_back_from_its_march() {
    // 0000-01-01 is day 1 721 060.
    let seconds = (1_721_060_i64 - 2_440_588) * 86_400;
    match UnixTimestamp::from_year_month_day(0, 1, 1) {
        TimestampResult::OverflowErr(raw) => assert_eq!(raw, seconds),
        TimestampResult::TimestampOk(_) => panic!("year 0 is not supported"),
    }
    match Timestamp::from_year_month_day(0, 1, 1) {
        TimestampResult::OverflowErr(raw) => assert_eq!(raw, seconds),
        TimestampResult::TimestampOk(_) => panic!("year 0 is not supported"),
    }
    match UnixTimestamp::from_year_ordinal(0, 1) {
        TimestampResult::OverflowErr(raw) => assert_eq!(raw, seconds),
        TimestampResult::TimestampOk(_) => panic!("year 0 is not supported"),
    }
    match Timestamp::from_year_ordinal(0, 1) {
        TimestampResult::OverflowErr(raw) => assert_eq!(raw, seconds),
        TimestampResult::TimestampOk(_) => panic!("year 0 is not supported"),
    }
}

#[test]
fn result_accessors() {
    assert_eq!(UnixTimestamp::from_unix_timestamp(7).ok(), Some(unix(7)));
    assert_eq!(UnixTimestamp::from_unix_timestamp(-7).ok(), None);
    assert_eq!(UnixTimestamp::from_unix_timestamp(7).expect("in range"), unix(7));
    assert_eq!(Timestamp::from_unix_timestamp(7).ok(), Some(plain(7)));
    assert_eq!(Timestamp::from_unix_timestamp(-7).ok(), None);
    assert_eq!(Timestamp::from_unix_timestamp(7).expect("in range"), plain(7));
    assert_eq!(Timestamp::from_unix_timestamp(7).unwrap(), plain(7));
}

#[test]
fn later_timestamps_have_later_dates() {
    let mut previous_date = (0u16, 0u8, 0u8);
    let mut previous_ordinal = (0u16, 0u16);
    let mut previous_day_number = 0i32;
    let mut seconds = 0i64;
    while seconds <= LAST_SECOND {
        let timestamp = unix(seconds);
        let date = timestamp.to_year_month_day();
        let ordinal = timestamp.to_year_ordinal();
        let day_number = timestamp.julian_day_number();
        assert!(previous_date <= date);
        assert!(previous_ordinal <= ordinal);
        assert!(previous_day_number <= day_number);
        assert_eq!(previous_day_number < day_number, previous_date < date);
        assert_eq!(previous_day_number < day_number, previous_ordinal < ordinal);
        previous_date = date;
        previous_ordinal = ordinal;
        previous_day_number = day_number;
        seconds += 30_011;
    }
}

#[test]
fn leap_years() {
    assert_eq!(
        UnixTimestamp::from_year_ordinal(2020, 366).unwrap().to_year_month_day(),
        (2020, 12, 31)
    );
    assert!(UnixTimestamp::checked_from_year_ordinal(2020, 366).is_some());
    assert_eq!(UnixTimestamp::checked_from_year_ordinal(2019, 366), None);
    assert_eq!(
        Timestamp::from_year_ordinal(2020, 366).unwrap().as_year_month_day(),
        (2020, 12, 31)
    );
    assert!(Timestamp::checked_from_year_ordinal(2020, 366).is_some());
    assert_eq!(Timestamp::checked_from_year_ordinal(2019, 366), None);
    assert_eq!(
        UnixTimestamp::from_year_ordinal(2020, 60).unwrap().to_year_month_day(),
        (2020, 2, 29)
    );
    assert_eq!(
        UnixTimestamp::from_year_ordinal(2019, 60).unwrap().to_year_month_day(),
        (2019, 3, 1)
    );
    assert_eq!(
        Timestamp::from_year_ordinal(2020, 60).unwrap().as_year_month_day(),
        (2020, 2, 29)
    );
    assert_eq!(
        Timestamp::from_year_ordinal(2019, 60).unwrap().as_year_month_day(),
        (2019, 3, 1)
    );
    assert!(util::is_leap_year(2000));
    assert!(util::is_leap_year(2020));
    assert!(!util::is_leap_year(1900));
    assert!(!util::is_leap_year(2019));
    assert!(!util::is_leap_year(2100));
    assert_eq!(util::days_in_year(2000), 366);
    assert_eq!(util::days_in_year(2100), 365);
}

#[test]
fn days_in_each_month() {
    let lengths: [u8; 12] = [31, 28, 31, 30, 31, 30, 31, 31, 30, 31, 30, 31];
    for month in 1..=12u8 {
        assert_eq!(util::days_in_year_month(2019, month), lengths[month as usize - 1]);
    }
    assert_eq!(util::days_in_year_month(2020, 2), 29);
    assert_eq!(util::days_in_year_month(1900, 2), 28);
    assert_eq!(util::days_in_year_month(2020, 0), 0);
    assert_eq!(util::days_in_year_month(2020, 13), 0);
}

#[test]
fn fields_that_name_no_day_are_recognised() {
    assert!(util::is_valid_year_month_day(2020, 2, 29));
    assert!(!util::is_valid_year_month_day(2021, 2, 29));
    assert!(!util::is_valid_year_month_day(2021, 4, 31));
    assert!(!util::is_valid_year_month_day(2021, 0, 1));
    assert!(!util::is_valid_year_month_day(2021, 13, 1));
    assert!(!util::is_valid_year_month_day(2021, 1, 0));
    assert!(util::is_valid_year_ordinal(2020, 366));
    assert!(!util::is_valid_year_ordinal(2021, 366));
    assert!(!util::is_valid_year_ordinal(2021, 0));
    assert_eq!(UnixTimestamp::checked_from_year_month_day(2021, 4, 31), None);
    assert_eq!(UnixTimestamp::checked_from_year_month_day(2021, 2, 29), None);
    assert_eq!(Timestamp::checked_from_year_month_day(2021, 4, 31), None);
    assert_eq!(Timestamp::checked_from_year_ordinal(2021, 0), None);
    assert_eq!(UnixTimestamp::checked_from_year_ordinal(2021, 0), None);
}

#[test]
fn unchecked_fields_count_on_past_the_end() {
    // The 31st of April is taken as the first of May.
    assert_eq!(
        UnixTimestamp::from_year_month_day(2021, 4, 31).unwrap(),
        UnixTimestamp::from_year_month_day(2021, 5, 1).unwrap()
    );
    assert_eq!(
        Timestamp::from_year_month_day(2021, 4, 31).unwrap(),
        Timestamp::from_year_month_day(2021, 5, 1).unwrap()
    );
    // Day 0 of a year is the last day of the year before.
    assert_eq!(
        UnixTimestamp::from_year_ordinal(2021, 0).unwrap(),
        UnixTimestamp::from_year_month_day(2020, 12, 31).unwrap()
    );
    assert_eq!(
        Timestamp::from_year_ordinal(2021, 0).unwrap(),
        Timestamp::from_year_month_day(2020, 12, 31).unwrap()
    );
    // Day 366 of a year of 365 days is the first day of the next.
    assert_eq!(
        UnixTimestamp::from_year_ordinal(2021, 366).unwrap(),
        UnixTimestamp::from_year_month_day(2022, 1, 1).unwrap()
    );
    assert_eq!(
        UnixTimestamp::from_year_ordinal(2021, 1000).unwrap().unix_timestamp(),
        UnixTimestamp::from_year_month_day(2021, 1, 1).unwrap().unix_timestamp() + 999 * 86_400
    );
    // Month 0 is taken as the December before.
    assert_eq!(
        UnixTimestamp::from_year_month_day(2021, 0, 31).unwrap(),
        UnixTimestamp::from_year_month_day(2020, 12, 31).unwrap()
    );
}

#[test]
fn weekday_cycle() {
    assert_eq!(unix(0).weekday(), Weekday::THURSDAY);
    assert_eq!(unix(86_400).weekday(), Weekday::FRIDAY);
    assert_eq!(unix(86_399).weekday(), Weekday::THURSDAY);
    assert_eq!(plain(0).number_days_from_monday(), util::THURSDAY);
    assert_eq!(plain(86_400).number_days_from_monday(), util::FRIDAY);
    assert_eq!(Weekday::SUNDAY.next(), Weekday::MONDAY);
    assert_eq!(Weekday::MONDAY.previous(), Weekday::SUNDAY);
    assert_eq!(Weekday::MONDAY.days_since(Weekday::MONDAY), 0);
    assert_eq!(Weekday::MONDAY.days_since(Weekday::TUESDAY), 6);
    assert_eq!(Weekday::MONDAY.days_until(Weekday::TUESDAY), 1);
    let days = [
        Weekday::MONDAY,
        Weekday::TUESDAY,
        Weekday::WEDNESDAY,
        Weekday::THURSDAY,
        Weekday::FRIDAY,
        Weekday::SATURDAY,
        Weekday::SUNDAY,
    ];
    for (i, &day) in days.iter().enumerate() {
        assert_eq!(day.next(), days[(i + 1) % 7]);
        assert_eq!(day.previous(), days[(i + 6) % 7]);
        assert_eq!(day.next().previous(), day);
        for (j, &other) in days.iter().enumerate() {
            assert_eq!(day.days_since(other), ((i + 7 - j) % 7) as u64);
            assert_eq!(day.days_until(other), ((j + 7 - i) % 7) as u64);
        }
    }
}

#[test]
fn each_day_is_followed_by_the_next_weekday() {
    let mut weekday = unix(0).weekday();
    for day in 1..=LAST_DAY {
        let timestamp = unix(day * 86_400);
        assert_eq!(timestamp.weekday(), weekday.next());
        weekday = timestamp.weekday();
        let index = plain(day * 86_400).number_days_from_monday();
        assert_eq!(index as i64, (day + 3) % 7);
        assert_eq!(Weekday::MONDAY.days_until(weekday), index as u64);
    }
}

#[test]
fn saturating_arithmetic() {
    for &delta in &[0, 1, 86_400, LAST_SECOND, LAST_SECOND + 1, i64::MAX] {
        assert_eq!(UnixTimestamp::min_value().saturating_sub(delta), UnixTimestamp::min_value());
        assert_eq!(UnixTimestamp::max_value().saturating_add(delta), UnixTimestamp::max_value());
        assert_eq!(Timestamp::min_value().saturating_sub(delta), Timestamp::min_value());
        assert_eq!(Timestamp::max_value().saturating_add(delta), Timestamp::max_value());
    }
    assert_eq!(unix(5).saturating_add(10), unix(15));
    assert_eq!(unix(15).saturating_sub(10), unix(5));
    assert_eq!(unix(15).saturating_sub(-10), unix(25));
    assert_eq!(unix(15).saturating_add(-10), unix(5));
    assert_eq!(unix(15).saturating_add(-16), UnixTimestamp::min_value());
    assert_eq!(unix(15).saturating_sub(16), UnixTimestamp::min_value());
    assert_eq!(unix(15).saturating_add(LAST_SECOND), UnixTimestamp::max_value());
    assert_eq!(unix(15).saturating_add(i64::MAX), UnixTimestamp::max_value());
    assert_eq!(unix(15).saturating_add(i64::MIN), UnixTimestamp::min_value());
    assert_eq!(unix(15).saturating_sub(i64::MIN), UnixTimestamp::max_value());
    assert_eq!(unix(15).saturating_sub(i64::MAX), UnixTimestamp::min_value());
    assert_eq!(plain(5).saturating_add(10), plain(15));
    assert_eq!(plain(15).saturating_sub(10), plain(5));
    assert_eq!(plain(15).saturating_add(i64::MIN), Timestamp::min_value());
    assert_eq!(plain(15).saturating_sub(i64::MIN), Timestamp::max_value());
}

#[test]
fn checked_arithmetic() {
    assert_eq!(unix(5).checked_add(10), Some(unix(15)));
    assert_eq!(unix(15).checked_sub(10), Some(unix(5)));
    assert_eq!(unix(15).checked_sub(15), Some(UnixTimestamp::min_value()));
    assert_eq!(unix(15).checked_sub(16), None);
    assert_eq!(unix(15).checked_add(-16), None);
    assert_eq!(unix(15).checked_add(LAST_SECOND - 15), Some(UnixTimestamp::max_value()));
    assert_eq!(unix(15).checked_add(LAST_SECOND - 14), None);
    // The sum leaves the 64-bit range and wraps to a negative count.
    assert_eq!(unix(15).checked_add(i64::MAX), None);
    assert_eq!(unix(15).checked_sub(i64::MIN), None);
    assert_eq!(unix(15).checked_add(i64::MIN), None);
    assert_eq!(unix(15).checked_sub(i64::MAX), None);
    assert_eq!(UnixTimestamp::max_value().checked_add(i64::MAX), None);
    assert_eq!(plain(5).checked_add(10), Some(plain(15)));
    assert_eq!(plain(15).checked_sub(16), None);
    assert_eq!(plain(15).checked_add(i64::MAX), None);
    assert_eq!(Timestamp::max_value().checked_sub(i64::MIN), None);
}

#[test]
fn the_eighth_of_october_2020() {
    let timestamp = UnixTimestamp::from_year_month_day(2020, 10, 8).unwrap();
    assert_eq!(timestamp.unix_timestamp(), 1_602_115_200);
    assert_eq!(timestamp.julian_day_number(), 2_459_131);
    assert_eq!(timestamp.weekday(), Weekday::THURSDAY);
    assert_eq!(timestamp.to_year_ordinal(), (2020, 282));
    let timestamp = Timestamp::from_year_month_day(2020, 10, 8).unwrap();
    assert_eq!(timestamp.unix_timestamp(), 1_602_115_200);
    assert_eq!(timestamp.julian_day_number(), 2_459_131);
    assert_eq!(timestamp.number_days_from_monday(), util::THURSDAY);
    assert_eq!(timestamp.as_year_ordinal(), (2020, 282));
}

#[test]
fn constants() {
    assert_eq!(util::SECONDS_PER_DAY, 86_400);
    assert_eq!(util::UNIX_EPOCH_JULIAN_DAY_NUMBER, 2_440_588);
    assert_eq!(
        [
            util::MONDAY,
            util::TUESDAY,
            util::WEDNESDAY,
            util::THURSDAY,
            util::FRIDAY,
            util::SATURDAY,
            util::SUNDAY
        ],
        [0, 1, 2, 3, 4, 5, 6]
    );
    assert!(util::is_supported_unix_timestamp(0));
    assert!(util::is_supported_unix_timestamp(LAST_SECOND));
    assert!(!util::is_supported_unix_timestamp(-1));
    assert!(!util::is_supported_unix_timestamp(LAST_SECOND + 1));
    assert!(!util::is_supported_unix_timestamp(i64::MIN));
}
