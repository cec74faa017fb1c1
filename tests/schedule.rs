use transmission_controller::schedule::{
    is_in, is_now_in, parse_duration, parse_period, parse_periods, Clock, Period, PeriodError, Time,
};

fn time(hour: u8, minute: u8) -> Time {
    Time { hour, minute }
}

fn period(start: Time, end: Time) -> Period {
    Period { start, end }
}

fn strings(items: &[&str]) -> Vec<String> {
    items.iter().map(|s| s.to_string()).collect()
}

fn clock(weekday: u8, hour: u8, minute: u8) -> Clock {
    Clock { weekday, hour, minute }
}

#[test]
fn test_is_in() {
    let weekend_periods = vec![period(time(0, 0), time(8, 59))];
    let weekdays_periods = vec![period(time(0, 0), time(5, 19)), period(time(6, 20), time(7, 9))];

    let periods = vec![
        weekend_periods.clone(),
        weekdays_periods.clone(),
        weekdays_periods.clone(),
        weekdays_periods.clone(),
        weekdays_periods.clone(),
        weekdays_periods.clone(),
        weekend_periods.clone(),
    ];

    assert!(is_in(&periods, &clock(0, 0, 0)));

    for wday in 0..7u8 {
        assert_eq!(is_in(&periods, &clock(wday, 6, 0)), match wday {
            0 | 6 => true,
            1..=5 => false,
            _ => unreachable!(),
        });

        assert!(is_in(&periods, &clock(wday, 7, 0)));

        assert_eq!(is_in(&periods, &clock(wday, 8, 59)), match wday {
            0 | 6 => true,
            1..=5 => false,
            _ => unreachable!(),
        });

        assert!(!is_in(&periods, &clock(wday, 9, 0)));
    }
}

#[test]
fn test_parse_periods() {
    let period_strings = strings(&["1-5/6:20-7:09", "1-5/0:00-5:19", "6-7/0:00-8:59"]);

    let weekend_periods = vec![period(time(0, 0), time(8, 59))];
    let weekdays_periods = vec![period(time(0, 0), time(5, 19)), period(time(6, 20), time(7, 9))];

    assert_eq!(
        parse_periods(&period_strings).unwrap(),
        vec![
            weekend_periods.clone(),
            weekdays_periods.clone(),
            weekdays_periods.clone(),
            weekdays_periods.clone(),
            weekdays_periods.clone(),
            weekdays_periods.clone(),
            weekend_periods.clone(),
        ]
    );
}

#[test]
fn schedule_scenario_monday_and_saturday() {
    let week = parse_periods(&strings(&["1-5/6:20-7:09", "1-5/0:00-5:19", "6-7/0:00-8:59"])).unwrap();
    assert_eq!(week[1], vec![period(time(0, 0), time(5, 19)), period(time(6, 20), time(7, 9))]);
    assert!(is_in(&week, &clock(1, 7, 0)));
    assert!(!is_in(&week, &clock(1, 9, 0)));
    assert!(is_in(&week, &clock(6, 6, 0)));
    assert!(!is_in(&week, &clock(6, 9, 0)));
}

#[test]
fn parsed_days_are_sorted_and_apart() {
    let week = parse_periods(&strings(&[
        "3/20:00-23:59",
        "2-4/ 8:00 - 9:30",
        "3/10:00-10:00",
        "7/0:00-24:00",
    ]))
    .unwrap();
    assert_eq!(week.len(), 7);
    for day in &week {
        for p in day {
            assert!(!p.end.is_before(&p.start));
        }
        for pair in day.windows(2) {
            assert!(pair[0].end.is_before(&pair[1].start));
        }
    }
    assert_eq!(
        week[3],
        vec![
            period(time(8, 0), time(9, 30)),
            period(time(10, 0), time(10, 0)),
            period(time(20, 0), time(23, 59)),
        ]
    );
    assert_eq!(week[0], vec![period(time(0, 0), time(24, 0))]);
    assert!(week[1].is_empty());
}

#[test]
fn period_ends_are_inside() {
    let week = parse_periods(&strings(&["2/10:15-11:45"])).unwrap();
    assert!(is_in(&week, &clock(2, 10, 15)));
    assert!(is_in(&week, &clock(2, 11, 45)));
    assert!(!is_in(&week, &clock(2, 10, 14)));
    assert!(!is_in(&week, &clock(2, 11, 46)));
}

#[test]
fn single_day_without_range() {
    let week = parse_periods(&strings(&["7/1:00-2:00"])).unwrap();
    assert_eq!(week[0], vec![period(time(1, 0), time(2, 0))]);
    assert_eq!(parse_period("  5 /  01 : 30 -  2:45  ", 0), Ok((5, 5, period(time(1, 30), time(2, 45)))));
}

#[test]
fn period_errors() {
    assert_eq!(parse_periods(&strings(&["1-5/6:20-7:09", "bad"])), Err(PeriodError::InvalidSpec(1)));
    assert_eq!(parse_periods(&strings(&["5-1/6:20-7:09"])), Err(PeriodError::InvalidDays(0)));
    assert_eq!(parse_periods(&strings(&["1/25:00-26:00"])), Err(PeriodError::InvalidHour(0, 25)));
    assert_eq!(parse_periods(&strings(&["1/1:60-2:00"])), Err(PeriodError::InvalidMinute(0, 60)));
    assert_eq!(parse_periods(&strings(&["1/8:00-7:00"])), Err(PeriodError::InvalidTimes(0)));
    assert_eq!(parse_periods(&strings(&["1/8:00-9:00", "1/9:00-10:00"])), Err(PeriodError::Overlap));
    assert_eq!(parse_periods(&strings(&["8/1:00-2:00"])), Err(PeriodError::InvalidSpec(0)));
    assert_eq!(parse_periods(&strings(&["1/123:00-2:00"])), Err(PeriodError::InvalidSpec(0)));
    assert_eq!(parse_periods(&strings(&["1/1:0-2:00"])), Err(PeriodError::InvalidSpec(0)));
}

#[test]
fn no_periods_give_an_empty_week() {
    let week = parse_periods(&Vec::new()).unwrap();
    assert_eq!(week, vec![Vec::<Period>::new(); 7]);
    assert!(!is_in(&week, &clock(3, 12, 0)));
}

#[test]
fn durations() {
    assert_eq!(parse_duration("30m"), Ok(1800));
    assert_eq!(parse_duration("2h"), Ok(7200));
    assert_eq!(parse_duration("1d"), Ok(86400));
    assert_eq!(parse_duration("0m"), Err("Invalid time specification: 0m".to_string()));
    assert_eq!(parse_duration("10"), Err("Invalid time specification: 10".to_string()));
    assert_eq!(parse_duration("m"), Err("Invalid time specification: m".to_string()));
    assert_eq!(parse_duration("5s").is_err(), true);
    assert_eq!(parse_duration("99999999999999999999m").is_err(), true);
    assert_eq!(parse_duration("106751991167301d").is_err(), true);
    assert_eq!(parse_duration("106751991167300d"), Ok(106751991167300 * 86400));
}

#[test]
fn now_is_a_moment_of_the_week() {
    let always = parse_periods(&strings(&["1-7/0:00-24:00"])).unwrap();
    assert!(is_now_in(&always));
    let never = parse_periods(&Vec::new()).unwrap();
    assert!(!is_now_in(&never));
}
