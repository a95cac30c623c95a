use incubator_metrics::calendar::Date;
use incubator_metrics::months::{dates_to_months, inc_month_to_date};
use incubator_metrics::phases::{incubation_phases, Phase, PhaseKind};
use incubator_metrics::windows::{
    parse_date_to_inc_months_with_time_window, parse_dates_to_inc_months, segment_fixed,
    segment_months, IncubationMonth, SegmentError,
};

fn d(year: i32, month: u32, day: u32) -> Date {
    Date::from_ymd(year, month, day).unwrap()
}

fn w(index: usize, start: Date, end: Date) -> IncubationMonth {
    IncubationMonth { start_date: start, end_date: end, incubation_month: index }
}

fn index_of_month(ws: &[IncubationMonth], year: i32, month: u32) -> Option<usize> {
    ws.iter()
        .find(|x| x.start_date.year == year && x.start_date.month == month)
        .map(|x| x.incubation_month)
}

#[test]
fn test_parse_date_to_inc_months() {
    let months = parse_dates_to_inc_months("2010-10-30", "2010-10-31").unwrap();
    assert!(index_of_month(&months, 2010, 10).is_some());
    assert!(index_of_month(&months, 2010, 11).is_none());

    assert_eq!(Some(1), index_of_month(&months, 2010, 10));
    assert_eq!(None, index_of_month(&months, 2010, 11));

    let months = parse_dates_to_inc_months("2010-10-30", "2011-01-30").unwrap();
    assert!(index_of_month(&months, 2010, 10).is_some());
    assert!(index_of_month(&months, 2010, 11).is_some());
    assert!(index_of_month(&months, 2011, 1).is_some());
    assert!(index_of_month(&months, 2011, 2).is_none());
    assert!(index_of_month(&months, 2010, 2).is_none());

    assert_eq!(Some(1), index_of_month(&months, 2010, 10));
    assert_eq!(Some(2), index_of_month(&months, 2010, 11));
    assert_eq!(Some(4), index_of_month(&months, 2011, 1));
}

#[test]
fn test_dates_to_months() {
    assert_eq!(
        dates_to_months("2010-01-01", "2010-03-05").unwrap(),
        vec![(1, "201001".to_string()), (2, "201002".to_string()), (3, "201003".to_string())]
    );
    assert_eq!(
        dates_to_months("2010-12-30", "2011-01-05").unwrap(),
        vec![(1, "201012".to_string()), (2, "201101".to_string())]
    );
}

#[test]
fn test_inc_month_to_date() {
    let start_date = "2010-10-15";
    let month = 3;
    let expected = "2010-12";

    assert_eq!(inc_month_to_date(start_date, month).unwrap(), expected.to_string());

    assert_eq!(inc_month_to_date(start_date, 1).unwrap(), "2010-10".to_string());
    assert_eq!(inc_month_to_date(start_date, 4).unwrap(), "2011-01".to_string());

    assert_eq!(inc_month_to_date(start_date, 20).unwrap(), "2012-05".to_string());
}

#[test]
fn month_labels_edge_cases() {
    assert_eq!(inc_month_to_date("2010-10-15", 0).unwrap(), "2010-10".to_string());
    assert_eq!(inc_month_to_date("0999-01-01", 1).unwrap(), "999-01".to_string());
    assert_eq!(inc_month_to_date("bad", 1), Err(SegmentError::UnparsableDate));
    assert_eq!(inc_month_to_date("2010-10-15", usize::MAX), Err(SegmentError::MonthOutOfRange));
    assert_eq!(dates_to_months("2010-02-01", "2010-01-01"), Err(SegmentError::InvalidDateRange));
    assert_eq!(dates_to_months("2010-02-01", "x"), Err(SegmentError::UnparsableDate));
    assert_eq!(dates_to_months("2010-02-10", "2010-02-11").unwrap(), vec![(1, "201002".to_string())]);
}

#[test]
fn repo_test_parse_date_to_inc_months_with_time_window() {
    let inc_months = parse_date_to_inc_months_with_time_window("2022-01-01", "2022-02-15", 10).unwrap();
    let expected = vec![
        w(1, d(2022, 1, 1), d(2022, 1, 10)),
        w(2, d(2022, 1, 11), d(2022, 1, 20)),
        w(3, d(2022, 1, 21), d(2022, 1, 30)),
        w(4, d(2022, 1, 31), d(2022, 2, 9)),
        w(5, d(2022, 2, 10), d(2022, 2, 15)),
    ];
    assert_eq!(expected, inc_months);

    let inc_months = parse_date_to_inc_months_with_time_window("2022-01-01", "2022-01-08", 10).unwrap();
    assert_eq!(vec![w(1, d(2022, 1, 1), d(2022, 1, 8))], inc_months);

    let inc_months = parse_date_to_inc_months_with_time_window("2022-01-01", "2022-01-10", 10).unwrap();
    assert_eq!(vec![w(1, d(2022, 1, 1), d(2022, 1, 10))], inc_months);

    let inc_months = parse_date_to_inc_months_with_time_window("2022-01-01", "2022-01-11", 10).unwrap();
    assert_eq!(
        vec![w(1, d(2022, 1, 1), d(2022, 1, 10)), w(2, d(2022, 1, 11), d(2022, 1, 11))],
        inc_months
    );
}

#[test]
fn month_windows_of_first_quarter() {
    let ws = parse_dates_to_inc_months("2010-01-01", "2010-03-05").unwrap();
    assert_eq!(
        ws,
        vec![
            w(1, d(2010, 1, 1), d(2010, 1, 31)),
            w(2, d(2010, 2, 1), d(2010, 2, 28)),
            w(3, d(2010, 3, 1), d(2010, 3, 5)),
        ]
    );
}

#[test]
fn fixed_window_longer_than_period_gives_one_window() {
    let ws = parse_date_to_inc_months_with_time_window("2022-01-01", "2022-01-08", 10).unwrap();
    assert_eq!(ws.len(), 1);
    assert_eq!(ws[0].start_date, d(2022, 1, 1));
    assert_eq!(ws[0].end_date, d(2022, 1, 8));
}

#[test]
fn fixed_window_leaves_single_last_day() {
    let ws = parse_date_to_inc_months_with_time_window("2022-01-01", "2022-01-11", 10).unwrap();
    assert_eq!(ws, vec![w(1, d(2022, 1, 1), d(2022, 1, 10)), w(2, d(2022, 1, 11), d(2022, 1, 11))]);
}

#[test]
fn single_day_period_is_one_window() {
    assert_eq!(segment_fixed(d(2020, 5, 5), d(2020, 5, 5), 7), vec![w(1, d(2020, 5, 5), d(2020, 5, 5))]);
    assert_eq!(segment_months(d(2020, 5, 5), d(2020, 5, 5)), vec![w(1, d(2020, 5, 5), d(2020, 5, 5))]);
}

#[test]
fn month_windows_cross_a_leap_february_and_a_year() {
    let ws = segment_months(d(2023, 12, 15), d(2024, 3, 1));
    assert_eq!(
        ws,
        vec![
            w(1, d(2023, 12, 15), d(2023, 12, 31)),
            w(2, d(2024, 1, 1), d(2024, 1, 31)),
            w(3, d(2024, 2, 1), d(2024, 2, 29)),
            w(4, d(2024, 3, 1), d(2024, 3, 1)),
        ]
    );
}

#[test]
fn windows_cover_the_period_without_gaps() {
    let start = d(2009, 9, 22);
    let end = d(2010, 12, 15);
    for n in [1u64, 7, 30, 31, 365, 1000] {
        let ws = segment_fixed(start, end, n);
        assert_eq!(ws[0].start_date, start);
        assert_eq!(ws.last().unwrap().end_date, end);
        for (i, x) in ws.iter().enumerate() {
            assert_eq!(x.incubation_month, i + 1);
            if i + 1 < ws.len() {
                assert_eq!(x.end_date.next_day(), ws[i + 1].start_date);
            }
        }
    }
    let ws = segment_months(start, end);
    assert_eq!(ws.len(), 16);
    for i in 0..ws.len() - 1 {
        assert_eq!(ws[i].end_date.next_day(), ws[i + 1].start_date);
    }
}

#[test]
fn shorter_windows_never_give_fewer() {
    let start = d(2019, 2, 10);
    let end = d(2021, 7, 3);
    let mut last = usize::MAX;
    for n in 1u64..=120 {
        let count = segment_fixed(start, end, n).len();
        assert!(count <= last);
        last = count;
    }
    assert_eq!(segment_fixed(start, end, 30).len(), 30);
}

#[test]
fn thirty_day_windows_of_a_long_period() {
    let ws = parse_date_to_inc_months_with_time_window("2009-09-22", "2010-12-15", 30).unwrap();
    assert_eq!(ws.len(), 15);
    assert_eq!(ws[0], w(1, d(2009, 9, 22), d(2009, 10, 21)));
    assert_eq!(ws[13], w(14, d(2010, 10, 17), d(2010, 11, 15)));
    assert_eq!(ws[14], w(15, d(2010, 11, 16), d(2010, 12, 15)));
}

#[test]
fn invalid_periods_are_rejected() {
    assert_eq!(
        parse_date_to_inc_months_with_time_window("2022-02-01", "2022-01-01", 10),
        Err(SegmentError::InvalidDateRange)
    );
    assert_eq!(parse_dates_to_inc_months("2022-02-01", "2022-01-31"), Err(SegmentError::InvalidDateRange));
    assert_eq!(
        parse_date_to_inc_months_with_time_window("2022-01-01", "not a date", 10),
        Err(SegmentError::UnparsableDate)
    );
    assert_eq!(parse_dates_to_inc_months("2022-13-01", "2022-12-31"), Err(SegmentError::UnparsableDate));
    assert_eq!(
        parse_date_to_inc_months_with_time_window("2022-01-01", "2022-01-31", 0),
        Err(SegmentError::InvalidTimeWindow)
    );
}

#[test]
fn dates_step_over_month_and_year_ends() {
    assert_eq!(d(2021, 2, 28).next_day(), d(2021, 3, 1));
    assert_eq!(d(2020, 2, 28).next_day(), d(2020, 2, 29));
    assert_eq!(d(1900, 2, 28).next_day(), d(1900, 3, 1));
    assert_eq!(d(2000, 2, 28).next_day(), d(2000, 2, 29));
    assert_eq!(d(2021, 12, 31).next_day(), d(2022, 1, 1));
    assert!(Date::from_ymd(2021, 2, 29).is_none());
    assert!(Date::from_ymd(2021, 4, 31).is_none());
    assert!(d(2021, 1, 1).is_on_or_before(&d(2021, 1, 1)));
    assert!(!d(2021, 1, 2).is_on_or_before(&d(2021, 1, 1)));
}

#[test]
fn phases_split_history_around_incubation() {
    let phases = incubation_phases("Kafka", d(2009, 5, 1), d(2015, 1, 1), d(2010, 3, 1), d(2012, 10, 31), false);
    assert_eq!(
        phases,
        vec![
            Phase { kind: PhaseKind::PreIncubation, start: d(2009, 5, 1), end: d(2010, 2, 28) },
            Phase { kind: PhaseKind::DuringIncubation, start: d(2010, 3, 1), end: d(2012, 10, 31) },
            Phase { kind: PhaseKind::PostIncubation, start: d(2012, 11, 1), end: d(2015, 1, 1) },
        ]
    );
    let no_prior = incubation_phases("Kafka", d(2010, 3, 1), d(2012, 1, 1), d(2010, 3, 1), d(2012, 10, 31), false);
    assert!(no_prior.is_empty());
    let forced = incubation_phases("Kafka", d(2010, 3, 1), d(2012, 1, 1), d(2010, 3, 1), d(2012, 10, 31), true);
    assert_eq!(forced, vec![Phase { kind: PhaseKind::DuringIncubation, start: d(2010, 3, 1), end: d(2012, 10, 31) }]);
    let excluded = incubation_phases("Cloudstack", d(2009, 5, 1), d(2015, 1, 1), d(2010, 3, 1), d(2012, 10, 31), true);
    assert!(excluded.is_empty());
    assert_eq!(d(2010, 1, 1).prev_day(), d(2009, 12, 31));
}

#[test]
fn largest_window_length_and_latest_days() {
    let ws = parse_date_to_inc_months_with_time_window("2022-01-01", "2022-12-31", i64::MAX).unwrap();
    assert_eq!(ws, vec![w(1, d(2022, 1, 1), d(2022, 12, 31))]);
    let last = d(262142, 12, 31);
    assert_eq!(segment_fixed(last, last, 1), vec![w(1, last, last)]);
    assert_eq!(segment_months(d(262142, 11, 30), last).len(), 2);
    assert!(Date::from_ymd(262143, 1, 1).is_none());
}

#[test]
fn utils_test_parse_date_to_inc_months_with_time_window() {
    let start_date = "2009-09-22";
    let end_date = "2010-12-15";
    let time_window = 30;

    let inc_months = parse_date_to_inc_months_with_time_window(start_date, end_date, time_window).unwrap();

    // the windows start at the period's first day, so the two windows of late
    // 2010 are the fourteenth and fifteenth
    assert_eq!(inc_months.len(), 15);
    assert_eq!(inc_months[0].start_date, d(2009, 9, 22));
    assert_eq!(inc_months[13], w(14, d(2010, 10, 17), d(2010, 11, 15)));
    assert_eq!(inc_months[14], w(15, d(2010, 11, 16), d(2010, 12, 15)));
}
