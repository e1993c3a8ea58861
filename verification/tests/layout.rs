use chrono::{Datelike, NaiveDate};
use gitfetch::calendar_layout::{
    compute_layout, count_weeks, month_spans_for_weeks, spans_by_month, walk_month_spans,
    week_start_months, MonthSpan,
};
use gitfetch::date::{Date, YearMonth, MAX_DAYS_FROM_CE, MIN_DAYS_FROM_CE};

fn date(year: i32, month: u32, day: u32) -> Date {
    let naive = NaiveDate::from_ymd_opt(year, month, day).unwrap();
    Date { days_from_ce: naive.num_days_from_ce() }
}

fn spans(pairs: &[(usize, usize)]) -> Vec<MonthSpan> {
    pairs.iter().map(|&(month, weeks)| MonthSpan { month, weeks }).collect()
}

fn months(pairs: &[(i32, u32)]) -> Vec<YearMonth> {
    pairs.iter().map(|&(year, month0)| YearMonth { year, month0 }).collect()
}

fn total(spans: &[MonthSpan]) -> usize {
    spans.iter().map(|span| span.weeks).sum()
}

#[test]
fn date_bounds_are_those_of_chrono() {
    assert_eq!(NaiveDate::MIN.num_days_from_ce(), MIN_DAYS_FROM_CE);
    assert_eq!(NaiveDate::MAX.num_days_from_ce(), MAX_DAYS_FROM_CE);
}

#[test]
fn year_and_month_at_the_bounds() {
    let first = Date { days_from_ce: MIN_DAYS_FROM_CE }.to_year_month();
    assert_eq!(first, YearMonth { year: NaiveDate::MIN.year(), month0: 0 });
    let last = Date { days_from_ce: MAX_DAYS_FROM_CE }.to_year_month();
    assert_eq!(last, YearMonth { year: NaiveDate::MAX.year(), month0: 11 });
}

#[test]
fn year_and_month_of_a_date() {
    assert_eq!(date(2024, 3, 15).to_year_month(), YearMonth { year: 2024, month0: 2 });
    assert_eq!(date(2023, 12, 31).to_year_month(), YearMonth { year: 2023, month0: 11 });
    assert_eq!(date(2024, 2, 29).to_year_month(), YearMonth { year: 2024, month0: 1 });
    assert_eq!(Date { days_from_ce: 1 }.to_year_month(), YearMonth { year: 1, month0: 0 });
    assert_eq!(Date { days_from_ce: 0 }.to_year_month(), YearMonth { year: 0, month0: 11 });
}

#[test]
fn date_from_day_number_respects_the_bounds() {
    assert_eq!(Date::from_days_from_ce(738_000), Some(Date { days_from_ce: 738_000 }));
    assert_eq!(
        Date::from_days_from_ce(MIN_DAYS_FROM_CE),
        Some(Date { days_from_ce: MIN_DAYS_FROM_CE })
    );
    assert_eq!(
        Date::from_days_from_ce(MAX_DAYS_FROM_CE),
        Some(Date { days_from_ce: MAX_DAYS_FROM_CE })
    );
    assert_eq!(Date::from_days_from_ce(MIN_DAYS_FROM_CE - 1), None);
    assert_eq!(Date::from_days_from_ce(MAX_DAYS_FROM_CE + 1), None);
    assert_eq!(Date::from_days_from_ce(i32::MAX), None);
    assert_eq!(Date::from_days_from_ce(i32::MIN), None);
}

#[test]
fn week_count_is_one_per_seven_days_begun() {
    let start = date(2024, 1, 1);
    assert_eq!(count_weeks(start, date(2024, 1, 1)), 1);
    assert_eq!(count_weeks(start, date(2024, 1, 7)), 1);
    assert_eq!(count_weeks(start, date(2024, 1, 8)), 2);
    assert_eq!(count_weeks(start, date(2024, 1, 14)), 2);
    assert_eq!(count_weeks(start, date(2024, 1, 15)), 3);
    assert_eq!(count_weeks(start, date(2024, 12, 31)), 53);
}

#[test]
fn week_count_of_the_widest_range() {
    let first = Date { days_from_ce: MIN_DAYS_FROM_CE };
    let last = Date { days_from_ce: MAX_DAYS_FROM_CE };
    assert_eq!(count_weeks(first, last), 27_355_933);
}

#[test]
fn week_columns_begin_seven_days_apart() {
    let read = week_start_months(date(2024, 1, 25), 3);
    assert_eq!(read, months(&[(2024, 0), (2024, 1), (2024, 1)]));
    assert_eq!(week_start_months(date(2024, 1, 25), 0), Vec::new());
    let across = week_start_months(date(2023, 12, 20), 3);
    assert_eq!(across, months(&[(2023, 11), (2023, 11), (2024, 0)]));
}

#[test]
fn zero_length_range_has_one_week_and_one_span() {
    let day = date(2024, 6, 15);
    let layout = compute_layout(day, day, false);
    assert_eq!(layout.week_count, 1);
    assert_eq!(layout.month_spans, spans(&[(5, 1)]));
}

#[test]
fn zero_length_range_in_year_mode_has_one_filled_span() {
    let day = date(2024, 6, 15);
    let layout = compute_layout(day, day, true);
    assert_eq!(layout.week_count, 1);
    assert_eq!(layout.month_spans.len(), 12);
    for (month, span) in layout.month_spans.iter().enumerate() {
        assert_eq!(span.month, month);
        assert_eq!(span.weeks, if month == 5 { 1 } else { 0 });
    }
}

#[test]
fn full_year_in_year_mode_has_twelve_spans() {
    let layout = compute_layout(date(2023, 1, 1), date(2023, 12, 31), true);
    assert_eq!(layout.week_count, 53);
    assert_eq!(
        layout.month_spans,
        spans(&[
            (0, 5),
            (1, 4),
            (2, 4),
            (3, 5),
            (4, 4),
            (5, 4),
            (6, 5),
            (7, 4),
            (8, 4),
            (9, 5),
            (10, 4),
            (11, 5)
        ])
    );
    assert_eq!(total(&layout.month_spans), layout.week_count);
}

#[test]
fn leap_year_in_year_mode_has_twelve_spans() {
    let layout = compute_layout(date(2024, 1, 1), date(2024, 12, 31), true);
    assert_eq!(layout.week_count, 53);
    let weeks: Vec<usize> = layout.month_spans.iter().map(|span| span.weeks).collect();
    assert_eq!(weeks, vec![5, 4, 4, 5, 4, 4, 5, 4, 5, 4, 4, 5]);
    let order: Vec<usize> = layout.month_spans.iter().map(|span| span.month).collect();
    assert_eq!(order, (0..12).collect::<Vec<usize>>());
    assert_eq!(total(&layout.month_spans), 53);
}

#[test]
fn part_of_a_year_in_year_mode_keeps_all_twelve_places() {
    let layout = compute_layout(date(2024, 1, 1), date(2024, 3, 10), true);
    assert_eq!(layout.week_count, 10);
    let weeks: Vec<usize> = layout.month_spans.iter().map(|span| span.weeks).collect();
    assert_eq!(weeks, vec![5, 4, 1, 0, 0, 0, 0, 0, 0, 0, 0, 0]);
    assert_eq!(total(&layout.month_spans), 10);
}

#[test]
fn year_mode_gathers_a_month_of_two_years() {
    let layout = compute_layout(date(2023, 1, 1), date(2024, 1, 31), true);
    assert_eq!(layout.week_count, 57);
    let weeks: Vec<usize> = layout.month_spans.iter().map(|span| span.weeks).collect();
    assert_eq!(weeks, vec![9, 4, 4, 5, 4, 4, 5, 4, 4, 5, 4, 5]);
    assert_eq!(total(&layout.month_spans), 57);
}

#[test]
fn narrow_first_span_is_left_out() {
    let layout = compute_layout(date(2024, 1, 25), date(2024, 3, 31), false);
    assert_eq!(layout.week_count, 10);
    assert_eq!(layout.month_spans, spans(&[(1, 5), (2, 4)]));
    assert_eq!(total(&layout.month_spans), 9);
}

#[test]
fn first_span_of_two_weeks_is_left_out() {
    let layout = compute_layout(date(2024, 1, 18), date(2024, 2, 28), false);
    assert_eq!(layout.week_count, 6);
    assert_eq!(layout.month_spans, spans(&[(1, 4)]));
}

#[test]
fn first_span_of_three_weeks_stays() {
    let layout = compute_layout(date(2024, 1, 11), date(2024, 2, 28), false);
    assert_eq!(layout.week_count, 7);
    assert_eq!(layout.month_spans, spans(&[(0, 3), (1, 4)]));
    assert_eq!(total(&layout.month_spans), layout.week_count);
}

#[test]
fn wide_first_span_stays_and_all_weeks_are_labelled() {
    let layout = compute_layout(date(2024, 1, 8), date(2024, 3, 3), false);
    assert_eq!(layout.week_count, 8);
    assert_eq!(layout.month_spans, spans(&[(0, 4), (1, 4)]));
    assert_eq!(total(&layout.month_spans), layout.week_count);
}

#[test]
fn two_weeks_in_one_month_fall_back_to_one_column() {
    let layout = compute_layout(date(2024, 5, 1), date(2024, 5, 10), false);
    assert_eq!(layout.week_count, 2);
    assert_eq!(layout.month_spans, spans(&[(4, 1)]));
}

#[test]
fn spans_follow_the_weeks_across_a_year_boundary() {
    let layout = compute_layout(date(2023, 12, 4), date(2024, 1, 28), false);
    assert_eq!(layout.week_count, 8);
    assert_eq!(layout.month_spans, spans(&[(11, 4), (0, 4)]));
}

#[test]
fn same_month_of_another_year_is_a_span_of_its_own() {
    let layout = compute_layout(date(2023, 1, 1), date(2024, 1, 31), false);
    assert_eq!(layout.week_count, 57);
    assert_eq!(
        layout.month_spans,
        spans(&[
            (0, 5),
            (1, 4),
            (2, 4),
            (3, 5),
            (4, 4),
            (5, 4),
            (6, 5),
            (7, 4),
            (8, 4),
            (9, 5),
            (10, 4),
            (11, 5),
            (0, 4)
        ])
    );
    assert_eq!(total(&layout.month_spans), 57);
}

#[test]
fn walk_labels_runs_of_weeks() {
    let weeks = months(&[(2024, 0), (2024, 0), (2024, 1), (2024, 1), (2024, 1), (2024, 2)]);
    assert_eq!(walk_month_spans(&weeks, false), spans(&[(0, 2), (1, 3), (2, 1)]));
}

#[test]
fn walk_in_year_mode_closes_the_open_span_at_the_last_week() {
    let weeks = months(&[(2024, 0), (2024, 0), (2024, 0)]);
    assert_eq!(walk_month_spans(&weeks, true), spans(&[(0, 2), (0, 1)]));
    assert_eq!(walk_month_spans(&weeks, false), spans(&[(0, 3)]));
    let single = months(&[(2024, 7)]);
    assert_eq!(walk_month_spans(&single, true), spans(&[(7, 1)]));
}

#[test]
fn walk_in_year_mode_leaves_places_for_skipped_months() {
    let weeks = months(&[(2024, 0), (2024, 0), (2024, 3)]);
    assert_eq!(walk_month_spans(&weeks, true), spans(&[(0, 2), (1, 0), (2, 0), (3, 1)]));
    assert_eq!(walk_month_spans(&weeks, false), spans(&[(0, 2), (3, 1)]));
}

#[test]
fn skipped_months_wrap_round_the_end_of_the_year() {
    let weeks = months(&[(2023, 10), (2024, 1)]);
    assert_eq!(walk_month_spans(&weeks, true), spans(&[(10, 1), (11, 0), (0, 0), (1, 1)]));
}

#[test]
fn same_month_a_year_later_skips_the_eleven_others() {
    let weeks = months(&[(2023, 5), (2024, 5)]);
    assert_eq!(
        walk_month_spans(&weeks, true),
        spans(&[
            (5, 1),
            (6, 0),
            (7, 0),
            (8, 0),
            (9, 0),
            (10, 0),
            (11, 0),
            (0, 0),
            (1, 0),
            (2, 0),
            (3, 0),
            (4, 0),
            (5, 1)
        ])
    );
    let year = month_spans_for_weeks(&weeks, true);
    assert_eq!(year.len(), 12);
    assert_eq!(year[5], MonthSpan { month: 5, weeks: 2 });
    assert_eq!(total(&year), 2);
}

#[test]
fn spans_are_gathered_by_month() {
    let year = spans_by_month(&spans(&[(3, 2), (4, 0), (3, 1), (11, 7), (0, 1)]));
    let weeks: Vec<usize> = year.iter().map(|span| span.weeks).collect();
    assert_eq!(weeks, vec![1, 0, 0, 3, 0, 0, 0, 0, 0, 0, 0, 7]);
    let order: Vec<usize> = year.iter().map(|span| span.month).collect();
    assert_eq!(order, (0..12).collect::<Vec<usize>>());
    assert_eq!(spans_by_month(&[]).len(), 12);
}

#[test]
fn month_spans_for_given_weeks() {
    let weeks = months(&[(2024, 0), (2024, 0), (2024, 0), (2024, 1), (2024, 1)]);
    assert_eq!(month_spans_for_weeks(&weeks, false), spans(&[(0, 3), (1, 2)]));
    let narrow = months(&[(2024, 0), (2024, 1), (2024, 1)]);
    assert_eq!(month_spans_for_weeks(&narrow, false), spans(&[(1, 2)]));
    let lone = months(&[(2024, 8), (2024, 8)]);
    assert_eq!(month_spans_for_weeks(&lone, false), spans(&[(8, 1)]));
}

#[test]
fn span_widths_cover_the_weeks_unless_a_narrow_lead_is_dropped() {
    let ranges = [
        (date(2024, 1, 1), date(2024, 12, 31)),
        (date(2024, 2, 20), date(2024, 2, 20)),
        (date(2023, 11, 27), date(2024, 4, 2)),
        (date(2024, 1, 29), date(2024, 3, 3)),
    ];
    for (start, end) in ranges {
        let year = compute_layout(start, end, true);
        assert_eq!(total(&year.month_spans), year.week_count);
        let rolling = compute_layout(start, end, false);
        let natural = walk_month_spans(&week_start_months(start, rolling.week_count), false);
        let covered = total(&rolling.month_spans) == rolling.week_count;
        assert_eq!(covered, natural[0].weeks >= 3 || rolling.week_count == 1);
    }
}

fn week_months_by_chrono(start: NaiveDate, end: NaiveDate) -> Vec<(i32, u32)> {
    let mut months = Vec::new();
    let mut cursor = start;
    while cursor <= end {
        months.push((cursor.year(), cursor.month0()));
        cursor = cursor + chrono::Duration::days(7);
    }
    months
}

fn ranges_to_compare() -> Vec<(NaiveDate, NaiveDate)> {
    let ymd = |y, m, d| NaiveDate::from_ymd_opt(y, m, d).unwrap();
    vec![
        (ymd(2024, 1, 1), ymd(2024, 12, 31)),
        (ymd(2023, 1, 1), ymd(2023, 12, 31)),
        (ymd(2023, 3, 14), ymd(2024, 3, 13)),
        (ymd(2020, 2, 29), ymd(2020, 2, 29)),
        (ymd(1999, 12, 27), ymd(2000, 3, 1)),
        (ymd(1900, 2, 1), ymd(1900, 3, 31)),
        (ymd(2000, 2, 1), ymd(2000, 3, 31)),
        (ymd(-1, 11, 5), ymd(1, 2, 5)),
        (ymd(2024, 6, 30), ymd(2024, 7, 6)),
    ]
}

#[test]
fn weeks_begin_where_the_calendar_says() {
    for (start, end) in ranges_to_compare() {
        let first = Date { days_from_ce: start.num_days_from_ce() };
        let last = Date { days_from_ce: end.num_days_from_ce() };
        let expected = months(&week_months_by_chrono(start, end));
        assert_eq!(count_weeks(first, last), expected.len());
        assert_eq!(week_start_months(first, expected.len()), expected);
    }
}

#[test]
fn year_mode_counts_the_weeks_that_begin_in_each_month() {
    for (start, end) in ranges_to_compare() {
        let first = Date { days_from_ce: start.num_days_from_ce() };
        let last = Date { days_from_ce: end.num_days_from_ce() };
        let weeks = week_months_by_chrono(start, end);
        let layout = compute_layout(first, last, true);
        assert_eq!(layout.week_count, weeks.len());
        for month in 0..12 {
            let expected = weeks.iter().filter(|&&(_, month0)| month0 as usize == month).count();
            assert_eq!(layout.month_spans[month], MonthSpan { month, weeks: expected });
        }
    }
}

#[test]
fn rolling_mode_labels_the_runs_of_weeks() {
    for (start, end) in ranges_to_compare() {
        let first = Date { days_from_ce: start.num_days_from_ce() };
        let last = Date { days_from_ce: end.num_days_from_ce() };
        let weeks = week_months_by_chrono(start, end);
        let mut runs: Vec<((i32, u32), usize)> = Vec::new();
        for &week in &weeks {
            match runs.last_mut() {
                Some((month, length)) if *month == week => *length += 1,
                _ => runs.push((week, 1)),
            }
        }
        let natural: Vec<MonthSpan> = runs
            .iter()
            .map(|&((_, month0), weeks)| MonthSpan { month: month0 as usize, weeks })
            .collect();
        assert_eq!(walk_month_spans(&months(&weeks), false), natural);
        let mut expected = natural.clone();
        if expected[0].weeks < 3 {
            expected.remove(0);
        }
        if expected.is_empty() {
            expected.push(MonthSpan { month: start.month0() as usize, weeks: 1 });
        }
        assert_eq!(compute_layout(first, last, false).month_spans, expected);
    }
}
