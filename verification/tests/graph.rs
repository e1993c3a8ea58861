use chrono::{Datelike, NaiveDate};
use gitfetch::calendar_layout::MonthSpan;
use gitfetch::config_manager::{Config, GraphData};
use gitfetch::date::Date;
use gitfetch::graph_generator::{bucket_glyph, generate_contribution_graph, render_graph};

fn date(year: i32, month: u32, day: u32) -> Date {
    let naive = NaiveDate::from_ymd_opt(year, month, day).unwrap();
    Date { days_from_ce: naive.num_days_from_ce() }
}

fn series_from(start: Date, counts: &[u32]) -> Vec<(Date, u32)> {
    counts
        .iter()
        .enumerate()
        .map(|(i, &count)| (Date { days_from_ce: start.days_from_ce + i as i32 }, count))
        .collect()
}

const LEGEND: &str = "\nLess   ░░  ▒▒  ▓▓  ██ More\n";

#[test]
fn glyph_of_each_bucket() {
    assert_eq!(bucket_glyph(0), "  ");
    assert_eq!(bucket_glyph(1), "░░");
    assert_eq!(bucket_glyph(2), "▒▒");
    assert_eq!(bucket_glyph(3), "▓▓");
    assert_eq!(bucket_glyph(4), "██");
}

#[test]
fn ten_uniform_days_from_a_monday() {
    let series = series_from(date(2024, 1, 1), &[5; 10]);
    let graph = generate_contribution_graph(&series, false, &Config::default(), date(2030, 1, 1));
    let expected = [
        "    Jan\n",
        "    ░░░░\n",
        "Mon ░░░░\n",
        "    ░░░░\n",
        "Wed ░░  \n",
        "    ░░  \n",
        "Fri ░░  \n",
        "    ░░  \n",
        LEGEND,
    ]
    .concat();
    assert_eq!(graph, expected);
}

#[test]
fn empty_series_shows_the_week_of_today() {
    let graph = generate_contribution_graph(&[], false, &Config::default(), date(2024, 6, 15));
    let expected = [
        "    Jun\n",
        "      \n",
        "Mon   \n",
        "      \n",
        "Wed   \n",
        "      \n",
        "Fri   \n",
        "      \n",
        LEGEND,
    ]
    .concat();
    assert_eq!(graph, expected);
}

#[test]
fn empty_series_in_year_mode_labels_only_the_month_of_today() {
    let graph = generate_contribution_graph(&[], true, &Config::default(), date(2024, 11, 2));
    assert!(graph.starts_with("    Nov\n"));
    assert_eq!(graph.lines().count(), 10);
}

#[test]
fn header_gives_two_characters_to_each_week() {
    let spans = [
        MonthSpan { month: 0, weeks: 2 },
        MonthSpan { month: 1, weeks: 0 },
        MonthSpan { month: 2, weeks: 3 },
        MonthSpan { month: 11, weeks: 1 },
    ];
    let graph = render_graph(&[], 0, &[0, 1, 2, 3, 4], &spans);
    let header = graph.lines().next().unwrap();
    assert_eq!(header, "    Jan Mar   Dec");
}

#[test]
fn rows_hold_one_cell_for_each_week() {
    let series = series_from(date(2024, 1, 1), &[0, 1, 2, 3, 4, 5, 6, 7, 8, 9, 10, 11, 12, 13, 14]);
    let spans = [MonthSpan { month: 0, weeks: 3 }];
    let graph = render_graph(&series, 3, &[0, 3, 6, 9, 12], &spans);
    let expected = [
        "    Jan   \n",
        "      ▓▓██\n",
        "Mon ░░▓▓  \n",
        "    ░░▓▓  \n",
        "Wed ░░██  \n",
        "    ▒▒██  \n",
        "Fri ▒▒██  \n",
        "    ▒▒██  \n",
        LEGEND,
    ]
    .concat();
    assert_eq!(graph, expected);
}

#[test]
fn graph_without_weeks_has_empty_rows() {
    let graph = render_graph(&[], 0, &[0, 1, 2, 3, 4], &[]);
    let expected =
        ["    \n", "    \n", "Mon \n", "    \n", "Wed \n", "    \n", "Fri \n", "    \n", LEGEND]
            .concat();
    assert_eq!(graph, expected);
}

#[test]
fn outlier_day_is_shown_in_the_top_bucket() {
    let mut counts = vec![3, 5, 2, 8, 999, 4, 10, 1, 6, 7];
    counts.extend([2; 11]);
    let series = series_from(date(2024, 4, 1), &counts);
    let graph = generate_contribution_graph(&series, false, &Config::default(), date(2030, 1, 1));
    let lines: Vec<&str> = graph.lines().collect();
    // 21 days from Monday 1 April: three weeks in April, kept as one span.
    assert_eq!(lines[0], "    Apr   ");
    // The outlier is the fifth day: the Friday of the first week.
    assert_eq!(lines[5].chars().skip(4).take(2).collect::<String>(), "██");
}

#[test]
fn full_year_graph_has_fifty_three_cells_in_each_row() {
    let start = date(2023, 1, 1);
    let series = series_from(start, &[1; 365]);
    let graph = generate_contribution_graph(&series, true, &Config::default(), date(2030, 1, 1));
    let lines: Vec<&str> = graph.lines().collect();
    assert_eq!(lines.len(), 10);
    assert_eq!(
        lines[0],
        "    Jan       Feb     Mar     Apr       May     Jun     Jul       Aug     Sep     Oct       Nov     Dec       "
    );
    assert_eq!(lines[0].chars().count(), 4 + 2 * 53);
    for row in &lines[1..8] {
        assert_eq!(row.chars().count(), 4 + 2 * 53);
    }
    // Day 364, the last, is the first weekday of week 52.
    assert!(lines[1].ends_with("░░"));
    assert!(lines[2].ends_with("  "));
    assert_eq!(lines[8], "");
    assert_eq!(lines[9], "Less   ░░  ▒▒  ▓▓  ██ More");
}

#[test]
fn configured_percentiles_shape_the_buckets() {
    let counts = [1, 2, 3, 4, 5, 6, 7, 8, 9, 10];
    let series = series_from(date(2024, 1, 1), &counts);
    let mut config = Config::default();
    config.graph_data = Some(GraphData { percentiles: [0, 10, 20, 30] });
    // Thresholds 0, 2, 3, 4, 10 in place of 0, 4, 7, 10, 10.
    let narrow = generate_contribution_graph(&series, false, &config, date(2030, 1, 1));
    let wide = generate_contribution_graph(&series, false, &Config::default(), date(2030, 1, 1));
    let narrow_rows: Vec<&str> = narrow.lines().collect();
    let wide_rows: Vec<&str> = wide.lines().collect();
    // Wednesday of the first week holds the count 4.
    assert_eq!(narrow_rows[4], "Wed ▓▓  ");
    assert_eq!(wide_rows[4], "Wed ░░  ");
    config.graph_data = None;
    let unset = generate_contribution_graph(&series, false, &config, date(2030, 1, 1));
    assert_eq!(unset, wide);
}
