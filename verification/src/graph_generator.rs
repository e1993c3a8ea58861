//! The graph generator: the text of the activity graph.
//!
//! The graph is a header of month names, seven rows of two-character
//! cells (one row for each day of the week, one cell for each week
//! column), and a legend. A cell shows the intensity bucket of its day.

use crate::calendar_layout::{
    compute_layout, month_spans, week_count_between, week_months, MonthSpan,
};
use crate::config_manager::Config;
use crate::contribution_analyzer::{
    bucket_index, bucket_of, calculate_contribution_ranges, contribution_ranges,
};
use crate::date::Date;
use crate::palette::{slot_of, ColorSlot};
use vstd::prelude::*;
use vstd::string::*;

verus! {

/// The three-letter name of a month of the year.
pub open spec fn month_name(month: int) -> Seq<char> {
    if month == 0 {
        "Jan"@
    } else if month == 1 {
        "Feb"@
    } else if month == 2 {
        "Mar"@
    } else if month == 3 {
        "Apr"@
    } else if month == 4 {
        "May"@
    } else if month == 5 {
        "Jun"@
    } else if month == 6 {
        "Jul"@
    } else if month == 7 {
        "Aug"@
    } else if month == 8 {
        "Sep"@
    } else if month == 9 {
        "Oct"@
    } else if month == 10 {
        "Nov"@
    } else {
        "Dec"@
    }
}

/// A run of blanks.
pub open spec fn blanks(n: int) -> Seq<char> {
    if n <= 0 {
        Seq::empty()
    } else {
        Seq::new(n as nat, |i: int| ' ')
    }
}

/// The header text of one month label: nothing for a label without
/// columns, else the name of the month, filled with blanks to two
/// characters for each column.
pub open spec fn month_label(span: MonthSpan) -> Seq<char> {
    if span.weeks == 0 {
        Seq::empty()
    } else {
        month_name(span.month as int) + blanks(2 * span.weeks - 3)
    }
}

/// The header text of the month labels, side by side.
pub open spec fn month_labels(spans: Seq<MonthSpan>) -> Seq<char>
    decreases spans.len(),
{
    if spans.len() == 0 {
        Seq::empty()
    } else {
        month_labels(spans.drop_last()) + month_label(spans.last())
    }
}

/// The header line: a margin, the month labels, and a line break.
pub open spec fn header_line(spans: Seq<MonthSpan>) -> Seq<char> {
    "    "@ + month_labels(spans) + "\n"@
}

/// The margin text of a weekday row: Monday, Wednesday and Friday are
/// named, the other rows are blank.
pub open spec fn weekday_label(day: int) -> Seq<char> {
    if day == 1 {
        "Mon"@
    } else if day == 3 {
        "Wed"@
    } else if day == 5 {
        "Fri"@
    } else {
        "   "@
    }
}

/// The two characters that stand for an intensity bucket.
pub open spec fn glyph(bucket: int) -> Seq<char> {
    if bucket == 0 {
        "  "@
    } else if bucket == 1 {
        "░░"@
    } else if bucket == 2 {
        "▒▒"@
    } else if bucket == 3 {
        "▓▓"@
    } else {
        "██"@
    }
}

/// The cell of a weekday in a week column: the glyph of the day's bucket,
/// or blanks where the series has no such day.
pub open spec fn cell(series: Seq<(Date, u32)>, thresholds: Seq<u32>, week: int, day: int) -> Seq<
    char,
> {
    if week * 7 + day < series.len() {
        glyph(bucket_of(series[week * 7 + day].1, thresholds))
    } else {
        "  "@
    }
}

/// The cells of a weekday row over the first `weeks` week columns.
pub open spec fn row_cells(series: Seq<(Date, u32)>, thresholds: Seq<u32>, day: int, weeks: nat) -> Seq<
    char,
>
    decreases weeks,
{
    if weeks == 0 {
        Seq::empty()
    } else {
        row_cells(series, thresholds, day, (weeks - 1) as nat) + cell(
            series,
            thresholds,
            weeks - 1,
            day,
        )
    }
}

/// A weekday row: the margin, a blank, the cells, and a line break.
pub open spec fn row_line(series: Seq<(Date, u32)>, thresholds: Seq<u32>, day: int, weeks: nat) -> Seq<
    char,
> {
    weekday_label(day) + " "@ + row_cells(series, thresholds, day, weeks) + "\n"@
}

/// The first `days` weekday rows.
pub open spec fn rows(series: Seq<(Date, u32)>, thresholds: Seq<u32>, weeks: nat, days: nat) -> Seq<
    char,
>
    decreases days,
{
    if days == 0 {
        Seq::empty()
    } else {
        rows(series, thresholds, weeks, (days - 1) as nat) + row_line(
            series,
            thresholds,
            days - 1,
            weeks,
        )
    }
}

/// The legend: an empty line, then the four glyphs from least to most.
pub open spec fn legend() -> Seq<char> {
    "\nLess   ░░  ▒▒  ▓▓  ██ More\n"@
}

/// The text of the graph: header, seven rows, legend.
pub open spec fn graph_text(
    series: Seq<(Date, u32)>,
    thresholds: Seq<u32>,
    weeks: nat,
    spans: Seq<MonthSpan>,
) -> Seq<char> {
    header_line(spans) + rows(series, thresholds, weeks, 7) + legend()
}

/// The first day of the graph: the first day of the series, or today
/// where the series is empty.
pub open spec fn graph_start(series: Seq<(Date, u32)>, today: Date) -> Date {
    if series.len() > 0 {
        series[0].0
    } else {
        today
    }
}

/// The last day of the graph: the last day of the series, or today where
/// the series is empty.
pub open spec fn graph_end(series: Seq<(Date, u32)>, today: Date) -> Date {
    if series.len() > 0 {
        series.last().0
    } else {
        today
    }
}

/// The number of week columns of the graph of a series.
pub open spec fn graph_weeks(series: Seq<(Date, u32)>, today: Date) -> nat {
    week_count_between(graph_start(series, today), graph_end(series, today)) as nat
}

/// The text of the graph of a series: its thresholds are read at the
/// given percentiles, and its columns run from its first to its last day.
pub open spec fn contribution_graph(
    series: Seq<(Date, u32)>,
    year_mode: bool,
    percentiles: Seq<usize>,
    today: Date,
) -> Seq<char> {
    graph_text(
        series,
        contribution_ranges(series, percentiles),
        graph_weeks(series, today),
        month_spans(week_months(graph_start(series, today), graph_weeks(series, today)), year_mode),
    )
}

/// The colour slot in which the cells of a bucket are shown.
pub open spec fn bucket_slot(bucket: int) -> ColorSlot {
    if bucket == 1 {
        ColorSlot::Level1
    } else if bucket == 2 {
        ColorSlot::Level2
    } else if bucket == 3 {
        ColorSlot::Level3
    } else if bucket == 4 {
        ColorSlot::Level4
    } else {
        ColorSlot::Neutral
    }
}

/// Generates the activity graph of a series of daily counts.
///
/// The series is in ascending order of date; only its first and last date
/// are read. An empty series gives the graph of the single day `today`.
/// With `year_specified` the header has a place for each of the twelve
/// months. The percentiles come from the configuration.
pub fn generate_contribution_graph(
    daily_contributions: &[(Date, u32)],
    year_specified: bool,
    config: &Config,
    today: Date,
) -> (graph: String)
    requires
        graph_start(daily_contributions@, today).wf(),
        graph_end(daily_contributions@, today).wf(),
        graph_start(daily_contributions@, today).days_from_ce <= graph_end(
            daily_contributions@,
            today,
        ).days_from_ce,
    ensures
        graph@ == contribution_graph(
            daily_contributions@,
            year_specified,
            config.percentiles(),
            today,
        ),
{
    let day_count = daily_contributions.len();
    let start_date = if day_count > 0 {
        daily_contributions[0].0
    } else {
        today
    };
    let end_date = if day_count > 0 {
        daily_contributions[day_count - 1].0
    } else {
        today
    };
    let percentiles = config.percentiles_or_default();
    let contribution_ranges = calculate_contribution_ranges(daily_contributions, &percentiles);
    let layout = compute_layout(start_date, end_date, year_specified);
    render_graph(
        daily_contributions,
        layout.week_count,
        contribution_ranges.as_slice(),
        layout.month_spans.as_slice(),
    )
}

/// Renders the graph of a series over the given week columns.
///
/// The header holds the month labels, two characters wide for each of
/// their columns. Each of the seven rows holds one cell for each week
/// column: day `week * 7 + day` of the series, shown by the glyph of its
/// bucket, or blanks where the series ends before it.
pub fn render_graph(
    daily_contributions: &[(Date, u32)],
    week_count: usize,
    thresholds: &[u32],
    month_spans: &[MonthSpan],
) -> (graph: String)
    requires
        thresholds@.len() == 5,
        forall|i: int| 0 <= i < month_spans@.len() ==> (#[trigger] month_spans@[i]).month < 12,
    ensures
        graph@ == graph_text(
            daily_contributions@,
            thresholds@,
            week_count as nat,
            month_spans@,
        ),
{
    let ghost series = daily_contributions@;
    let ghost weeks = week_count as nat;
    let mut graph = String::from_str("    ");
    let mut i: usize = 0;
    while i < month_spans.len()
        invariant
            i <= month_spans.len(),
            forall|i: int| 0 <= i < month_spans@.len() ==> (#[trigger] month_spans@[i]).month < 12,
            graph@ == "    "@ + month_labels(month_spans@.take(i as int)),
        decreases month_spans.len() - i,
    {
        let ghost labels = month_labels(month_spans@.take(i as int));
        push_month_label(&mut graph, month_spans[i]);
        proof {
            assert(month_spans@.take(i + 1).drop_last() =~= month_spans@.take(i as int));
            assert(graph@ =~= "    "@ + (labels + month_label(month_spans@[i as int])));
        }
        i += 1;
    }
    assert(month_spans@.take(i as int) =~= month_spans@);
    graph.append("\n");
    let ghost header = header_line(month_spans@);
    assert(graph@ =~= header + rows(series, thresholds@, weeks, 0));
    let mut day: usize = 0;
    while day < 7
        invariant
            day <= 7,
            thresholds@.len() == 5,
            series == daily_contributions@,
            weeks == week_count as nat,
            graph@ == header + rows(series, thresholds@, weeks, day as nat),
        decreases 7 - day,
    {
        let ghost above = rows(series, thresholds@, weeks, day as nat);
        push_row(&mut graph, daily_contributions, thresholds, day, week_count);
        assert(graph@ =~= header + (above + row_line(series, thresholds@, day as int, weeks)));
        day += 1;
    }
    graph.append("\nLess   ░░  ▒▒  ▓▓  ██ More\n");
    graph
}

/// The glyph of an intensity bucket, as text.
pub fn bucket_glyph(bucket: usize) -> (text: &'static str)
    ensures
        text@ == glyph(bucket as int),
        text@.len() == 2,
{
    proof {
        reveal_strlit("  ");
        reveal_strlit("░░");
        reveal_strlit("▒▒");
        reveal_strlit("▓▓");
        reveal_strlit("██");
    }
    if bucket == 0 {
        "  "
    } else if bucket == 1 {
        "░░"
    } else if bucket == 2 {
        "▒▒"
    } else if bucket == 3 {
        "▓▓"
    } else {
        "██"
    }
}

/// Appends the header text of one month label.
fn push_month_label(graph: &mut String, span: MonthSpan)
    requires
        span.month < 12,
    ensures
        final(graph)@ == old(graph)@ + month_label(span),
{
    let ghost before = graph@;
    if span.weeks == 0 {
        assert(graph@ =~= before + month_label(span));
        return ;
    }
    graph.append(month_abbreviation(span.month));
    let ghost name = month_name(span.month as int);
    if span.weeks >= 2 {
        proof {
            reveal_strlit(" ");
            reveal_strlit("  ");
        }
        graph.append(" ");
        assert(graph@ =~= before + name + blanks(1));
        let mut week: usize = 2;
        while week < span.weeks
            invariant
                2 <= week <= span.weeks,
                graph@ == before + name + blanks(2 * week - 3),
            decreases span.weeks - week,
        {
            graph.append("  ");
            proof {
                reveal_strlit("  ");
            }
            assert(graph@ =~= before + name + blanks(2 * (week + 1) - 3));
            week += 1;
        }
    }
    assert(graph@ =~= before + (name + blanks(2 * span.weeks - 3)));
}

/// Appends one weekday row.
fn push_row(
    graph: &mut String,
    daily_contributions: &[(Date, u32)],
    thresholds: &[u32],
    day: usize,
    week_count: usize,
)
    requires
        thresholds@.len() == 5,
        day < 7,
    ensures
        final(graph)@ == old(graph)@ + row_line(
            daily_contributions@,
            thresholds@,
            day as int,
            week_count as nat,
        ),
{
    let ghost before = graph@;
    let ghost series = daily_contributions@;
    let weekday = if day == 1 {
        "Mon"
    } else if day == 3 {
        "Wed"
    } else if day == 5 {
        "Fri"
    } else {
        "   "
    };
    graph.append(weekday);
    graph.append(" ");
    let ghost margin = before + weekday_label(day as int) + " "@;
    assert(graph@ =~= margin + row_cells(series, thresholds@, day as int, 0));
    let day_count = daily_contributions.len();
    let mut week: usize = 0;
    while week < week_count
        invariant
            week <= week_count,
            day < 7,
            day_count == series.len(),
            thresholds@.len() == 5,
            series == daily_contributions@,
            graph@ == margin + row_cells(series, thresholds@, day as int, week as nat),
        decreases week_count - week,
    {
        let ghost cells = row_cells(series, thresholds@, day as int, week as nat);
        if week <= (usize::MAX - day) / 7 && week * 7 + day < day_count {
            let count = daily_contributions[week * 7 + day].1;
            graph.append(bucket_glyph(bucket_index(count, thresholds)));
        } else {
            graph.append("  ");
        }
        assert(graph@ =~= margin + (cells + cell(series, thresholds@, week as int, day as int)));
        week += 1;
    }
    graph.append("\n");
    assert(graph@ =~= before + row_line(series, thresholds@, day as int, week_count as nat));
}

/// The name of a month, as text.
fn month_abbreviation(month: usize) -> (name: &'static str)
    ensures
        name@ == month_name(month as int),
{
    if month == 0 {
        "Jan"
    } else if month == 1 {
        "Feb"
    } else if month == 2 {
        "Mar"
    } else if month == 3 {
        "Apr"
    } else if month == 4 {
        "May"
    } else if month == 5 {
        "Jun"
    } else if month == 6 {
        "Jul"
    } else if month == 7 {
        "Aug"
    } else if month == 8 {
        "Sep"
    } else if month == 9 {
        "Oct"
    } else if month == 10 {
        "Nov"
    } else {
        "Dec"
    }
}

/// A glyph is two characters wide, and both are in the colour slot of its
/// bucket: a cell can be coloured by its characters alone.
pub proof fn lemma_glyph_slot(bucket: int)
    requires
        0 <= bucket <= 4,
    ensures
        glyph(bucket).len() == 2,
        slot_of(glyph(bucket)[0]) == bucket_slot(bucket),
        slot_of(glyph(bucket)[1]) == bucket_slot(bucket),
{
    reveal_strlit("  ");
    reveal_strlit("░░");
    reveal_strlit("▒▒");
    reveal_strlit("▓▓");
    reveal_strlit("██");
}

/// A month label over two or more columns is two characters wide for
/// each of them. A label over a single column shows the whole name, and a
/// label without columns shows nothing.
pub proof fn lemma_month_label_width(span: MonthSpan)
    ensures
        month_label(span).len() == if span.weeks == 0 {
            0int
        } else if span.weeks == 1 {
            3int
        } else {
            2 * span.weeks
        },
{
    reveal_strlit("Jan");
    reveal_strlit("Feb");
    reveal_strlit("Mar");
    reveal_strlit("Apr");
    reveal_strlit("May");
    reveal_strlit("Jun");
    reveal_strlit("Jul");
    reveal_strlit("Aug");
    reveal_strlit("Sep");
    reveal_strlit("Oct");
    reveal_strlit("Nov");
    reveal_strlit("Dec");
}

/// The cells of a row are two characters wide for each week column.
pub proof fn lemma_row_cells_width(
    series: Seq<(Date, u32)>,
    thresholds: Seq<u32>,
    day: int,
    weeks: nat,
)
    ensures
        row_cells(series, thresholds, day, weeks).len() == 2 * weeks,
    decreases weeks,
{
    if weeks > 0 {
        lemma_row_cells_width(series, thresholds, day, (weeks - 1) as nat);
        reveal_strlit("  ");
        reveal_strlit("░░");
        reveal_strlit("▒▒");
        reveal_strlit("▓▓");
        reveal_strlit("██");
    }
}

/// A row has a margin of four characters, two characters for each week
/// column, and a line break.
pub proof fn lemma_row_line_width(
    series: Seq<(Date, u32)>,
    thresholds: Seq<u32>,
    day: int,
    weeks: nat,
)
    ensures
        row_line(series, thresholds, day, weeks).len() == 4 + 2 * weeks + 1,
{
    lemma_row_cells_width(series, thresholds, day, weeks);
    reveal_strlit("Mon");
    reveal_strlit("Wed");
    reveal_strlit("Fri");
    reveal_strlit("   ");
    reveal_strlit(" ");
    reveal_strlit("\n");
}

} // verus!
