//! The calendar layout: week columns and the month labels above them.
//!
//! A date range is laid out in columns of one week each, the first of
//! them starting on the first day of the range. A month is labelled over
//! the columns whose first day falls in it.

use crate::date::{Date, YearMonth, MAX_DAYS_FROM_CE};
use vstd::prelude::*;

verus! {

/// A month label: the zero-based month and the number of week columns
/// under it. A span of no columns keeps the place of a month without data.
#[derive(Clone, Copy, Debug, PartialEq, Eq, Structural)]
pub struct MonthSpan {
    pub month: usize,
    pub weeks: usize,
}

/// The layout of a date range.
pub struct CalendarLayout {
    pub week_count: usize,
    pub month_spans: Vec<MonthSpan>,
}

/// Where the walk through the weeks stands: the labels closed so far, and
/// the month that is still open with the week at which it began.
pub struct WalkState {
    pub closed: Seq<MonthSpan>,
    pub current: YearMonth,
    pub span_start: int,
}

/// The number of week columns of a range: one for every seven days begun.
pub open spec fn week_count_between(start: Date, end: Date) -> int {
    (end.day_number() - start.day_number()) / 7 + 1
}

/// The year and month of the first day of each week column.
pub open spec fn week_months(start: Date, weeks: nat) -> Seq<YearMonth> {
    Seq::new(
        weeks,
        |week: int| Date { days_from_ce: (start.day_number() + 7 * week) as i32 }.year_month(),
    )
}

/// Every month of the sequence is one of the twelve.
pub open spec fn all_wf(months: Seq<YearMonth>) -> bool {
    forall|i: int| 0 <= i < months.len() ==> (#[trigger] months[i]).wf()
}

/// The number of weeks that begin in a month of the year.
pub open spec fn weeks_beginning_in(months: Seq<YearMonth>, month: int) -> int
    decreases months.len(),
{
    if months.len() == 0 {
        0
    } else if months.last().month0 == month {
        weeks_beginning_in(months.drop_last(), month) + 1
    } else {
        weeks_beginning_in(months.drop_last(), month)
    }
}

/// The labels of a whole year: one for each month from January to
/// December, over as many columns as there are weeks that begin in that
/// month.
pub open spec fn year_spans(months: Seq<YearMonth>) -> Seq<MonthSpan> {
    Seq::new(
        12,
        |month: int|
            MonthSpan { month: month as usize, weeks: weeks_beginning_in(months, month) as usize },
    )
}

/// The labels of the runs of weeks: one label for each run of consecutive
/// weeks that begin in the same month of the same year, over the weeks of
/// that run.
pub open spec fn month_runs(months: Seq<YearMonth>) -> Seq<MonthSpan>
    decreases months.len(),
{
    if months.len() == 0 {
        Seq::empty()
    } else if months.len() >= 2 && months[months.len() - 2] == months.last() {
        let before = month_runs(months.drop_last());
        before.update(
            before.len() - 1,
            MonthSpan { month: before.last().month, weeks: (before.last().weeks + 1) as usize },
        )
    } else {
        month_runs(months.drop_last()).push(
            MonthSpan { month: months.last().month0 as usize, weeks: 1 },
        )
    }
}

/// The first week at or after `from` that does not begin in the month of
/// the first week, or the number of weeks where there is none.
pub open spec fn run_end(months: Seq<YearMonth>, from: nat) -> nat
    decreases months.len() - from,
{
    if from >= months.len() {
        months.len()
    } else if months[from as int] != months[0] {
        from
    } else {
        run_end(months, from + 1)
    }
}

/// The number of weeks at the start of the range that begin in the month
/// of the first week.
pub open spec fn leading_run(months: Seq<YearMonth>) -> nat {
    run_end(months, 0)
}

/// The labels without a leading one that is too narrow to read: a first
/// label of fewer than three columns is left out.
pub open spec fn without_narrow_lead(spans: Seq<MonthSpan>) -> Seq<MonthSpan> {
    if spans.len() > 0 && spans[0].weeks < 3 {
        spans.drop_first()
    } else {
        spans
    }
}

/// The month labels over the week columns whose first days fall in the
/// given months.
///
/// In year mode these are the twelve labels of the year. Otherwise they
/// are the labels of the runs of weeks, without a first label that is too
/// narrow; where that leaves none, one column is labelled with the month
/// of the first week.
pub open spec fn month_spans(months: Seq<YearMonth>, year_mode: bool) -> Seq<MonthSpan> {
    if year_mode {
        year_spans(months)
    } else if without_narrow_lead(month_runs(months)).len() == 0 {
        seq![MonthSpan { month: months[0].month0 as usize, weeks: 1 }]
    } else {
        without_narrow_lead(month_runs(months))
    }
}

/// The number of week columns under all labels together.
pub open spec fn total_weeks(spans: Seq<MonthSpan>) -> int
    decreases spans.len(),
{
    if spans.len() == 0 {
        0
    } else {
        total_weeks(spans.drop_last()) + spans.last().weeks
    }
}

/// The number of week columns that the labels give to a month.
pub open spec fn weeks_in_month(spans: Seq<MonthSpan>, month: int) -> int
    decreases spans.len(),
{
    if spans.len() == 0 {
        0
    } else if spans.last().month == month {
        weeks_in_month(spans.drop_last(), month) + spans.last().weeks
    } else {
        weeks_in_month(spans.drop_last(), month)
    }
}

/// Labels gathered by month: one label for each month from January to
/// December, with the columns that the given labels give to that month.
pub open spec fn by_month(spans: Seq<MonthSpan>) -> Seq<MonthSpan> {
    Seq::new(
        12,
        |month: int| MonthSpan { month: month as usize, weeks: weeks_in_month(spans, month) as usize },
    )
}

/// The number of months that lie strictly between two months of the year,
/// going forward from `from` and round the end of the year.
pub open spec fn months_skipped(from: int, to: int) -> int {
    (to + 11 - from) % 12
}

/// Empty labels for the months that lie strictly between two months.
pub open spec fn placeholders(from: int, to: int) -> Seq<MonthSpan> {
    Seq::new(
        months_skipped(from, to) as nat,
        |i: int| MonthSpan { month: ((from + 1 + i) % 12) as usize, weeks: 0 },
    )
}

/// The labels closed so far, with the open month closed at `week` unless
/// it has no column yet.
pub open spec fn close_span(state: WalkState, week: int) -> Seq<MonthSpan> {
    if week - state.span_start > 0 {
        state.closed.push(
            MonthSpan {
                month: state.current.month0 as usize,
                weeks: (week - state.span_start) as usize,
            },
        )
    } else {
        state.closed
    }
}

/// One step of the walk, at the week with the given index and month.
///
/// The open month is closed when the month changes and, in year mode, at
/// the last week. In year mode a change of month also leaves empty labels
/// for the months that were skipped.
pub open spec fn walk_step(
    state: WalkState,
    month: YearMonth,
    week: int,
    last_week: bool,
    year_mode: bool,
) -> WalkState {
    if month != state.current || (year_mode && last_week) {
        WalkState {
            closed: if year_mode && month != state.current {
                close_span(state, week) + placeholders(
                    state.current.month0 as int,
                    month.month0 as int,
                )
            } else {
                close_span(state, week)
            },
            current: month,
            span_start: week,
        }
    } else {
        state
    }
}

/// The state of the walk after the first `weeks` weeks.
pub open spec fn walk_state(months: Seq<YearMonth>, year_mode: bool, weeks: nat) -> WalkState
    decreases weeks,
{
    if weeks == 0 {
        WalkState { closed: Seq::empty(), current: months[0], span_start: 0 }
    } else {
        walk_step(
            walk_state(months, year_mode, (weeks - 1) as nat),
            months[weeks - 1],
            weeks - 1,
            weeks == months.len(),
            year_mode,
        )
    }
}

/// The labels that the walk through all weeks produces, the last open
/// month included.
///
/// Outside year mode these are the labels of the runs of weeks. In year
/// mode the last week has a label of its own, and months that the walk
/// skips have empty labels.
pub open spec fn natural_spans(months: Seq<YearMonth>, year_mode: bool) -> Seq<MonthSpan> {
    let state = walk_state(months, year_mode, months.len());
    state.closed.push(
        MonthSpan {
            month: state.current.month0 as usize,
            weeks: (months.len() - state.span_start) as usize,
        },
    )
}

/// Lays out a date range in week columns under month labels.
///
/// The first column begins on `start`, and each further column seven days
/// after the one before, up to the column in which `end` falls.
pub fn compute_layout(start: Date, end: Date, year_mode: bool) -> (layout: CalendarLayout)
    requires
        start.wf(),
        end.wf(),
        start.days_from_ce <= end.days_from_ce,
    ensures
        layout.week_count == week_count_between(start, end),
        layout.month_spans@ == month_spans(
            week_months(start, layout.week_count as nat),
            year_mode,
        ),
        layout.month_spans@.len() >= 1,
        forall|i: int|
            0 <= i < layout.month_spans@.len() ==> (#[trigger] layout.month_spans@[i]).month < 12,
        year_mode ==> layout.month_spans@.len() == 12 && forall|month: int|
            0 <= month < 12 ==> (#[trigger] layout.month_spans@[month]).month == month,
        total_weeks(layout.month_spans@) == layout.week_count <==> (year_mode || leading_run(
            week_months(start, layout.week_count as nat),
        ) >= 3 || layout.week_count == 1),
{
    let week_count = count_weeks(start, end);
    let months = week_start_months(start, week_count);
    let month_spans = month_spans_for_weeks(months.as_slice(), year_mode);
    CalendarLayout { week_count, month_spans }
}

/// Counts the week columns of a range: one for every seven days begun.
pub fn count_weeks(start: Date, end: Date) -> (weeks: usize)
    requires
        start.wf(),
        end.wf(),
        start.days_from_ce <= end.days_from_ce,
    ensures
        weeks == week_count_between(start, end),
        weeks >= 1,
        start.day_number() + 7 * (weeks - 1) <= end.day_number(),
{
    let total_days: i64 = end.days_from_ce as i64 - start.days_from_ce as i64;
    (total_days / 7) as usize + 1
}

/// Reads off the calendar the month in which each week column begins.
pub fn week_start_months(start: Date, weeks: usize) -> (months: Vec<YearMonth>)
    requires
        start.wf(),
        start.day_number() + 7 * (weeks - 1) <= MAX_DAYS_FROM_CE,
    ensures
        months@ == week_months(start, weeks as nat),
        all_wf(months@),
{
    let mut months: Vec<YearMonth> = Vec::new();
    let mut week: usize = 0;
    while week < weeks
        invariant
            week <= weeks,
            start.wf(),
            start.day_number() + 7 * (weeks - 1) <= MAX_DAYS_FROM_CE,
            months@ == week_months(start, week as nat),
            all_wf(months@),
        decreases weeks - week,
    {
        let day: i64 = start.days_from_ce as i64 + 7 * (week as i64);
        let date = Date { days_from_ce: day as i32 };
        let month = date.to_year_month();
        months.push(month);
        week += 1;
        assert(months@ =~= week_months(start, week as nat));
    }
    months
}

/// Computes the month labels over week columns, given the month in which
/// each column begins.
///
/// In year mode the result has one label for each of the twelve months,
/// with the number of columns that begin in it. Otherwise the labels
/// follow the columns in order, and a first label of fewer than three
/// columns is left out. Where that leaves nothing, a single column is
/// labelled with the month of the first week.
pub fn month_spans_for_weeks(months: &[YearMonth], year_mode: bool) -> (spans: Vec<MonthSpan>)
    requires
        months@.len() >= 1,
        all_wf(months@),
    ensures
        spans@ == month_spans(months@, year_mode),
        spans@.len() >= 1,
        forall|i: int| 0 <= i < spans@.len() ==> (#[trigger] spans@[i]).month < 12,
        year_mode ==> spans@.len() == 12 && forall|month: int|
            0 <= month < 12 ==> (#[trigger] spans@[month]).month == month,
        total_weeks(spans@) == months@.len() <==> (year_mode || leading_run(months@) >= 3
            || months@.len() == 1),
{
    let week_count = months.len();
    proof {
        lemma_natural_spans_cover_weeks(months@, year_mode);
        lemma_month_spans_cover_weeks(months@, year_mode);
        lemma_month_spans_valid(months@, year_mode);
        lemma_year_mode_spans(months@);
        if year_mode {
            lemma_walk_counts_weeks(months@);
        } else {
            lemma_walk_labels_runs(months@);
        }
    }
    let mut spans = walk_month_spans(months, year_mode);
    if year_mode {
        spans = spans_by_month(spans.as_slice());
    } else {
        if spans[0].weeks < 3 {
            let ghost natural = spans@;
            spans.remove(0);
            assert(spans@ =~= natural.drop_first());
        }
        if spans.len() == 0 {
            spans.push(MonthSpan { month: months[0].month0 as usize, weeks: 1 });
            assert(spans@ =~= seq![MonthSpan { month: months@[0].month0 as usize, weeks: 1 }]);
        }
    }
    spans
}

/// Walks through the weeks and labels each run of weeks that begin in the
/// same month of the same year.
///
/// In year mode the walk also closes the open label at the last week, and
/// leaves an empty label for every month that it skips.
pub fn walk_month_spans(months: &[YearMonth], year_mode: bool) -> (spans: Vec<MonthSpan>)
    requires
        months@.len() >= 1,
        all_wf(months@),
    ensures
        spans@ == natural_spans(months@, year_mode),
{
    let week_count = months.len();
    let mut spans: Vec<MonthSpan> = Vec::new();
    let mut current = months[0];
    let mut span_start: usize = 0;
    let mut week: usize = 0;
    while week < week_count
        invariant
            week <= week_count,
            week_count == months@.len(),
            week_count >= 1,
            all_wf(months@),
            span_start <= week,
            current.wf(),
            walk_state(months@, year_mode, week as nat) == (WalkState {
                closed: spans@,
                current,
                span_start: span_start as int,
            }),
        decreases week_count - week,
    {
        let month = months[week];
        assert(month.wf());
        let ghost before = walk_state(months@, year_mode, week as nat);
        if month != current || (year_mode && week == week_count - 1) {
            let span = week - span_start;
            if span > 0 {
                spans.push(MonthSpan { month: current.month0 as usize, weeks: span });
            }
            assert(spans@ == close_span(before, week as int));
            if year_mode && month != current {
                let ghost closed = spans@;
                let ghost from = current.month0 as int;
                let ghost to = month.month0 as int;
                let ghost mut skipped: int = 0;
                let mut next_month: u32 = (current.month0 + 1) % 12;
                while next_month != month.month0
                    invariant
                        0 <= from < 12,
                        0 <= to < 12,
                        to == month.month0,
                        0 <= skipped <= months_skipped(from, to),
                        next_month == (from + 1 + skipped) % 12,
                        spans@ == closed + placeholders(from, to).take(skipped),
                    decreases months_skipped(from, to) - skipped,
                {
                    spans.push(MonthSpan { month: next_month as usize, weeks: 0 });
                    next_month = (next_month + 1) % 12;
                    proof {
                        assert(placeholders(from, to).take(skipped + 1) =~= placeholders(
                            from,
                            to,
                        ).take(skipped).push(placeholders(from, to)[skipped]));
                        skipped = skipped + 1;
                    }
                }
                assert(skipped == months_skipped(from, to));
                assert(placeholders(from, to).take(skipped) =~= placeholders(from, to));
            }
            current = month;
            span_start = week;
        }
        week += 1;
    }
    spans.push(MonthSpan { month: current.month0 as usize, weeks: week_count - span_start });
    spans
}

/// Gathers labels into the twelve labels of a year: each month from
/// January to December, with all the columns that the labels give it.
pub fn spans_by_month(spans: &[MonthSpan]) -> (year: Vec<MonthSpan>)
    requires
        forall|i: int| 0 <= i < spans@.len() ==> (#[trigger] spans@[i]).month < 12,
        total_weeks(spans@) <= usize::MAX,
    ensures
        year@ == by_month(spans@),
{
    let mut year: Vec<MonthSpan> = Vec::new();
    let mut month: usize = 0;
    while month < 12
        invariant
            month <= 12,
            year@.len() == month,
            forall|m: int| 0 <= m < month ==> year@[m] == (MonthSpan { month: m as usize, weeks: 0 }),
        decreases 12 - month,
    {
        year.push(MonthSpan { month, weeks: 0 });
        month += 1;
    }
    let mut i: usize = 0;
    while i < spans.len()
        invariant
            i <= spans.len(),
            year@.len() == 12,
            forall|j: int| 0 <= j < spans@.len() ==> (#[trigger] spans@[j]).month < 12,
            total_weeks(spans@) <= usize::MAX,
            forall|m: int|
                0 <= m < 12 ==> year@[m] == (MonthSpan {
                    month: m as usize,
                    weeks: weeks_in_month(spans@.take(i as int), m) as usize,
                }),
        decreases spans.len() - i,
    {
        let span = spans[i];
        let slot = year[span.month];
        proof {
            let read = spans@.take(i as int);
            let next = spans@.take(i + 1);
            assert(next.drop_last() =~= read);
            assert(next.last() == span);
            assert(next + spans@.skip(i + 1) =~= spans@);
            lemma_total_weeks_concat(next, spans@.skip(i + 1));
            lemma_total_weeks_nonnegative(spans@.skip(i + 1));
            assert forall|j: int| 0 <= j < next.len() implies (#[trigger] next[j]).month < 12 by {
                assert(next[j] == spans@[j]);
            }
            assert forall|j: int| 0 <= j < read.len() implies (#[trigger] read[j]).month < 12 by {
                assert(read[j] == spans@[j]);
            }
            lemma_weeks_in_year(next);
            lemma_weeks_in_year(read);
            assert(0 <= weeks_in_month(read, span.month as int) <= total_weeks(read));
            assert(0 <= weeks_in_month(next, span.month as int) <= total_weeks(next));
            assert forall|m: int| 0 <= m < 12 implies 0 <= #[trigger] weeks_in_month(next, m)
                <= usize::MAX by {
                assert(0 <= weeks_in_month(next, m) <= total_weeks(next));
            }
        }
        year.set(span.month, MonthSpan { month: span.month, weeks: slot.weeks + span.weeks });
        i += 1;
    }
    assert(spans@.take(i as int) =~= spans@);
    assert(year@ =~= by_month(spans@));
    year
}

/// The columns under the month labels add up to the number of week
/// columns in year mode, and otherwise exactly when no week is lost with a
/// narrow first label: when three weeks or more at the start begin in the
/// month of the first week, or the range has a single week.
pub proof fn lemma_month_spans_cover_weeks(months: Seq<YearMonth>, year_mode: bool)
    requires
        1 <= months.len() <= usize::MAX,
        all_wf(months),
    ensures
        total_weeks(month_spans(months, year_mode)) == months.len() <==> (year_mode || leading_run(
            months,
        ) >= 3 || months.len() == 1),
{
    lemma_natural_spans_cover_weeks(months, year_mode);
    let natural = natural_spans(months, year_mode);
    if year_mode {
        lemma_walk_counts_weeks(months);
        lemma_by_month_total(natural);
    } else {
        lemma_walk_labels_runs(months);
        lemma_first_run(months);
        let fallback = seq![MonthSpan { month: months[0].month0 as usize, weeks: 1 }];
        assert(total_weeks(fallback) == 1) by {
            assert(fallback.drop_last() =~= Seq::<MonthSpan>::empty());
            reveal_with_fuel(total_weeks, 2);
        }
        lemma_total_weeks_drop_first(natural);
        if natural[0].weeks < 3 {
            let rest = natural.drop_first();
            if natural.len() == 1 {
                assert(rest =~= Seq::<MonthSpan>::empty());
            } else {
                assert(rest.last() == natural.last());
                lemma_total_weeks_nonnegative(rest.drop_last());
                assert(total_weeks(rest) >= 1);
            }
        }
    }
}

/// In year mode there are twelve labels, one for each month from January
/// to December, in that order.
pub proof fn lemma_year_mode_spans(months: Seq<YearMonth>)
    ensures
        month_spans(months, true).len() == 12,
        forall|month: int| 0 <= month < 12 ==> (#[trigger] month_spans(months, true)[month]).month
            == month,
{
}

/// The number of weeks that begin in a month is not negative, and the
/// twelve months together have all the weeks.
pub proof fn lemma_year_mode_counts_weeks(months: Seq<YearMonth>, month: int)
    requires
        1 <= months.len() <= usize::MAX,
        all_wf(months),
        0 <= month < 12,
    ensures
        0 <= weeks_beginning_in(months, month) <= months.len(),
        month_spans(months, true)[month].weeks == weeks_beginning_in(months, month),
{
    lemma_walk_counts(months, true, months.len(), month);
    lemma_walk_state(months, true, months.len());
    lemma_natural_spans_cover_weeks(months, true);
    let state = walk_state(months, true, months.len());
    let natural = natural_spans(months, true);
    assert(natural.drop_last() =~= state.closed);
    assert(months.take(months.len() as int) =~= months);
    assert(weeks_in_month(natural, month) == weeks_beginning_in(months, month));
    lemma_weeks_in_year(natural);
    assert(0 <= weeks_in_month(natural, month) <= total_weeks(natural));
}

/// Outside year mode a first label of fewer than three columns is left
/// out. Where fewer than three weeks at the start begin in the month of
/// the first week, the labels are those of the runs from the second run
/// on, or, where there is no second run, one column for the month of the
/// first week.
pub proof fn lemma_narrow_lead_is_dropped(months: Seq<YearMonth>)
    requires
        1 <= months.len() <= usize::MAX,
        all_wf(months),
        leading_run(months) < 3,
    ensures
        month_runs(months).len() > 1 ==> month_spans(months, false) == month_runs(
            months,
        ).drop_first(),
        month_runs(months).len() == 1 ==> month_spans(months, false)
            == seq![MonthSpan { month: months[0].month0 as usize, weeks: 1 }],
{
    lemma_month_runs(months);
    lemma_first_run(months);
}

/// The first run is the leading run: its label is that of the month of
/// the first week, over the weeks at the start of the range that begin in
/// it.
pub proof fn lemma_first_run(months: Seq<YearMonth>)
    requires
        1 <= months.len() <= usize::MAX,
    ensures
        1 <= leading_run(months) <= months.len(),
        month_runs(months).len() >= 1,
        month_runs(months)[0] == (MonthSpan {
            month: months[0].month0 as usize,
            weeks: leading_run(months) as usize,
        }),
{
    lemma_run_end(months, 0);
    lemma_run_end(months, 1);
    lemma_walk_leading_run(months, months.len());
    lemma_walk_labels_runs(months);
}

/// The runs cover every week once: their columns add up to the number of
/// weeks. Every run has a column, and its label is of a valid month.
pub proof fn lemma_month_runs(months: Seq<YearMonth>)
    requires
        1 <= months.len() <= usize::MAX,
        all_wf(months),
    ensures
        month_runs(months).len() >= 1,
        total_weeks(month_runs(months)) == months.len(),
        forall|i: int|
            0 <= i < month_runs(months).len() ==> (#[trigger] month_runs(months)[i]).month < 12 && (
            month_runs(months)[i]).weeks >= 1,
{
    lemma_walk_labels_runs(months);
    lemma_natural_spans_cover_weeks(months, false);
}

/// Every month label is of one of the twelve months.
pub proof fn lemma_month_spans_valid(months: Seq<YearMonth>, year_mode: bool)
    requires
        1 <= months.len() <= usize::MAX,
        all_wf(months),
    ensures
        month_spans(months, year_mode).len() >= 1,
        forall|i: int|
            0 <= i < month_spans(months, year_mode).len() ==> (#[trigger] month_spans(
                months,
                year_mode,
            )[i]).month < 12,
{
    lemma_month_runs(months);
    let runs = month_runs(months);
    let spans = month_spans(months, year_mode);
    assert forall|i: int| 0 <= i < spans.len() implies (#[trigger] spans[i]).month < 12 by {
        if !year_mode && without_narrow_lead(runs).len() != 0 && runs[0].weeks < 3 {
            assert(spans[i] == runs[i + 1]);
        }
    }
}

/// Outside year mode the walk labels the runs of weeks.
pub proof fn lemma_walk_labels_runs(months: Seq<YearMonth>)
    requires
        1 <= months.len() <= usize::MAX,
    ensures
        natural_spans(months, false) == month_runs(months),
{
    lemma_walk_runs(months, months.len());
    assert(months.take(months.len() as int) =~= months);
}

/// In year mode the labels of the walk, gathered by month, are the labels
/// of the year: each month has as many columns as there are weeks that
/// begin in it.
pub proof fn lemma_walk_counts_weeks(months: Seq<YearMonth>)
    requires
        1 <= months.len() <= usize::MAX,
        all_wf(months),
    ensures
        by_month(natural_spans(months, true)) == year_spans(months),
{
    lemma_walk_state(months, true, months.len());
    let state = walk_state(months, true, months.len());
    let natural = natural_spans(months, true);
    assert(natural.drop_last() =~= state.closed);
    assert(months.take(months.len() as int) =~= months);
    assert forall|month: int| 0 <= month < 12 implies by_month(natural)[month] == year_spans(
        months,
    )[month] by {
        lemma_walk_counts(months, true, months.len(), month);
    }
    assert(by_month(natural) =~= year_spans(months));
}

/// The labels of the walk cover every week column once: their columns add
/// up to the number of weeks. The labels are of valid months, and outside
/// year mode none of them is empty.
pub proof fn lemma_natural_spans_cover_weeks(months: Seq<YearMonth>, year_mode: bool)
    requires
        1 <= months.len() <= usize::MAX,
        all_wf(months),
    ensures
        total_weeks(natural_spans(months, year_mode)) == months.len(),
        natural_spans(months, year_mode).len() >= 1,
        forall|i: int|
            0 <= i < natural_spans(months, year_mode).len() ==> (#[trigger] natural_spans(
                months,
                year_mode,
            )[i]).month < 12,
        !year_mode ==> forall|i: int|
            0 <= i < natural_spans(months, year_mode).len() ==> (#[trigger] natural_spans(
                months,
                year_mode,
            )[i]).weeks >= 1,
{
    lemma_walk_state(months, year_mode, months.len());
    let state = walk_state(months, year_mode, months.len());
    assert(natural_spans(months, year_mode).drop_last() =~= state.closed);
}

/// What holds of the walk after any number of weeks: the closed labels
/// cover the weeks before the open month, whose label begins no later than
/// the week that was read last.
proof fn lemma_walk_state(months: Seq<YearMonth>, year_mode: bool, weeks: nat)
    requires
        1 <= months.len() <= usize::MAX,
        weeks <= months.len(),
        all_wf(months),
    ensures
        0 <= walk_state(months, year_mode, weeks).span_start <= weeks,
        weeks >= 1 ==> walk_state(months, year_mode, weeks).span_start < weeks,
        walk_state(months, year_mode, weeks).current.wf(),
        total_weeks(walk_state(months, year_mode, weeks).closed) == walk_state(
            months,
            year_mode,
            weeks,
        ).span_start,
        forall|i: int|
            0 <= i < walk_state(months, year_mode, weeks).closed.len() ==> (#[trigger] walk_state(
                months,
                year_mode,
                weeks,
            ).closed[i]).month < 12,
        !year_mode ==> forall|i: int|
            0 <= i < walk_state(months, year_mode, weeks).closed.len() ==> (#[trigger] walk_state(
                months,
                year_mode,
                weeks,
            ).closed[i]).weeks >= 1,
    decreases weeks,
{
    if weeks > 0 {
        let before = walk_state(months, year_mode, (weeks - 1) as nat);
        let month = months[weeks - 1];
        let week = weeks - 1;
        lemma_walk_state(months, year_mode, (weeks - 1) as nat);
        assert(month.wf());
        let closed = close_span(before, week);
        assert(total_weeks(closed) == week) by {
            if week - before.span_start > 0 {
                assert(closed.drop_last() =~= before.closed);
            }
        }
        let gap = placeholders(before.current.month0 as int, month.month0 as int);
        lemma_total_weeks_concat(closed, gap);
        lemma_total_weeks_none(gap);
    }
}

/// The columns that the open label has for a month after `weeks` weeks.
spec fn open_weeks(state: WalkState, weeks: int, month: int) -> int {
    if state.current.month0 == month {
        weeks - state.span_start
    } else {
        0
    }
}

/// After any number of weeks, the closed labels and the open one together
/// give each month the weeks that began in it.
proof fn lemma_walk_counts(months: Seq<YearMonth>, year_mode: bool, weeks: nat, month: int)
    requires
        1 <= months.len() <= usize::MAX,
        weeks <= months.len(),
        all_wf(months),
    ensures
        weeks_in_month(walk_state(months, year_mode, weeks).closed, month) + open_weeks(
            walk_state(months, year_mode, weeks),
            weeks as int,
            month,
        ) == weeks_beginning_in(months.take(weeks as int), month),
    decreases weeks,
{
    if weeks > 0 {
        let before = walk_state(months, year_mode, (weeks - 1) as nat);
        let week = weeks - 1;
        lemma_walk_counts(months, year_mode, (weeks - 1) as nat, month);
        lemma_walk_state(months, year_mode, (weeks - 1) as nat);
        assert(months.take(weeks as int).drop_last() =~= months.take(week));
        assert(months.take(weeks as int).last() == months[week]);
        let closed = close_span(before, week);
        assert(weeks_in_month(closed, month) == weeks_in_month(before.closed, month) + open_weeks(
            before,
            week,
            month,
        )) by {
            if week - before.span_start > 0 {
                assert(closed.drop_last() =~= before.closed);
            }
        }
        let gap = placeholders(before.current.month0 as int, months[week].month0 as int);
        lemma_weeks_in_month_concat(closed, gap, month);
        lemma_weeks_in_month_none(gap, month);
    } else {
        assert(months.take(0) =~= Seq::<YearMonth>::empty());
    }
}

/// Outside year mode, after one week or more, the closed labels and the
/// open one are the labels of the runs of the weeks so far.
proof fn lemma_walk_runs(months: Seq<YearMonth>, weeks: nat)
    requires
        1 <= weeks <= months.len() <= usize::MAX,
    ensures
        walk_state(months, false, weeks).current == months[weeks - 1],
        0 <= walk_state(months, false, weeks).span_start < weeks,
        month_runs(months.take(weeks as int)) == walk_state(months, false, weeks).closed.push(
            MonthSpan {
                month: walk_state(months, false, weeks).current.month0 as usize,
                weeks: (weeks - walk_state(months, false, weeks).span_start) as usize,
            },
        ),
    decreases weeks,
{
    let read = months.take(weeks as int);
    assert(read.last() == months[weeks - 1]);
    if weeks == 1 {
        assert(read.drop_last() =~= Seq::<YearMonth>::empty());
        assert(month_runs(read) =~= seq![MonthSpan { month: months[0].month0 as usize, weeks: 1 }])
            by {
            reveal_with_fuel(month_runs, 2);
        }
        assert(walk_state(months, false, 1) == walk_state(months, false, 0)) by {
            reveal_with_fuel(walk_state, 2);
        }
    } else {
        lemma_walk_runs(months, (weeks - 1) as nat);
        let before = walk_state(months, false, (weeks - 1) as nat);
        assert(read.drop_last() =~= months.take(weeks - 1));
        assert(read[read.len() - 2] == months[weeks - 2]);
        let earlier = month_runs(months.take(weeks - 1));
        if months[weeks - 1] == before.current {
            assert(month_runs(read) =~= walk_state(months, false, weeks).closed.push(
                MonthSpan {
                    month: before.current.month0 as usize,
                    weeks: (weeks - before.span_start) as usize,
                },
            ));
        }
    }
}

/// The weeks before the end of a run begin in the month of the first
/// week, and the week at its end does not.
proof fn lemma_run_end(months: Seq<YearMonth>, from: nat)
    requires
        from <= months.len(),
    ensures
        from <= run_end(months, from) <= months.len(),
        forall|i: int| from <= i < run_end(months, from) ==> #[trigger] months[i] == months[0],
        run_end(months, from) < months.len() ==> months[run_end(months, from) as int] != months[0],
    decreases months.len() - from,
{
    if from < months.len() && months[from as int] == months[0] {
        lemma_run_end(months, from + 1);
    }
}

/// Outside year mode the walk has closed no label while it is in the
/// leading run, and after that its first label is that of the leading
/// run.
proof fn lemma_walk_leading_run(months: Seq<YearMonth>, weeks: nat)
    requires
        1 <= months.len() <= usize::MAX,
        weeks <= months.len(),
    ensures
        weeks <= leading_run(months) ==> walk_state(months, false, weeks) == (WalkState {
            closed: Seq::empty(),
            current: months[0],
            span_start: 0,
        }),
        weeks > leading_run(months) ==> walk_state(months, false, weeks).closed.len() >= 1
            && walk_state(months, false, weeks).closed[0] == (MonthSpan {
            month: months[0].month0 as usize,
            weeks: leading_run(months) as usize,
        }),
    decreases weeks,
{
    lemma_run_end(months, 0);
    if weeks > 0 {
        lemma_walk_leading_run(months, (weeks - 1) as nat);
    }
}

/// A total of columns is never negative.
proof fn lemma_total_weeks_nonnegative(spans: Seq<MonthSpan>)
    ensures
        total_weeks(spans) >= 0,
    decreases spans.len(),
{
    if spans.len() > 0 {
        lemma_total_weeks_nonnegative(spans.drop_last());
    }
}

/// Labels without columns add nothing to the total.
proof fn lemma_total_weeks_none(spans: Seq<MonthSpan>)
    requires
        forall|i: int| 0 <= i < spans.len() ==> (#[trigger] spans[i]).weeks == 0,
    ensures
        total_weeks(spans) == 0,
    decreases spans.len(),
{
    if spans.len() > 0 {
        lemma_total_weeks_none(spans.drop_last());
    }
}

/// The total over two lists of labels is the sum of their totals.
proof fn lemma_total_weeks_concat(a: Seq<MonthSpan>, b: Seq<MonthSpan>)
    ensures
        total_weeks(a + b) == total_weeks(a) + total_weeks(b),
    decreases b.len(),
{
    if b.len() == 0 {
        assert(a + b =~= a);
    } else {
        assert((a + b).drop_last() =~= a + b.drop_last());
        lemma_total_weeks_concat(a, b.drop_last());
    }
}

/// The total without the first label.
proof fn lemma_total_weeks_drop_first(spans: Seq<MonthSpan>)
    requires
        spans.len() >= 1,
    ensures
        total_weeks(spans.drop_first()) == total_weeks(spans) - spans[0].weeks,
{
    let head = seq![spans[0]];
    assert(head + spans.drop_first() =~= spans);
    lemma_total_weeks_concat(head, spans.drop_first());
    assert(head.drop_last() =~= Seq::<MonthSpan>::empty());
    assert(total_weeks(head) == spans[0].weeks) by {
        reveal_with_fuel(total_weeks, 2);
    }
}

/// Labels without columns give no month a column.
proof fn lemma_weeks_in_month_none(spans: Seq<MonthSpan>, month: int)
    requires
        forall|i: int| 0 <= i < spans.len() ==> (#[trigger] spans[i]).weeks == 0,
    ensures
        weeks_in_month(spans, month) == 0,
    decreases spans.len(),
{
    if spans.len() > 0 {
        lemma_weeks_in_month_none(spans.drop_last(), month);
    }
}

/// The columns of one month over two lists of labels are the sum of its
/// columns in each.
proof fn lemma_weeks_in_month_concat(a: Seq<MonthSpan>, b: Seq<MonthSpan>, month: int)
    ensures
        weeks_in_month(a + b, month) == weeks_in_month(a, month) + weeks_in_month(b, month),
    decreases b.len(),
{
    if b.len() == 0 {
        assert(a + b =~= a);
    } else {
        assert((a + b).drop_last() =~= a + b.drop_last());
        lemma_weeks_in_month_concat(a, b.drop_last(), month);
    }
}

/// The columns of the twelve months together.
spec fn weeks_in_year(spans: Seq<MonthSpan>) -> int {
    weeks_in_month(spans, 0) + weeks_in_month(spans, 1) + weeks_in_month(spans, 2)
        + weeks_in_month(spans, 3) + weeks_in_month(spans, 4) + weeks_in_month(spans, 5)
        + weeks_in_month(spans, 6) + weeks_in_month(spans, 7) + weeks_in_month(spans, 8)
        + weeks_in_month(spans, 9) + weeks_in_month(spans, 10) + weeks_in_month(spans, 11)
}

/// Labels of valid months give every column to one of the twelve months,
/// and no month gets more columns than there are.
proof fn lemma_weeks_in_year(spans: Seq<MonthSpan>)
    requires
        forall|i: int| 0 <= i < spans.len() ==> (#[trigger] spans[i]).month < 12,
    ensures
        weeks_in_year(spans) == total_weeks(spans),
        forall|month: int| 0 <= #[trigger] weeks_in_month(spans, month) <= total_weeks(spans),
    decreases spans.len(),
{
    if spans.len() > 0 {
        lemma_weeks_in_year(spans.drop_last());
        assert forall|month: int| 0 <= #[trigger] weeks_in_month(spans, month) <= total_weeks(
            spans,
        ) by {
            assert(0 <= weeks_in_month(spans.drop_last(), month) <= total_weeks(
                spans.drop_last(),
            ));
        }
    } else {
        assert forall|month: int| 0 <= #[trigger] weeks_in_month(spans, month) <= total_weeks(
            spans,
        ) by {}
    }
}

/// The columns under the first `k` labels.
spec fn sum_weeks(spans: Seq<MonthSpan>, k: int) -> int
    decreases k,
{
    if k <= 0 {
        0
    } else {
        sum_weeks(spans, k - 1) + spans[k - 1].weeks
    }
}

/// The total over the first `k` labels of a whole year.
proof fn lemma_total_weeks_take(year: Seq<MonthSpan>, k: int)
    requires
        0 <= k <= year.len(),
    ensures
        total_weeks(year.take(k)) == total_weeks(year.take(0)) + sum_weeks(year, k),
    decreases k,
{
    if k > 0 {
        lemma_total_weeks_take(year, k - 1);
        assert(year.take(k).drop_last() =~= year.take(k - 1));
    }
}

/// The total over the labels of a whole year is the total over the labels
/// they were made from.
proof fn lemma_by_month_total(spans: Seq<MonthSpan>)
    requires
        forall|i: int| 0 <= i < spans.len() ==> (#[trigger] spans[i]).month < 12,
        total_weeks(spans) <= usize::MAX,
    ensures
        total_weeks(by_month(spans)) == total_weeks(spans),
{
    lemma_weeks_in_year(spans);
    let year = by_month(spans);
    assert forall|m: int| 0 <= m < 12 implies (#[trigger] year[m]).weeks == weeks_in_month(
        spans,
        m,
    ) by {
        assert(0 <= weeks_in_month(spans, m) <= total_weeks(spans));
    }
    lemma_total_weeks_take(year, 12);
    assert(year.take(12) =~= year);
    assert(sum_weeks(year, 12) == weeks_in_year(spans)) by {
        reveal_with_fuel(sum_weeks, 13);
    }
    assert(total_weeks(year.take(0)) == 0);
}

} // verus!
