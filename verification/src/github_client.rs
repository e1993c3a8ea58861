//! Reading the activity calendar that the service answers with.
//!
//! The answer holds a total and, week by week, the days of the period
//! with their counts. From the days follow the daily series, the longest
//! and the current streak, and the highest count of a day.

use crate::contribution_analyzer::ContributionData;
use crate::date::{parse_iso_date, Date};
use crate::errors::FetchError;
use crate::palette::{decimal_value, is_digit};
use core::num::ParseIntError;
use vstd::prelude::*;
use vstd::string::*;

verus! {

/// A day of the answer: each part may be missing.
pub struct RawDay {
    pub count: Option<u64>,
    pub date: Option<String>,
}

/// A week of the answer, with its days if it lists any.
pub struct RawWeek {
    pub days: Option<Vec<RawDay>>,
}

/// The calendar of the answer.
pub struct RawCalendar {
    pub total: Option<u64>,
    pub weeks: Option<Vec<RawWeek>>,
}

/// The period of a calendar year, as the two instants between which the
/// service is asked for activity.
pub struct YearWindow {
    pub from: String,
    pub to: String,
}

/// The days that a week lists.
pub open spec fn week_days(week: RawWeek) -> Seq<RawDay> {
    match week.days {
        Some(days) => days@,
        None => Seq::empty(),
    }
}

/// The days of some weeks, in order.
pub open spec fn days_of(weeks: Seq<RawWeek>) -> Seq<RawDay>
    decreases weeks.len(),
{
    if weeks.len() == 0 {
        Seq::empty()
    } else {
        days_of(weeks.drop_last()) + week_days(weeks.last())
    }
}

/// The days of a calendar, in order.
pub open spec fn calendar_days(calendar: RawCalendar) -> Seq<RawDay> {
    match calendar.weeks {
        Some(weeks) => days_of(weeks@),
        None => Seq::empty(),
    }
}

/// The entry of the daily series that a day of the answer makes: its date
/// and its count. A day without count or date is malformed; a date text
/// that denotes no date is an error of its own.
pub open spec fn day_entry(day: RawDay) -> Result<(Date, u32), FetchError> {
    match (day.count, day.date) {
        (Some(count), Some(text)) => match Date::from_iso(text@) {
            Some(date) => Ok((date, #[verifier::truncate] (count as u32))),
            None => Err(FetchError::DateCreationError),
        },
        _ => Err(FetchError::UnexpectedResponseFormat),
    }
}

/// The daily series that the days of the answer make, or the error of
/// the first day that makes no entry.
pub open spec fn day_entries(days: Seq<RawDay>) -> Result<Seq<(Date, u32)>, FetchError>
    decreases days.len(),
{
    if days.len() == 0 {
        Ok(Seq::empty())
    } else {
        match day_entries(days.drop_last()) {
            Ok(before) => match day_entry(days.last()) {
                Ok(entry) => Ok(before.push(entry)),
                Err(error) => Err(error),
            },
            Err(error) => Err(error),
        }
    }
}

/// What reading a calendar gives: the error of a calendar without total,
/// else the error of its first unreadable day, else the series.
pub open spec fn calendar_series(calendar: RawCalendar) -> Result<Seq<(Date, u32)>, FetchError> {
    if calendar.total is None {
        Err(FetchError::UnexpectedResponseFormat)
    } else {
        day_entries(calendar_days(calendar))
    }
}

/// The number of days with activity at the end of a series, back to the
/// last day without.
pub open spec fn trailing_streak(series: Seq<(Date, u32)>) -> nat
    decreases series.len(),
{
    if series.len() == 0 || series.last().1 == 0 {
        0
    } else {
        trailing_streak(series.drop_last()) + 1
    }
}

/// The length of the longest run of days with activity.
pub open spec fn longest_streak(series: Seq<(Date, u32)>) -> nat
    decreases series.len(),
{
    if series.len() == 0 {
        0
    } else if longest_streak(series.drop_last()) >= trailing_streak(series) {
        longest_streak(series.drop_last())
    } else {
        trailing_streak(series)
    }
}

/// The highest count of a day, or zero for an empty series.
pub open spec fn max_count(series: Seq<(Date, u32)>) -> u32
    decreases series.len(),
{
    if series.len() == 0 {
        0
    } else if max_count(series.drop_last()) >= series.last().1 {
        max_count(series.drop_last())
    } else {
        series.last().1
    }
}

/// The digits of a year text, after its sign.
pub open spec fn year_digits(text: Seq<char>) -> Seq<char> {
    if text.len() > 0 && (text[0] == '+' || text[0] == '-') {
        text.drop_first()
    } else {
        text
    }
}

/// The number that a year text denotes: one or more decimal digits after
/// an optional sign, with a value that fits in 32 bits.
pub open spec fn year_number(text: Seq<char>) -> Option<int> {
    let digits = year_digits(text);
    let value = if text.len() > 0 && text[0] == '-' {
        -decimal_value(digits)
    } else {
        decimal_value(digits)
    };
    if digits.len() > 0 && (forall|i: int| 0 <= i < digits.len() ==> is_digit(#[trigger] digits[i]))
        && i32::MIN <= value <= i32::MAX {
        Some(value)
    } else {
        None
    }
}

/// The decimal digit for a number below ten.
pub open spec fn digit_char(digit: int) -> char {
    ('0' as int + digit) as char
}

/// The decimal digits of a natural number, without leading zeros.
pub open spec fn decimal_digits(n: nat) -> Seq<char>
    decreases n,
{
    if n < 10 {
        seq![digit_char(n as int)]
    } else {
        decimal_digits(n / 10).push(digit_char((n % 10) as int))
    }
}

/// A number in decimal digits, with a minus sign where it is negative.
pub open spec fn decimal(n: int) -> Seq<char> {
    if n < 0 {
        seq!['-'] + decimal_digits((-n) as nat)
    } else {
        decimal_digits(n as nat)
    }
}

/// The first instant of a year.
pub open spec fn year_start(year: int) -> Seq<char> {
    decimal(year) + "-01-01T00:00:00Z"@
}

/// The last second of a year.
pub open spec fn year_end(year: int) -> Seq<char> {
    decimal(year) + "-12-31T23:59:59Z"@
}

/// Reads the calendar of an answer.
///
/// The total and every count are kept in 32 bits. The series holds the
/// days in the order of the answer; the summary figures follow from it.
/// A calendar without total is malformed, and so is a day without count
/// or date; the first such day decides.
#[verifier::loop_isolation(false)]
pub fn parse_contribution_data(calendar: &RawCalendar) -> (data: Result<
    ContributionData,
    FetchError,
>)
    requires
        calendar_days(*calendar).len() <= u32::MAX,
    ensures
        match data {
            Ok(data) => {
                &&& calendar_series(*calendar) == Ok::<Seq<(Date, u32)>, FetchError>(
                    data.daily_contributions@,
                )
                &&& calendar.total matches Some(total) && data.total == #[verifier::truncate]
                (total as u32)
                &&& data.longest_streak == longest_streak(data.daily_contributions@)
                &&& data.current_streak == trailing_streak(data.daily_contributions@)
                &&& data.max_contributions == max_count(data.daily_contributions@)
                &&& forall|i: int|
                    0 <= i < data.daily_contributions@.len()
                        ==> (#[trigger] data.daily_contributions@[i]).0.wf()
            },
            Err(error) => calendar_series(*calendar) == Err::<Seq<(Date, u32)>, FetchError>(error),
        },
{
    let total = match calendar.total {
        Some(total) => #[verifier::truncate]
        (total as u32),
        None => {
            return Err(FetchError::UnexpectedResponseFormat);
        },
    };
    let mut daily_contributions: Vec<(Date, u32)> = Vec::new();
    let mut longest: u32 = 0;
    let mut max_contributions: u32 = 0;
    let mut streak: u32 = 0;
    if let Some(weeks) = &calendar.weeks {
        let mut w: usize = 0;
        while w < weeks.len()
            invariant
                w <= weeks.len(),
                days_of(weeks@).len() <= u32::MAX,
                day_entries(days_of(weeks@.take(w as int))) == Ok::<
                    Seq<(Date, u32)>,
                    FetchError,
                >(daily_contributions@),
                longest == longest_streak(daily_contributions@),
                streak == trailing_streak(daily_contributions@),
                max_contributions == max_count(daily_contributions@),
                forall|i: int|
                    0 <= i < daily_contributions@.len() ==> (#[trigger] daily_contributions@[i]).0.wf(),
            decreases weeks.len() - w,
        {
            let ghost before = days_of(weeks@.take(w as int));
            let ghost after = days_of(weeks@.skip(w + 1));
            proof {
                assert(weeks@.take(w + 1).drop_last() =~= weeks@.take(w as int));
                assert(weeks@.take(w + 1).last() == weeks@[w as int]);
                assert(weeks@.take(w + 1) + weeks@.skip(w + 1) =~= weeks@);
                lemma_days_of_concat(weeks@.take(w + 1), weeks@.skip(w + 1));
                assert(days_of(weeks@) == before + week_days(weeks@[w as int]) + after);
            }
            if let Some(days) = &weeks[w].days {
                let mut d: usize = 0;
                assert(before + days@.take(0) =~= before);
                while d < days.len()
                    invariant
                        d <= days.len(),
                        before.len() + days@.len() <= u32::MAX,
                        day_entries(before + days@.take(d as int)) == Ok::<
                            Seq<(Date, u32)>,
                            FetchError,
                        >(daily_contributions@),
                        longest == longest_streak(daily_contributions@),
                        streak == trailing_streak(daily_contributions@),
                        max_contributions == max_count(daily_contributions@),
                        forall|i: int|
                            0 <= i < daily_contributions@.len()
                                ==> (#[trigger] daily_contributions@[i]).0.wf(),
                    decreases days.len() - d,
                {
                    let day = &days[d];
                    let ghost read = before + days@.take(d as int);
                    let ghost next = before + days@.take(d + 1);
                    proof {
                        assert(next.drop_last() =~= read);
                        assert(next.last() == days@[d as int]);
                        assert(next + (days@.skip(d + 1) + after) =~= before + days@ + after);
                        lemma_day_entries_prefix(next, days@.skip(d + 1) + after);
                        lemma_day_entries_len(read);
                        lemma_streak_bounds(daily_contributions@);
                    }
                    let count = match day.count {
                        Some(count) => #[verifier::truncate]
                        (count as u32),
                        None => {
                            return Err(FetchError::UnexpectedResponseFormat);
                        },
                    };
                    let text = match &day.date {
                        Some(text) => text,
                        None => {
                            return Err(FetchError::UnexpectedResponseFormat);
                        },
                    };
                    let date = match parse_iso_date(text.as_str()) {
                        Some(date) => date,
                        None => {
                            return Err(FetchError::DateCreationError);
                        },
                    };
                    let ghost series = daily_contributions@;
                    daily_contributions.push((date, count));
                    assert(daily_contributions@.drop_last() =~= series);
                    if count > 0 {
                        streak += 1;
                        if streak > longest {
                            longest = streak;
                        }
                        if count > max_contributions {
                            max_contributions = count;
                        }
                    } else {
                        streak = 0;
                    }
                    d += 1;
                }
                assert(days@.take(d as int) =~= days@);
            } else {
                assert(before + week_days(weeks@[w as int]) =~= before);
            }
            w += 1;
        }
        assert(weeks@.take(w as int) =~= weeks@);
    }
    Ok(
        ContributionData {
            total,
            longest_streak: longest,
            current_streak: streak,
            max_contributions,
            daily_contributions,
        },
    )
}

/// Reads a year and gives the period that it spans.
///
/// The year is a decimal number with an optional sign. The period runs
/// from the first instant of 1 January to the last second of 31 December
/// of that year.
pub fn year_window(year: &str) -> (window: Result<YearWindow, FetchError>)
    ensures
        match window {
            Ok(window) => year_number(year@) matches Some(number) && window.from@ == year_start(
                number,
            ) && window.to@ == year_end(number),
            Err(error) => year_number(year@) is None && error is YearParseError,
        },
{
    let number = match parse_year(year) {
        Ok(number) => number,
        Err(error) => {
            return Err(FetchError::YearParseError(error));
        },
    };
    let mut from = String::new();
    push_decimal(&mut from, number);
    from.append("-01-01T00:00:00Z");
    let mut to = String::new();
    push_decimal(&mut to, number);
    to.append("-12-31T23:59:59Z");
    Ok(YearWindow { from, to })
}

/// Appends a number in decimal digits.
fn push_decimal(text: &mut String, number: i32)
    ensures
        final(text)@ == old(text)@ + decimal(number as int),
{
    let ghost before = text@;
    let magnitude: u32 = if number < 0 {
        (-(number as i64)) as u32
    } else {
        number as u32
    };
    let mut rest: u32 = magnitude / 10;
    let mut reversed: Vec<char> = Vec::new();
    reversed.push(digit_of(magnitude % 10));
    assert(decimal_digits(magnitude as nat) =~= leading_digits(rest as nat) + reversed@.reverse());
    while rest > 0
        invariant
            decimal_digits(magnitude as nat) == leading_digits(rest as nat) + reversed@.reverse(),
        decreases rest,
    {
        let ghost digits = reversed@;
        let c = digit_of(rest % 10);
        reversed.push(c);
        assert(reversed@.reverse() =~= seq![c] + digits.reverse());
        assert(leading_digits(rest as nat) =~= leading_digits((rest / 10) as nat) + seq![c]);
        rest = rest / 10;
        assert(decimal_digits(magnitude as nat) =~= leading_digits(rest as nat)
            + reversed@.reverse());
    }
    assert(decimal_digits(magnitude as nat) =~= reversed@.reverse());
    if number < 0 {
        push_char(text, '-');
    }
    let ghost signed = text@;
    let len = reversed.len();
    let mut i: usize = len;
    while i > 0
        invariant
            i <= len,
            len == reversed@.len(),
            text@ == signed + reversed@.reverse().take(len - i),
        decreases i,
    {
        i -= 1;
        push_char(text, reversed[i]);
        assert(reversed@.reverse().take(len - i) =~= reversed@.reverse().take(len - i - 1).push(
            reversed@[i as int],
        ));
    }
    assert(reversed@.reverse().take(len as int) =~= reversed@.reverse());
    assert(text@ =~= before + decimal(number as int));
}

/// The digit for a number below ten.
fn digit_of(digit: u32) -> (c: char)
    requires
        digit < 10,
    ensures
        c == digit_char(digit as int),
{
    if digit == 0 {
        '0'
    } else if digit == 1 {
        '1'
    } else if digit == 2 {
        '2'
    } else if digit == 3 {
        '3'
    } else if digit == 4 {
        '4'
    } else if digit == 5 {
        '5'
    } else if digit == 6 {
        '6'
    } else if digit == 7 {
        '7'
    } else if digit == 8 {
        '8'
    } else {
        '9'
    }
}

/// Trusted: `str::parse::<i32>` of std.
///
/// The contract states what std documents of it: the text is read as an
/// optional sign followed by decimal digits, and anything else, or a value
/// that does not fit, is an error. Nothing is claimed of the error value.
#[verifier::external_body]
fn parse_year(text: &str) -> (year: Result<i32, ParseIntError>)
    ensures
        match year {
            Ok(number) => year_number(text@) == Some(number as int),
            Err(_) => year_number(text@) is None,
        },
{
    text.parse::<i32>()
}

/// Trusted: `String::push` of std, which appends one character.
#[verifier::external_body]
fn push_char(text: &mut String, c: char)
    ensures
        final(text)@ == old(text)@.push(c),
{
    text.push(c);
}

/// Whether every day from `from` up to, not including, `to` has activity.
pub open spec fn all_active(series: Seq<(Date, u32)>, from: int, to: int) -> bool {
    forall|i: int| from <= i < to ==> (#[trigger] series[i]).1 > 0
}

/// The current streak is the longest run of days with activity that ends
/// with the series: its days have activity, and the day before it, if
/// there is one, has none.
pub proof fn lemma_current_streak_is_trailing_run(series: Seq<(Date, u32)>)
    ensures
        trailing_streak(series) <= series.len(),
        all_active(series, series.len() - trailing_streak(series), series.len() as int),
        trailing_streak(series) < series.len() ==> series[series.len() - trailing_streak(series)
            - 1].1 == 0,
        forall|from: int|
            0 <= from <= series.len() && #[trigger] all_active(series, from, series.len() as int)
                ==> series.len() - from <= trailing_streak(series),
    decreases series.len(),
{
    if series.len() > 0 && series.last().1 != 0 {
        let before = series.drop_last();
        lemma_current_streak_is_trailing_run(before);
        assert forall|i: int|
            series.len() - trailing_streak(series) <= i < series.len() implies (#[trigger] series[i]).1
            > 0 by {
            if i < before.len() {
                assert(before[i] == series[i]);
            }
        }
        assert forall|from: int|
            0 <= from <= series.len() && #[trigger] all_active(
                series,
                from,
                series.len() as int,
            ) implies series.len() - from <= trailing_streak(series) by {
            if from < series.len() {
                assert forall|i: int| from <= i < before.len() implies (#[trigger] before[i]).1
                    > 0 by {
                    assert(before[i] == series[i]);
                }
                assert(all_active(before, from, before.len() as int));
            }
        }
    } else {
        assert forall|from: int|
            0 <= from <= series.len() && #[trigger] all_active(
                series,
                from,
                series.len() as int,
            ) implies series.len() - from <= trailing_streak(series) by {
            if from < series.len() {
                assert(series[series.len() - 1].1 > 0);
            }
        }
    }
}

/// The longest streak is the length of the longest run of days with
/// activity: the run of that length which begins at the day that the
/// lemma gives has activity throughout, and no run is longer.
pub proof fn lemma_longest_streak_is_longest_run(series: Seq<(Date, u32)>) -> (from: int)
    ensures
        0 <= from,
        from + longest_streak(series) <= series.len(),
        all_active(series, from, from + longest_streak(series)),
        forall|first: int, end: int|
            0 <= first <= end <= series.len() && #[trigger] all_active(series, first, end) ==> end
                - first <= longest_streak(series),
    decreases series.len(),
{
    if series.len() == 0 {
        0
    } else {
        let before = series.drop_last();
        let earlier = lemma_longest_streak_is_longest_run(before);
        lemma_current_streak_is_trailing_run(series);
        assert forall|first: int, end: int|
            0 <= first <= end <= series.len() && #[trigger] all_active(
                series,
                first,
                end,
            ) implies end - first <= longest_streak(series) by {
            if end == series.len() {
                assert(all_active(series, first, series.len() as int));
            } else {
                assert forall|i: int| first <= i < end implies (#[trigger] before[i]).1 > 0 by {
                    assert(before[i] == series[i]);
                }
                assert(all_active(before, first, end));
            }
        }
        if longest_streak(before) >= trailing_streak(series) {
            assert forall|i: int| earlier <= i < earlier + longest_streak(series) implies (
            #[trigger] series[i]).1 > 0 by {
                assert(before[i] == series[i]);
            }
            earlier
        } else {
            series.len() - trailing_streak(series)
        }
    }
}

/// The highest count is no less than any count of the series, and is one
/// of them unless the series is empty.
pub proof fn lemma_max_count_is_highest(series: Seq<(Date, u32)>)
    ensures
        forall|i: int| 0 <= i < series.len() ==> (#[trigger] series[i]).1 <= max_count(series),
        series.len() > 0 ==> exists|i: int|
            0 <= i < series.len() && (#[trigger] series[i]).1 == max_count(series),
        series.len() == 0 ==> max_count(series) == 0,
    decreases series.len(),
{
    if series.len() > 0 {
        let before = series.drop_last();
        lemma_max_count_is_highest(before);
        assert forall|i: int| 0 <= i < series.len() implies (#[trigger] series[i]).1 <= max_count(
            series,
        ) by {
            if i < before.len() {
                assert(before[i] == series[i]);
            }
        }
        if before.len() > 0 && max_count(before) >= series.last().1 {
            let at = choose|i: int|
                0 <= i < before.len() && (#[trigger] before[i]).1 == max_count(before);
            assert(series[at] == before[at]);
        } else {
            assert(series[series.len() - 1].1 == max_count(series));
        }
    }
}

/// A streak is no longer than the series.
proof fn lemma_streak_bounds(series: Seq<(Date, u32)>)
    ensures
        trailing_streak(series) <= series.len(),
        longest_streak(series) <= series.len(),
        trailing_streak(series) <= longest_streak(series),
    decreases series.len(),
{
    if series.len() > 0 {
        lemma_streak_bounds(series.drop_last());
    }
}

/// The series of readable days has one entry for each day.
proof fn lemma_day_entries_len(days: Seq<RawDay>)
    ensures
        day_entries(days) matches Ok(series) ==> series.len() == days.len(),
    decreases days.len(),
{
    if days.len() > 0 {
        lemma_day_entries_len(days.drop_last());
    }
}

/// The days of two runs of weeks, one after the other.
proof fn lemma_days_of_concat(a: Seq<RawWeek>, b: Seq<RawWeek>)
    ensures
        days_of(a + b) == days_of(a) + days_of(b),
    decreases b.len(),
{
    if b.len() == 0 {
        assert(a + b =~= a);
        assert(days_of(a) + days_of(b) =~= days_of(a));
    } else {
        assert((a + b).drop_last() =~= a + b.drop_last());
        lemma_days_of_concat(a, b.drop_last());
        assert(days_of(a + b) =~= days_of(a) + days_of(b));
    }
}

/// An unreadable day among the first days decides for all days.
proof fn lemma_day_entries_prefix(first: Seq<RawDay>, rest: Seq<RawDay>)
    ensures
        day_entries(first) matches Err(error) ==> day_entries(first + rest) == Err::<
            Seq<(Date, u32)>,
            FetchError,
        >(error),
    decreases rest.len(),
{
    if rest.len() == 0 {
        assert(first + rest =~= first);
    } else {
        assert((first + rest).drop_last() =~= first + rest.drop_last());
        lemma_day_entries_prefix(first, rest.drop_last());
    }
}

/// The digits that are still to come, most significant first.
spec fn leading_digits(n: nat) -> Seq<char> {
    if n == 0 {
        Seq::empty()
    } else {
        decimal_digits(n)
    }
}

} // verus!
