//! Time by category: the window of a report and its text.

use crate::order::{is_order, order_by, order_is_unique};
use crate::text::{decimal, push_decimal};
use crate::textmap::{texts_in_order, TextMap};
use crate::time::{
    can_shift, checked_sub, date_value, earlier, longest, nanos_per_second, read_date, shifted,
    whole_minutes, Duration, TimeWindow, Timestamp,
};
use vstd::prelude::*;
use vstd::string::*;

verus! {

// ---- The window ----

/// Midnight UTC of a date, or words that name the text.
pub open spec fn date_in(text: Seq<char>) -> Result<Timestamp, Seq<char>> {
    match date_value(text) {
        Ok(secs) => Ok(Timestamp::of(secs, 0)),
        Err(words) => Err("invalid report date "@ + text + ": "@ + words),
    }
}

fn parse_date(value: &str) -> (r: Result<Timestamp, String>)
    ensures
        crate::resolve::gives(r, date_in(value@)),
{
    broadcast use Timestamp::of_its_parts;

    match read_date(value) {
        Ok(t) => {
            assert(Timestamp::of(t.secs(), t.nanos()) == t);
            Ok(t)
        },
        Err(error) => {
            let mut words = "invalid report date ".to_owned();
            words.append(value);
            words.append(": ");
            words.append(error.as_str());
            Err(words)
        },
    }
}

/// A number of days in nanoseconds.
pub open spec fn days_in_nanos(days: int) -> int {
    days * 86_400 * nanos_per_second()
}

/// The start of a report: the given date, or a number of days back from now.
pub open spec fn report_start(now: Timestamp, from: Option<Seq<char>>, days: int) -> Result<
    Timestamp,
    Seq<char>,
> {
    match from {
        Some(text) => date_in(text),
        None => if days_in_nanos(days) > longest() {
            Err("report --days is out of range"@)
        } else if !can_shift(now, -days_in_nanos(days)) {
            Err("report start is out of range"@)
        } else {
            let start = shifted(now.secs(), now.nanos(), -days_in_nanos(days));
            Ok(Timestamp::of(start.0, start.1))
        },
    }
}

/// The end of a report: the given date, or now.
pub open spec fn report_end(now: Timestamp, to: Option<Seq<char>>) -> Result<Timestamp, Seq<char>> {
    match to {
        Some(text) => date_in(text),
        None => Ok(now),
    }
}

/// The window from a start to an end, which must not lie before it.
pub open spec fn window_between(
    start: Result<Timestamp, Seq<char>>,
    end: Result<Timestamp, Seq<char>>,
) -> Result<TimeWindow, Seq<char>> {
    match start {
        Err(words) => Err(words),
        Ok(start) => match end {
            Err(words) => Err(words),
            Ok(end) => if earlier(end, start) {
                Err("report --from must not be after --to"@)
            } else {
                Ok(TimeWindow { start, end })
            },
        },
    }
}

/// An optional text.
pub open spec fn str_option(text: Option<&str>) -> Option<Seq<char>> {
    match text {
        Some(t) => Some(t@),
        None => None,
    }
}

fn start_of_report(now: Timestamp, from: Option<&str>, days: u64) -> (r: Result<Timestamp, String>)
    ensures
        crate::resolve::gives(r, report_start(now, str_option(from), days as int)),
{
    broadcast use Timestamp::of_its_parts;

    match from {
        Some(value) => parse_date(value),
        None => {
            let lookback: Option<Duration> = if days <= 9_223_372_036_854_775_807 {
                Duration::try_days(days as i64)
            } else {
                None
            };
            match lookback {
                Some(duration) => match checked_sub(now, duration) {
                    Some(start) => Ok(start),
                    None => Err("report start is out of range".to_owned()),
                },
                None => Err("report --days is out of range".to_owned()),
            }
        },
    }
}

/// The window of a report. Dates are midnight UTC and independently replace the default
/// bounds, which are some days back and now.
pub fn report_window(now: Timestamp, from: Option<&str>, to: Option<&str>, days: u64) -> (r: Result<
    TimeWindow,
    String,
>)
    ensures
        crate::resolve::gives(
            r,
            window_between(
                report_start(now, str_option(from), days as int),
                report_end(now, str_option(to)),
            ),
        ),
        r matches Ok(window) ==> !earlier(window.end, window.start),
{
    let start: Timestamp = match start_of_report(now, from, days) {
        Ok(t) => t,
        Err(words) => {
            return Err(words);
        },
    };
    let end: Timestamp = match to {
        Some(value) => match parse_date(value) {
            Ok(t) => t,
            Err(words) => {
                return Err(words);
            },
        },
        None => now,
    };
    bound_window(start, end)
}

/// The window from a start to an end.
pub fn bound_window(start: Timestamp, end: Timestamp) -> (r: Result<TimeWindow, String>)
    ensures
        crate::resolve::gives(
            r,
            window_between(
                Ok::<Timestamp, Seq<char>>(start),
                Ok::<Timestamp, Seq<char>>(end),
            ),
        ),
{
    if end.before(&start) {
        Err("report --from must not be after --to".to_owned())
    } else {
        Ok(TimeWindow { start, end })
    }
}

// ---- The text ----

/// A duration in hours and minutes. What is below a minute is not shown.
pub open spec fn hours_and_minutes(nanos: int) -> Seq<char> {
    let minutes = whole_minutes(nanos);
    let size = if minutes < 0 {
        -minutes
    } else {
        minutes
    };
    (if minutes < 0 {
        "-"@
    } else {
        ""@
    }) + decimal(size / 60) + "h "@ + decimal(size % 60) + "m"@
}

/// A duration in hours and minutes.
pub fn report_duration(duration: Duration) -> (text: String)
    ensures
        text@ == hours_and_minutes(duration.total()),
{
    let minutes: i64 = duration.num_minutes();
    let mut text: String = if minutes < 0 {
        "-".to_owned()
    } else {
        "".to_owned()
    };
    let size: i128 = if minutes < 0 {
        -(minutes as i128)
    } else {
        minutes as i128
    };
    push_decimal(&mut text, size / 60);
    text.append("h ");
    push_decimal(&mut text, size % 60);
    text.append("m");
    text
}

/// The keys by which the categories are ordered: the longest first.
pub open spec fn report_keys(totals: Map<Seq<char>, Duration>) -> Seq<(i128, u128)> {
    texts_in_order(totals.dom()).map_values(
        |category: Seq<char>| ((-totals[category].total()) as i128, 0u128),
    )
}

/// The line of a category.
pub open spec fn category_line(category: Seq<char>, nanos: int) -> Seq<char> {
    category + "   "@ + hours_and_minutes(nanos) + "\n"@
}

/// The lines of the first `n` categories in an order.
pub open spec fn category_lines(
    totals: Map<Seq<char>, Duration>,
    order: Seq<usize>,
    n: int,
) -> Seq<char>
    decreases n,
{
    if n <= 0 {
        Seq::empty()
    } else {
        let category = texts_in_order(totals.dom())[order[n - 1] as int];
        category_lines(totals, order, n - 1) + category_line(category, totals[category].total())
    }
}

/// The time of the first `n` categories in an order, in nanoseconds.
pub open spec fn time_of(totals: Map<Seq<char>, Duration>, order: Seq<usize>, n: int) -> int
    decreases n,
{
    if n <= 0 {
        0
    } else {
        time_of(totals, order, n - 1) + totals[texts_in_order(totals.dom())[order[n - 1] as int]].total()
    }
}

/// Whether all sums of the report can be durations.
pub open spec fn sums_fit(totals: Map<Seq<char>, Duration>) -> bool {
    forall|order: Seq<usize>, n: int|
        is_order(report_keys(totals), order) && 0 <= n <= order.len() ==> -longest() <= #[trigger]
            time_of(totals, order, n) <= longest()
}

/// Whether a text reports the time by category, the longest first and those of the same
/// length by their names, and the total.
pub open spec fn is_report(totals: Map<Seq<char>, Duration>, text: Seq<char>) -> bool {
    exists|order: Seq<usize>|
        {
            &&& #[trigger] is_order(report_keys(totals), order)
            &&& text == category_lines(totals, order, order.len() as int) + "Total   "@
                + hours_and_minutes(time_of(totals, order, order.len() as int)) + "\n"@
        }
}

fn report_order(totals: &TextMap<Duration>) -> (order: Vec<usize>)
    ensures
        is_order(report_keys(totals@), order@),
{
    let n: usize = totals.len();
    let ghost names = texts_in_order(totals@.dom());
    let mut keys: Vec<(i128, u128)> = Vec::new();
    let mut i: usize = 0;
    while i < n
        invariant
            i <= n,
            n == names.len(),
            names == texts_in_order(totals@.dom()),
            keys@ == report_keys(totals@).take(i as int),
        decreases n - i,
    {
        let total: i128 = totals.value_at(i).nanos();
        keys.push((-total, 0u128));
        i = i + 1;
        assert(keys@ =~= report_keys(totals@).take(i as int));
    }
    assert(keys@ =~= report_keys(totals@));
    order_by(&keys)
}

/// Whether all sums of the report can be durations.
pub fn can_sum(totals: &TextMap<Duration>) -> (b: bool)
    ensures
        b == sums_fit(totals@),
{
    let order = report_order(totals);
    let n: usize = totals.len();
    let ghost names = texts_in_order(totals@.dom());
    let mut sum = Duration::zero();
    let mut k: usize = 0;
    while k < order.len()
        invariant
            k <= order@.len(),
            n == names.len(),
            names == texts_in_order(totals@.dom()),
            is_order(report_keys(totals@), order@),
            sum.total() == time_of(totals@, order@, k as int),
            forall|i: int|
                0 <= i <= k ==> -longest() <= #[trigger] time_of(totals@, order@, i) <= longest(),
        decreases order@.len() - k,
    {
        assert(order@[k as int] < names.len());
        match sum.checked_sum(totals.value_at(order[k])) {
            Some(more) => {
                sum = more;
            },
            None => {
                assert(!(-longest() <= time_of(totals@, order@, k + 1) <= longest()));
                return false;
            },
        }
        k = k + 1;
    }
    assert forall|other: Seq<usize>, i: int|
        is_order(report_keys(totals@), other) && 0 <= i <= other.len() implies -longest()
        <= #[trigger] time_of(totals@, other, i) <= longest() by {
        order_is_unique(report_keys(totals@), order@, other);
    }
    true
}

/// The time by category, the longest first, and the total.
pub fn format_category_report(totals: &TextMap<Duration>) -> (text: String)
    requires
        sums_fit(totals@),
    ensures
        is_report(totals@, text@),
{
    let order = report_order(totals);
    let n: usize = totals.len();
    let ghost names = texts_in_order(totals@.dom());
    let mut text = String::new();
    let mut sum = Duration::zero();
    let mut k: usize = 0;
    while k < order.len()
        invariant
            k <= order@.len(),
            n == names.len(),
            names == texts_in_order(totals@.dom()),
            is_order(report_keys(totals@), order@),
            sums_fit(totals@),
            text@ == category_lines(totals@, order@, k as int),
            sum.total() == time_of(totals@, order@, k as int),
        decreases order@.len() - k,
    {
        assert(order@[k as int] < names.len());
        let place: usize = order[k];
        let duration: Duration = *totals.value_at(place);
        let mut line = totals.key_at(place).clone();
        line.append("   ");
        line.append(report_duration(duration).as_str());
        line.append("\n");
        text.append(line.as_str());
        assert(-longest() <= time_of(totals@, order@, k + 1) <= longest());
        sum = sum.checked_sum(&duration).unwrap();
        k = k + 1;
    }
    let ghost lines = text@;
    text.append("Total   ");
    text.append(report_duration(sum).as_str());
    text.append("\n");
    text
}

/// The totals determine the text of a report.
pub proof fn report_is_determined(
    totals: Map<Seq<char>, Duration>,
    text: Seq<char>,
    other: Seq<char>,
)
    requires
        is_report(totals, text),
        is_report(totals, other),
    ensures
        text == other,
{
    let keys = report_keys(totals);
    let a = choose|order: Seq<usize>|
        {
            &&& #[trigger] is_order(keys, order)
            &&& text == category_lines(totals, order, order.len() as int) + "Total   "@
                + hours_and_minutes(time_of(totals, order, order.len() as int)) + "\n"@
        };
    let b = choose|order: Seq<usize>|
        {
            &&& #[trigger] is_order(keys, order)
            &&& other == category_lines(totals, order, order.len() as int) + "Total   "@
                + hours_and_minutes(time_of(totals, order, order.len() as int)) + "\n"@
        };
    order_is_unique(keys, a, b);
}

} // verus!
