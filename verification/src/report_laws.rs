//! What a report shows: laws on its window, its durations and its lines.

use crate::display_laws::numbers_are_told_apart;
use crate::order::{comes_before, is_order, order_lists_all, positions};
use crate::parts::{is_laid_out, one_more_piece, one_piece};
use crate::report::{
    category_line, category_lines, days_in_nanos, hours_and_minutes, is_report, report_end,
    report_keys, report_start, sums_fit, time_of, window_between,
};
use crate::resolve::gives;
use crate::text::{decimal, decimal_is_read_back};
use crate::textmap::{text_order_exists, texts_in_order};
use crate::time::{
    date_value, earlier, longest, shifted, whole_minutes, Duration, TimeWindow, Timestamp,
};
use vstd::prelude::*;
use vstd::string::*;

verus! {

// ---- Durations ----

/// Whether a text shows hours and minutes.
pub open spec fn shows_hours(text: Seq<char>, sign: Seq<char>, hours: int, minutes: int) -> bool {
    is_laid_out(text, seq![sign, decimal(hours), "h "@, decimal(minutes), "m"@])
}

/// The numbers of a duration give its whole minutes back: sixty for each hour, and fewer than
/// sixty besides. A negative one has a minus sign in front.
pub proof fn duration_is_shown_in_full(nanos: int)
    ensures
        nanos >= 0 ==> exists|hours: int, minutes: int|
            {
                &&& #[trigger] shows_hours(hours_and_minutes(nanos), ""@, hours, minutes)
                &&& 0 <= minutes < 60
                &&& 0 <= hours
                &&& 60 * hours + minutes == nanos / 60_000_000_000
            },
        nanos <= -60_000_000_000 ==> exists|hours: int, minutes: int|
            {
                &&& #[trigger] shows_hours(hours_and_minutes(nanos), "-"@, hours, minutes)
                &&& 0 <= minutes < 60
                &&& 0 <= hours
                &&& 60 * hours + minutes == (-nanos) / 60_000_000_000
            },
{
    let minutes = whole_minutes(nanos);
    let size = if minutes < 0 {
        -minutes
    } else {
        minutes
    };
    let sign = if minutes < 0 {
        "-"@
    } else {
        ""@
    };
    let h = size / 60;
    let m = size % 60;
    one_piece(sign);
    let one = seq![sign];
    let two = one.push(decimal(h));
    let three = two.push("h "@);
    let four = three.push(decimal(m));
    let five = four.push("m"@);
    one_more_piece(sign, one, decimal(h));
    one_more_piece(sign + decimal(h), two, "h "@);
    one_more_piece(sign + decimal(h) + "h "@, three, decimal(m));
    one_more_piece(sign + decimal(h) + "h "@ + decimal(m), four, "m"@);
    assert(five =~= seq![sign, decimal(h), "h "@, decimal(m), "m"@]);
    assert(shows_hours(hours_and_minutes(nanos), sign, h, m));
}

/// The place of the first `h` in a text that shows hours tells how many digits they have.
proof fn hours_are_told(a: Seq<char>, b: Seq<char>, x: Seq<char>, y: Seq<char>)
    requires
        a + "h "@ + x == b + "h "@ + y,
        forall|i: int| 0 <= i < a.len() ==> #[trigger] a[i] != 'h',
        forall|i: int| 0 <= i < b.len() ==> #[trigger] b[i] != 'h',
    ensures
        a == b,
        x == y,
{
    reveal_strlit("h ");
    let text = a + "h "@ + x;
    let other = b + "h "@ + y;
    assert(text[a.len() as int] == 'h');
    assert(other[b.len() as int] == 'h');
    if a.len() < b.len() {
        assert(other[a.len() as int] == b[a.len() as int]);
    } else if b.len() < a.len() {
        assert(text[b.len() as int] == a[b.len() as int]);
    }
    assert(a =~= text.subrange(0, a.len() as int));
    assert(b =~= other.subrange(0, b.len() as int));
    assert(x =~= text.subrange((a.len() + 2) as int, text.len() as int));
    assert(y =~= other.subrange((b.len() + 2) as int, other.len() as int));
}

proof fn no_letter_in_a_number(n: int)
    ensures
        forall|i: int| 0 <= i < decimal(n).len() ==> #[trigger] decimal(n)[i] != 'h',
{
    decimal_is_read_back(n);
    assert forall|i: int| 0 <= i < decimal(n).len() implies #[trigger] decimal(n)[i] != 'h' by {
        assert('0' <= decimal(n)[i] <= '9' || decimal(n)[i] == '-');
    }
}

/// Durations that differ in whole minutes are shown differently.
pub proof fn durations_are_told_apart(a: int, b: int)
    requires
        a >= 0,
        b >= 0,
        a / 60_000_000_000 != b / 60_000_000_000,
    ensures
        hours_and_minutes(a) != hours_and_minutes(b),
{
    let p = whole_minutes(a);
    let q = whole_minutes(b);
    reveal_strlit("");
    reveal_strlit("m");
    assert(p == a / 60_000_000_000 && q == b / 60_000_000_000);
    if hours_and_minutes(a) == hours_and_minutes(b) {
        let first = decimal(p / 60) + "h "@ + (decimal(p % 60) + "m"@);
        let second = decimal(q / 60) + "h "@ + (decimal(q % 60) + "m"@);
        assert(hours_and_minutes(a) =~= first);
        assert(hours_and_minutes(b) =~= second);
        no_letter_in_a_number(p / 60);
        no_letter_in_a_number(q / 60);
        hours_are_told(
            decimal(p / 60),
            decimal(q / 60),
            decimal(p % 60) + "m"@,
            decimal(q % 60) + "m"@,
        );
        let x = decimal(p % 60);
        let y = decimal(q % 60);
        assert(x =~= (x + "m"@).subrange(0, x.len() as int));
        assert((x + "m"@).len() == x.len() + 1);
        assert((y + "m"@).len() == y.len() + 1);
        assert(y =~= (y + "m"@).subrange(0, y.len() as int));
        if p / 60 != q / 60 {
            numbers_are_told_apart(p / 60, q / 60);
        }
        if p % 60 != q % 60 {
            numbers_are_told_apart(p % 60, q % 60);
        }
        assert(p == 60 * (p / 60) + p % 60);
        assert(q == 60 * (q / 60) + q % 60);
    }
}

// ---- The window ----

/// Whether an instant is midnight UTC of a date.
pub open spec fn is_midnight_of(date: Seq<char>, at: Timestamp) -> bool {
    date_value(date) is Ok && at == Timestamp::of(date_value(date)->Ok_0, 0)
}

/// The window of a report starts at the date that is given, or that many days before now, and
/// ends at the date that is given, or now; it never ends before it starts.
pub proof fn report_covers_the_days(
    now: Timestamp,
    from: Option<Seq<char>>,
    to: Option<Seq<char>>,
    days: int,
    r: Result<TimeWindow, String>,
)
    requires
        gives(r, window_between(report_start(now, from, days), report_end(now, to))),
        0 <= days,
    ensures
        r matches Ok(window) ==> {
            &&& !earlier(window.end, window.start)
            &&& from matches Some(date) ==> is_midnight_of(date, window.start)
            &&& to matches Some(date) ==> is_midnight_of(date, window.end)
            &&& to is None ==> window.end == now
            &&& from is None && 0 <= now.nanos() < 1_000_000_000 ==> window.start.secs() == now.secs()
                - days * 86_400 && window.start.nanos() == now.nanos()
        },
{
    broadcast use Timestamp::parts_of;

    if r is Ok && from is None && 0 <= now.nanos() < 1_000_000_000 {
        let by = -days_in_nanos(days);
        assert(by == -(days * 86_400) * 1_000_000_000);
        let whole = crate::time::toward_zero(by, 1_000_000_000);
        assert(whole == -(days * 86_400)) by {
            vstd::arithmetic::div_mod::lemma_div_multiples_vanish(days * 86_400, 1_000_000_000);
        }
        let start = shifted(now.secs(), now.nanos(), by);
        assert(start.0 == now.secs() - days * 86_400 && start.1 == now.nanos());
    }
}

// ---- The lines ----

/// The time of the first `n` categories of a list, in nanoseconds.
pub open spec fn sum_of(totals: Map<Seq<char>, Duration>, names: Seq<Seq<char>>, n: int) -> int
    decreases n,
{
    if n <= 0 {
        0
    } else {
        sum_of(totals, names, n - 1) + totals[names[n - 1]].total()
    }
}

/// The texts of lists of texts, one behind the other.
pub open spec fn one_text(parts: Seq<Seq<char>>, n: int) -> Seq<char>
    decreases n,
{
    if n <= 0 {
        Seq::empty()
    } else {
        one_text(parts, n - 1) + parts[n - 1]
    }
}

/// Whether a text is a line for each category of a list, with its time.
pub open spec fn are_lines(
    totals: Map<Seq<char>, Duration>,
    names: Seq<Seq<char>>,
    lines: Seq<Seq<char>>,
) -> bool {
    &&& lines.len() == names.len()
    &&& forall|i: int|
        0 <= i < names.len() ==> is_laid_out(
            #[trigger] lines[i],
            seq![names[i], "   "@, hours_and_minutes(totals[names[i]].total()), "\n"@],
        )
}

/// Whether a list names every category once, the longest time first, and where the times are the
/// same by the name.
pub open spec fn is_ranking(totals: Map<Seq<char>, Duration>, names: Seq<Seq<char>>) -> bool {
    &&& names.no_duplicates()
    &&& names.to_set() == totals.dom()
    &&& forall|i: int, j: int|
        0 <= i < j < names.len() ==> {
            let a = totals[#[trigger] names[i]].total();
            let b = totals[#[trigger] names[j]].total();
            a > b || (a == b && crate::text::text_less(names[i], names[j]))
        }
}

proof fn category_line_shows_its_time(category: Seq<char>, nanos: int)
    ensures
        is_laid_out(
            category_line(category, nanos),
            seq![category, "   "@, hours_and_minutes(nanos), "\n"@],
        ),
{
    one_piece(category);
    let one = seq![category];
    let two = one.push("   "@);
    let three = two.push(hours_and_minutes(nanos));
    let four = three.push("\n"@);
    one_more_piece(category, one, "   "@);
    one_more_piece(category + "   "@, two, hours_and_minutes(nanos));
    one_more_piece(category + "   "@ + hours_and_minutes(nanos), three, "\n"@);
    assert(four =~= seq![category, "   "@, hours_and_minutes(nanos), "\n"@]);
}

proof fn lines_are_listed(
    totals: Map<Seq<char>, Duration>,
    order: Seq<usize>,
    names: Seq<Seq<char>>,
    lines: Seq<Seq<char>>,
    n: int,
)
    requires
        0 <= n <= order.len(),
        names.len() == order.len(),
        lines.len() == order.len(),
        forall|i: int|
            0 <= i < order.len() ==> #[trigger] names[i] == texts_in_order(totals.dom())[order[i]
                as int],
        forall|i: int|
            0 <= i < order.len() ==> #[trigger] lines[i] == category_line(
                names[i],
                totals[names[i]].total(),
            ),
    ensures
        category_lines(totals, order, n) == one_text(lines, n),
        time_of(totals, order, n) == sum_of(totals, names, n),
    decreases n,
{
    if n > 0 {
        lines_are_listed(totals, order, names, lines, n - 1);
        assert(names[n - 1] == texts_in_order(totals.dom())[order[n - 1] as int]);
        assert(lines[n - 1] == category_line(names[n - 1], totals[names[n - 1]].total()));
    }
}

/// A report has one line for each category, the longest time first and equal times by name, and
/// then the total, which is the sum of all of them.
pub proof fn report_lists_every_category(totals: Map<Seq<char>, Duration>, text: Seq<char>)
    requires
        totals.dom().finite(),
        forall|c: Seq<char>| #[trigger]
            totals.contains_key(c) ==> i128::MIN < totals[c].total() <= i128::MAX,
        is_report(totals, text),
    ensures
        exists|names: Seq<Seq<char>>, lines: Seq<Seq<char>>|
            {
                &&& #[trigger] are_lines(totals, names, lines)
                &&& is_ranking(totals, names)
                &&& text == one_text(lines, lines.len() as int) + "Total   "@ + hours_and_minutes(
                    sum_of(totals, names, names.len() as int),
                ) + "\n"@
            },
{
    let keys = report_keys(totals);
    let all = texts_in_order(totals.dom());
    text_order_exists(totals.dom());
    let order = choose|order: Seq<usize>|
        {
            &&& #[trigger] is_order(keys, order)
            &&& text == category_lines(totals, order, order.len() as int) + "Total   "@
                + hours_and_minutes(time_of(totals, order, order.len() as int)) + "\n"@
        };
    let names = Seq::new(order.len(), |i: int| all[order[i] as int]);
    let lines = Seq::new(
        order.len(),
        |i: int| category_line(names[i], totals[names[i]].total()),
    );
    order_lists_all(keys, order);
    lines_are_listed(totals, order, names, lines, order.len() as int);
    assert forall|i: int| 0 <= i < names.len() implies is_laid_out(
        #[trigger] lines[i],
        seq![names[i], "   "@, hours_and_minutes(totals[names[i]].total()), "\n"@],
    ) by {
        category_line_shows_its_time(names[i], totals[names[i]].total());
    }
    assert forall|i: int, j: int| 0 <= i < names.len() && 0 <= j < names.len() && i != j implies
        names[i] != names[j] by {
        let x = order[i] as int;
        let y = order[j] as int;
        assert(x != y);
        crate::text::text_less_irreflexive(all[x]);
        if x < y {
            assert(crate::text::text_less(all[x], all[y]));
        } else {
            assert(crate::text::text_less(all[y], all[x]));
        }
    }
    assert(names.to_set() =~= totals.dom()) by {
        assert forall|c: Seq<char>| names.to_set().contains(c) == totals.dom().contains(c) by {
            if names.contains(c) {
                let i = choose|i: int| 0 <= i < names.len() && names[i] == c;
                assert(order[i] < keys.len());
                assert(all.to_set().contains(all[order[i] as int]));
            }
            if totals.dom().contains(c) {
                assert(all.to_set().contains(c));
                let k = choose|k: int| 0 <= k < all.len() && all[k] == c;
                assert(positions(order).contains(k));
                let i = choose|i: int| 0 <= i < positions(order).len() && positions(order)[i] == k;
                assert(names[i] == c);
            }
        }
    }
    assert forall|i: int, j: int| 0 <= i < j < names.len() implies {
        let a = totals[#[trigger] names[i]].total();
        let b = totals[#[trigger] names[j]].total();
        a > b || (a == b && crate::text::text_less(names[i], names[j]))
    } by {
        let x = order[i] as int;
        let y = order[j] as int;
        assert(comes_before(keys, x, y));
        assert(all.to_set().contains(all[x]) && all.to_set().contains(all[y]));
        assert(totals.contains_key(all[x]) && totals.contains_key(all[y]));
        assert(keys[x].0 == -totals[all[x]].total());
        assert(keys[y].0 == -totals[all[y]].total());
    }
    assert(are_lines(totals, names, lines));
}

/// Times that are not negative have a sum where as many of the longest of them would have one.
pub proof fn moderate_times_have_a_sum(totals: Map<Seq<char>, Duration>, most: int)
    requires
        totals.dom().finite(),
        forall|category: Seq<char>| #[trigger]
            totals.contains_key(category) ==> 0 <= totals[category].total() <= most,
        most * texts_in_order(totals.dom()).len() <= longest(),
        0 <= most,
    ensures
        sums_fit(totals),
{
    let names = texts_in_order(totals.dom());
    text_order_exists(totals.dom());
    assert forall|order: Seq<usize>, n: int|
        is_order(report_keys(totals), order) && 0 <= n <= order.len() implies -longest()
        <= #[trigger] time_of(totals, order, n) <= longest() by {
        time_is_bounded(totals, order, n, most);
        assert(n * most <= most * names.len()) by (nonlinear_arith)
            requires
                0 <= n <= names.len(),
                0 <= most,
        ;
    }
}

proof fn time_is_bounded(
    totals: Map<Seq<char>, Duration>,
    order: Seq<usize>,
    n: int,
    most: int,
)
    requires
        totals.dom().finite(),
        is_order(report_keys(totals), order),
        0 <= n <= order.len(),
        forall|category: Seq<char>| #[trigger]
            totals.contains_key(category) ==> 0 <= totals[category].total() <= most,
    ensures
        0 <= time_of(totals, order, n) <= n * most,
    decreases n,
{
    if n > 0 {
        time_is_bounded(totals, order, n - 1, most);
        let names = texts_in_order(totals.dom());
        text_order_exists(totals.dom());
        let category = names[order[n - 1] as int];
        assert(names.to_set().contains(category));
        assert(totals.contains_key(category));
        assert(n * most == (n - 1) * most + most) by (nonlinear_arith);
    }
}

} // verus!
