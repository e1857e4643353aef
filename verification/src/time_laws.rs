//! Laws on time: instants as counts of nanoseconds, and their order. Leap seconds are left out where
//! a count cannot tell them.

use crate::time::{
    earlier, minutes_in_nanos, nanos_between, shifted, toward_zero, whole_minutes, Timestamp,
};
use vstd::prelude::*;

verus! {

/// The nanoseconds from the epoch to an instant outside a leap second.
pub open spec fn since_epoch(secs: int, nanos: int) -> int {
    secs * 1_000_000_000 + nanos
}

/// What is rounded towards zero is never further from zero than the exact quotient, and less than
/// one away from it.
pub proof fn rounding_goes_towards_zero(a: int, b: int)
    requires
        b > 0,
    ensures
        a >= 0 ==> 0 <= toward_zero(a, b) * b <= a < toward_zero(a, b) * b + b,
        a <= 0 ==> a <= toward_zero(a, b) * b <= 0 && toward_zero(a, b) * b - b < a,
{
    if a >= 0 {
        vstd::arithmetic::div_mod::lemma_fundamental_div_mod(a, b);
        vstd::arithmetic::div_mod::lemma_mod_bound(a, b);
        assert(toward_zero(a, b) * b == b * (a / b)) by (nonlinear_arith)
            requires
                toward_zero(a, b) == a / b,
        ;
        assert(0 <= b * (a / b)) by (nonlinear_arith)
            requires
                a >= 0,
                b > 0,
        ;
    }
    if a < 0 {
        vstd::arithmetic::div_mod::lemma_fundamental_div_mod(-a, b);
        vstd::arithmetic::div_mod::lemma_mod_bound(-a, b);
        assert(toward_zero(a, b) * b == -(b * ((-a) / b))) by (nonlinear_arith)
            requires
                toward_zero(a, b) == -((-a) / b),
        ;
        assert(0 <= b * ((-a) / b)) by (nonlinear_arith)
            requires
                a < 0,
                b > 0,
        ;
    }
}

/// The whole minutes of a time are those of sixty seconds each that fit into it; minutes are counted
/// back from their nanoseconds.
pub proof fn minutes_are_whole(nanos: int, minutes: int)
    ensures
        nanos >= 0 ==> whole_minutes(nanos) * 60_000_000_000 <= nanos < (whole_minutes(nanos) + 1)
            * 60_000_000_000,
        nanos < 0 ==> whole_minutes(nanos) == -whole_minutes(-nanos),
        whole_minutes(minutes_in_nanos(minutes)) == minutes,
        minutes_in_nanos(minutes) == minutes * 60_000_000_000,
{
    assert(minutes_in_nanos(minutes) == minutes * 60_000_000_000);
}

/// To shift an instant outside a leap second by a number of nanoseconds is to count them on.
pub proof fn shifting_counts_on(secs: int, nanos: int, by: int)
    requires
        0 <= nanos < 1_000_000_000,
    ensures
        since_epoch(shifted(secs, nanos, by).0, shifted(secs, nanos, by).1) == since_epoch(
            secs,
            nanos,
        ) + by,
        0 <= shifted(secs, nanos, by).1 < 1_000_000_000,
{
}

/// The time between two instants outside leap seconds is the difference of their counts.
pub proof fn time_between_is_the_difference(from: Timestamp, to: Timestamp)
    requires
        0 <= from.nanos() < 1_000_000_000,
        0 <= to.nanos() < 1_000_000_000,
    ensures
        nanos_between(from, to) == since_epoch(to.secs(), to.nanos()) - since_epoch(
            from.secs(),
            from.nanos(),
        ),
{
}

/// Of two different instants exactly one is the earlier; outside leap seconds it is the one with the
/// lesser count. The order goes on from instant to instant.
pub proof fn instants_are_ordered(a: Timestamp, b: Timestamp, c: Timestamp)
    ensures
        !earlier(a, a),
        a != b ==> earlier(a, b) != earlier(b, a),
        earlier(a, b) && earlier(b, c) ==> earlier(a, c),
        0 <= a.nanos() < 1_000_000_000 && 0 <= b.nanos() < 1_000_000_000 ==> (earlier(a, b)
            <==> since_epoch(a.secs(), a.nanos()) < since_epoch(b.secs(), b.nanos())),
{
    broadcast use Timestamp::of_its_parts;

    assert(Timestamp::of(a.secs(), a.nanos()) == a);
    assert(Timestamp::of(b.secs(), b.nanos()) == b);
}

} // verus!
