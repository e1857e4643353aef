//! Laws on the shuffle: which element comes last, and how the rest goes on.

use crate::review_order::state_after;
use crate::shuffle::{
    draw, draw_is_below_bound, exchanged, mix, next_state, rejected_below, shuffled, shuffled_to,
};
use vstd::prelude::*;

verus! {

/// The next state of the stream is a fixed step further, around the end of the numbers.
pub proof fn stream_goes_in_steps(state: u64)
    ensures
        next_state(state) as int == state + 0x9e37_79b9_7f4a_7c15 || next_state(state) as int
            == state + 0x9e37_79b9_7f4a_7c15 - 0x1_0000_0000_0000_0000,
{
}

/// A number that is drawn is the rest of the next output by the bound, wherever that output is not
/// below the bound; the stream has then gone one step.
pub proof fn draw_is_the_rest(state: u64, bound: u64)
    requires
        bound > 0,
        mix(next_state(state)) >= bound,
    ensures
        draw(state, bound).0 == next_state(state),
        draw(state, bound).1 == mix(next_state(state)) as int % bound as int,
{
    assert(rejected_below(bound) < bound);
}

proof fn later_places_stay<T>(items: Seq<T>, last: int, state: u64)
    requires
        last < items.len() <= u64::MAX,
    ensures
        shuffled_to(items, last, state).len() == items.len(),
        forall|k: int|
            last < k < items.len() && 0 <= k ==> #[trigger] shuffled_to(items, last, state)[k]
                == items[k],
    decreases last,
{
    if last > 0 {
        let (next, chosen) = draw(state, (last + 1) as u64);
        draw_is_below_bound(state, (last + 1) as u64);
        later_places_stay(exchanged(items, last, chosen), last - 1, next);
        let inner = shuffled_to(exchanged(items, last, chosen), last - 1, next);
        assert forall|k: int| last < k < items.len() && 0 <= k implies #[trigger] shuffled_to(
            items,
            last,
            state,
        )[k] == items[k] by {
            assert(inner[k] == exchanged(items, last, chosen)[k]);
        }
    }
}

proof fn front_is_shuffled_alone<T>(items: Seq<T>, last: int, state: u64)
    requires
        0 <= last < items.len() <= u64::MAX,
        last + 1 < items.len(),
    ensures
        shuffled_to(items, last, state).drop_last() == shuffled_to(items.drop_last(), last, state),
    decreases last,
{
    if last > 0 {
        let (next, chosen) = draw(state, (last + 1) as u64);
        draw_is_below_bound(state, (last + 1) as u64);
        let swapped = exchanged(items, last, chosen);
        front_is_shuffled_alone(swapped, last - 1, next);
        assert(swapped.drop_last() =~= exchanged(items.drop_last(), last, chosen));
    }
}

/// The last of some shuffled elements is the one at the place that is drawn first; its place is
/// taken by the one that was last, and the others are shuffled with the stream as it goes on.
pub proof fn last_element_is_drawn<T>(items: Seq<T>, seed: u64)
    requires
        2 <= items.len() <= u64::MAX,
    ensures
        ({
            let (next, chosen) = draw(seed, items.len() as u64);
            &&& 0 <= chosen < items.len()
            &&& shuffled(items, seed).last() == items[chosen]
            &&& shuffled(items, seed).drop_last() == shuffled(
                items.update(chosen, items.last()).drop_last(),
                next,
            )
        }),
{
    let n = items.len() as int;
    let (next, chosen) = draw(seed, items.len() as u64);
    draw_is_below_bound(seed, items.len() as u64);
    let swapped = exchanged(items, n - 1, chosen);
    later_places_stay(swapped, n - 2, next);
    assert(shuffled(items, seed) == shuffled_to(swapped, n - 2, next));
    front_is_shuffled_alone(swapped, n - 2, next);
    assert(swapped.drop_last() =~= items.update(chosen, items.last()).drop_last());
}

/// Fewer than two elements stay as they are.
pub proof fn few_elements_stay<T>(items: Seq<T>, seed: u64)
    requires
        items.len() < 2,
    ensures
        shuffled(items, seed) == items,
{
}

/// The states for the draws of the decisions follow one another: the first comes from the seed, and
/// going on from a state leads to the same states as going on from the seed.
pub proof fn draws_go_on_from_the_seed(seed: u64, n: int, m: int)
    requires
        0 <= n,
        0 <= m,
    ensures
        state_after(seed, 0) == seed,
        state_after(seed, 1) == next_state(seed),
        state_after(state_after(seed, n), m) == state_after(seed, n + m),
    decreases m,
{
    reveal_with_fuel(state_after, 2);
    if m > 0 {
        draws_go_on_from_the_seed(seed, n, m - 1);
    }
}

} // verus!
