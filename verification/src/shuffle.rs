//! A deterministic shuffle driven by a SplitMix64 stream.

use vstd::prelude::*;

verus! {

/// The increment of the SplitMix64 state.
pub const GAMMA: u64 = 0x9e37_79b9_7f4a_7c15;

/// Two to the power of sixty-four: the number of states.
pub open spec fn states() -> int {
    0x1_0000_0000_0000_0000
}

/// The state whose mixed value is the largest `u64`, so that no draw rejects it.
pub open spec fn sure_state() -> u64 {
    0xcf9a_04af_fa6b_adc0
}

/// The inverse of `GAMMA` modulo `states`.
pub open spec fn gamma_inverse() -> int {
    0xf1de_83e1_9937_733d
}

/// The state that follows `state` in the stream.
pub open spec fn next_state(state: u64) -> u64 {
    ((state + GAMMA) % states()) as u64
}

/// One multiply step of the mixer.
pub open spec fn times(value: u64, factor: u64) -> u64 {
    ((value * factor) % states()) as u64
}

/// The output that SplitMix64 derives from a state.
#[verifier::opaque]
pub open spec fn mix(state: u64) -> u64 {
    let first = times(state ^ (state >> 30u64), 0xbf58_476d_1ce4_e5b9);
    let second = times(first ^ (first >> 27u64), 0x94d0_49bb_1331_11eb);
    second ^ (second >> 31u64)
}

/// The number of further states before the stream reaches `sure_state`.
#[verifier::opaque]
pub open spec fn states_left(state: u64) -> nat {
    (((sure_state() - GAMMA - state) * gamma_inverse()) % states()) as nat
}

/// The draws below this value are rejected, so that the rest is a multiple of `bound`.
pub open spec fn rejected_below(bound: u64) -> int
    recommends
        bound > 0,
{
    states() % (bound as int)
}

/// The state after an unbiased draw below `bound`, and the number drawn.
pub open spec fn draw(state: u64, bound: u64) -> (u64, int)
    recommends
        bound > 0,
    decreases states_left(state),
    when bound > 0
    via draw_ends
{
    let next = next_state(state);
    if mix(next) >= rejected_below(bound) {
        (next, (mix(next) as int) % (bound as int))
    } else {
        draw(next, bound)
    }
}

/// `items` with the elements at `i` and `j` exchanged.
pub open spec fn exchanged<T>(items: Seq<T>, i: int, j: int) -> Seq<T> {
    items.update(i, items[j]).update(j, items[i])
}

/// The Fisher-Yates shuffle of the elements up to and with position `last`.
pub open spec fn shuffled_to<T>(items: Seq<T>, last: int, state: u64) -> Seq<T>
    decreases last,
{
    if last <= 0 {
        items
    } else {
        let (next, chosen) = draw(state, (last + 1) as u64);
        shuffled_to(exchanged(items, last, chosen), last - 1, next)
    }
}

/// The shuffle of all of `items` for `seed`.
pub open spec fn shuffled<T>(items: Seq<T>, seed: u64) -> Seq<T> {
    shuffled_to(items, items.len() - 1, seed)
}

proof fn sure_state_mixes_to_max()
    ensures
        mix(sure_state()) == u64::MAX,
{
    reveal(mix);
    let a: u64 = 0xcf9a_04ac_c403_bf7f;
    let b: u64 = 0xf027_aa92_76e8_ac49;
    let c: u64 = 0xffff_fffe_0000_0003;
    assert(sure_state() ^ (sure_state() >> 30u64) == a) by {
        assert(0xcf9a_04af_fa6b_adc0u64 ^ (0xcf9a_04af_fa6b_adc0u64 >> 30u64)
            == 0xcf9a_04ac_c403_bf7fu64) by (bit_vector);
    }
    let first: u64 = 0xf027_aa8c_721d_fdc7;
    assert(times(a, 0xbf58_476d_1ce4_e5b9) == first);
    assert(0xf027_aa8c_721d_fdc7u64 ^ (0xf027_aa8c_721d_fdc7u64 >> 27u64)
        == 0xf027_aa92_76e8_ac49u64) by (bit_vector);
    assert(times(b, 0x94d0_49bb_1331_11eb) == c);
    assert(0xffff_fffe_0000_0003u64 ^ (0xffff_fffe_0000_0003u64 >> 31u64)
        == 0xffff_ffff_ffff_ffffu64) by (bit_vector);
}

/// Each step of the stream that has not yet reached the sure state comes one closer to it.
proof fn step_comes_closer(state: u64)
    ensures
        states_left(state) == 0 ==> next_state(state) == sure_state(),
        states_left(state) > 0 ==> states_left(next_state(state)) == states_left(state) - 1,
{
    reveal(states_left);
    let d: int = sure_state() - GAMMA - state;
    let next = next_state(state);
    let lap: int = (state + GAMMA) / states();
    vstd::arithmetic::div_mod::lemma_fundamental_div_mod(state + GAMMA, states());
    assert(state + GAMMA == states() * lap + next);
    assert(GAMMA * gamma_inverse() == 1 + 10771413168148108919 * states());
    if states_left(state) == 0 {
        // d * gamma_inverse() is a multiple of states(), hence so is d.
        let q: int = (d * gamma_inverse()) / states();
        vstd::arithmetic::div_mod::lemma_fundamental_div_mod(d * gamma_inverse(), states());
        assert(d * gamma_inverse() == states() * q);
        assert(d * (GAMMA * gamma_inverse()) == (d * gamma_inverse()) * GAMMA) by (nonlinear_arith);
        assert(d * (1 + 10771413168148108919 * states()) == states() * (q * GAMMA)) by (nonlinear_arith)
            requires
                d * (GAMMA * gamma_inverse()) == (d * gamma_inverse()) * GAMMA,
                d * gamma_inverse() == states() * q,
                GAMMA * gamma_inverse() == 1 + 10771413168148108919 * states(),
        ;
        let r: int = q * GAMMA - d * 10771413168148108919;
        assert(d == states() * r) by (nonlinear_arith)
            requires
                d * (1 + 10771413168148108919 * states()) == states() * (q * GAMMA),
                r == q * GAMMA - d * 10771413168148108919,
        ;
        assert(sure_state() == next + states() * (r + lap)) by (nonlinear_arith)
            requires
                d == states() * r,
                d == sure_state() - GAMMA - state,
                state + GAMMA == states() * lap + next,
        ;
        assert(r + lap == 0) by (nonlinear_arith)
            requires
                sure_state() == next + states() * (r + lap),
                0 <= next < states(),
                0 <= sure_state() < states(),
                states() > 0,
        ;
    } else {
        let e: int = sure_state() - GAMMA - next;
        let left: int = (d * gamma_inverse()) % states();
        let q: int = (d * gamma_inverse()) / states();
        vstd::arithmetic::div_mod::lemma_fundamental_div_mod(d * gamma_inverse(), states());
        let t: int = q - 10771413168148108919 + lap * gamma_inverse();
        assert(e == d - GAMMA + states() * lap);
        assert(e * gamma_inverse() == d * gamma_inverse() - GAMMA * gamma_inverse() + states() * (lap
            * gamma_inverse())) by (nonlinear_arith)
            requires
                e == d - GAMMA + states() * lap,
        ;
        assert(e * gamma_inverse() == states() * t + (left - 1)) by (nonlinear_arith)
            requires
                e * gamma_inverse() == d * gamma_inverse() - GAMMA * gamma_inverse() + states() * (lap
                    * gamma_inverse()),
                d * gamma_inverse() == states() * q + left,
                GAMMA * gamma_inverse() == 1 + 10771413168148108919 * states(),
                t == q - 10771413168148108919 + lap * gamma_inverse(),
        ;
        vstd::arithmetic::div_mod::lemma_fundamental_div_mod_converse(
            e * gamma_inverse(),
            states(),
            t,
            left - 1,
        );
    }
}

#[via_fn]
proof fn draw_ends(state: u64, bound: u64) {
    step_comes_closer(state);
    sure_state_mixes_to_max();
    assert(rejected_below(bound) < bound);
}

/// A draw is a position below its bound.
pub proof fn draw_is_below_bound(state: u64, bound: u64)
    requires
        bound > 0,
    ensures
        0 <= draw(state, bound).1 < bound,
    decreases states_left(state),
{
    let next = next_state(state);
    if mix(next) < rejected_below(bound) {
        step_comes_closer(state);
        sure_state_mixes_to_max();
        draw_is_below_bound(next, bound);
    }
}

/// Advances the SplitMix64 state and returns its next output.
pub fn splitmix64(state: &mut u64) -> (value: u64)
    ensures
        *final(state) == next_state(*old(state)),
        value == mix(*final(state)),
{
    *state = state.wrapping_add(GAMMA);
    let start: u64 = *state;
    let first: u64 = (start ^ (start >> 30u64)).wrapping_mul(0xbf58_476d_1ce4_e5b9);
    let second: u64 = (first ^ (first >> 27u64)).wrapping_mul(0x94d0_49bb_1331_11eb);
    proof {
        reveal(mix);
    }
    second ^ (second >> 31u64)
}

/// `<[T]>::swap` exchanges the elements at two positions and leaves the others.
/// It panics where a position lies outside the slice.
pub assume_specification<E>[ <[E]>::swap ](slice: &mut [E], a: usize, b: usize)
    requires
        a < old(slice)@.len(),
        b < old(slice)@.len(),
    ensures
        final(slice)@ == old(slice)@.update(a as int, old(slice)@[b as int]).update(
            b as int,
            old(slice)@[a as int],
        ),
;

/// Draws an unbiased number below `bound` from the stream.
fn draw_below(state: &mut u64, bound: u64) -> (chosen: u64)
    requires
        bound > 0,
    ensures
        (*final(state), chosen as int) == draw(*old(state), bound),
        chosen < bound,
{
    // Reject the incomplete residue block to avoid modulo bias.
    let threshold: u64 = (u64::MAX - bound + 1) % bound;
    proof {
        vstd::arithmetic::div_mod::lemma_mod_sub_multiples_vanish(states(), bound as int);
        draw_is_below_bound(*state, bound);
    }
    loop
        invariant
            bound > 0,
            threshold == rejected_below(bound),
            draw(*state, bound) == draw(*old(state), bound),
        decreases states_left(*state),
    {
        let ghost before = *state;
        let value: u64 = splitmix64(state);
        proof {
            step_comes_closer(before);
            sure_state_mixes_to_max();
        }
        if value >= threshold {
            return value % bound;
        }
    }
}

/// Fisher-Yates shuffle with a deterministic SplitMix64 stream for each seed.
pub fn shuffle_seeded<T>(items: &mut [T], seed: u64)
    ensures
        final(items)@ == shuffled(old(items)@, seed),
{
    let mut state: u64 = seed;
    let mut left: usize = items.len();
    while left > 1
        invariant
            left <= items@.len(),
            items@.len() == old(items)@.len(),
            shuffled_to(items@, left - 1, state) == shuffled(old(items)@, seed),
        decreases left,
    {
        left = left - 1;
        let chosen: u64 = draw_below(&mut state, left as u64 + 1);
        items.swap(left, chosen as usize);
    }
}

/// A shuffle only reorders: it keeps every element as often as it occurs.
pub proof fn shuffle_is_a_permutation<T>(items: Seq<T>, seed: u64)
    requires
        items.len() <= u64::MAX,
    ensures
        shuffled(items, seed).to_multiset() == items.to_multiset(),
        shuffled(items, seed).len() == items.len(),
{
    shuffle_to_is_a_permutation(items, items.len() - 1, seed);
}

proof fn shuffle_to_is_a_permutation<T>(items: Seq<T>, last: int, state: u64)
    requires
        last < items.len() <= u64::MAX,
    ensures
        shuffled_to(items, last, state).to_multiset() == items.to_multiset(),
        shuffled_to(items, last, state).len() == items.len(),
    decreases last,
{
    if last > 0 {
        let (next, chosen) = draw(state, (last + 1) as u64);
        draw_is_below_bound(state, (last + 1) as u64);
        exchange_keeps_elements(items, last, chosen);
        shuffle_to_is_a_permutation(exchanged(items, last, chosen), last - 1, next);
    }
}

proof fn exchange_keeps_elements<T>(items: Seq<T>, i: int, j: int)
    requires
        0 <= i < items.len(),
        0 <= j < items.len(),
    ensures
        exchanged(items, i, j).to_multiset() == items.to_multiset(),
{
    broadcast use vstd::seq_lib::group_to_multiset_ensures;
    let first = items.update(i, items[j]);
    vstd::seq_lib::to_multiset_update(items, i, items[j]);
    vstd::seq_lib::to_multiset_update(first, j, items[i]);
    assert(items.to_multiset().contains(items[i]));
    if i == j {
        assert(exchanged(items, i, j) =~= items);
    } else {
        assert(first[j] == items[j]);
        assert(exchanged(items, i, j).to_multiset() =~= items.to_multiset());
    }
}

} // verus!
