//! The seeded shuffle.

use quick_ubu::shuffle::{shuffle_seeded, splitmix64};

#[test]
fn splitmix64_matches_known_outputs() {
    let mut state = 0;
    assert_eq!(splitmix64(&mut state), 0xe220_a839_7b1d_cdaf);
    assert_eq!(splitmix64(&mut state), 0x6e78_9e6a_a1b9_65f4);
}

#[test]
fn shuffle_seeded_is_deterministic_seed_sensitive_and_a_permutation() {
    let original: Vec<i32> = (0..128).collect();
    let mut first = original.clone();
    let mut repeated = original.clone();
    let mut other_seed = original.clone();
    shuffle_seeded(&mut first, 42);
    shuffle_seeded(&mut repeated, 42);
    shuffle_seeded(&mut other_seed, 43);
    assert_eq!(first, repeated);
    assert_ne!(first, other_seed);
    assert_ne!(first, original);
    first.sort();
    other_seed.sort();
    assert_eq!(first, original);
    assert_eq!(other_seed, original);
}

#[test]
fn shuffle_preserves_duplicates_and_handles_empty_and_singleton_slices() {
    for seed in [0, 1, u64::MAX] {
        let mut empty: Vec<String> = Vec::new();
        shuffle_seeded(&mut empty, seed);
        assert!(empty.is_empty());
        let mut singleton = ["only".to_string()];
        shuffle_seeded(&mut singleton, seed);
        assert_eq!(singleton, ["only"]);
        let mut repeated = vec!["a".to_string(), "b".to_string(), "a".to_string(), "c".to_string()];
        shuffle_seeded(&mut repeated, seed);
        repeated.sort();
        assert_eq!(repeated, ["a", "a", "b", "c"]);
    }
}

#[test]
fn shuffling_three_draws_two_numbers() {
    // The draws of seed 0 are 0xe220a8397b1dcdaf and 0x6e789e6aa1b965f4: the first picks among
    // three places, the second among two.
    let mut items = ['a', 'b', 'c'];
    shuffle_seeded(&mut items, 0);
    let first = (0xe220_a839_7b1d_cdaf_u64 % 3) as usize;
    let second = (0x6e78_9e6a_a1b9_65f4_u64 % 2) as usize;
    let mut expected = ['a', 'b', 'c'];
    expected.swap(2, first);
    expected.swap(1, second);
    assert_eq!(items, expected);
}
