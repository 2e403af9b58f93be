use rand::rngs::StdRng;
use rand::{RngCore, SeedableRng};
use shard_json_array::seeds::{choose_base_seed, entity_rng, entity_seed, mix64, seed_or};

#[test]
fn mix64_has_the_published_values() {
    assert_eq!(mix64(0), 0);
    assert_eq!(mix64(1), 0x5692161d100b05e5);
    assert_eq!(mix64(0x9e3779b97f4a7c15), 0xe220a8397b1dcdaf);
}

#[test]
fn entity_seeds_are_mixed_twice() {
    assert_eq!(entity_seed(42, 0), mix64(mix64(42)));
    assert_eq!(entity_seed(42, 7), mix64(mix64(42) ^ 7));
    assert_eq!(entity_seed(42, 7), 0xec82485eec5d3ee6);
}

#[test]
fn entity_seeds_are_distinct() {
    let mut seeds: Vec<u64> = (0..2000).map(|i| entity_seed(42, i)).collect();
    seeds.sort();
    seeds.dedup();
    assert_eq!(seeds.len(), 2000);
    assert_ne!(entity_seed(1, 5), entity_seed(2, 5));
}

#[test]
fn entity_rng_starts_from_the_entity_seed() {
    let mut rng = entity_rng(42, 7);
    let mut expected = StdRng::seed_from_u64(entity_seed(42, 7));
    assert_eq!(rng.next_u64(), expected.next_u64());
    assert_eq!(rng.next_u32(), expected.next_u32());
}

#[test]
fn the_seed_asked_for_is_taken() {
    assert_eq!(choose_base_seed(Some(99)), 99);
    assert_eq!(seed_or(Some(1), 2), 1);
    assert_eq!(seed_or(None, 2), 2);
}

#[test]
fn without_a_seed_runs_differ() {
    let a = choose_base_seed(None);
    let b = choose_base_seed(None);
    let c = choose_base_seed(None);
    assert!(a != b || b != c);
}
