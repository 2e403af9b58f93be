//! Seeds: one random generator per entity, all from one base seed.
use rand::rngs::StdRng;
use vstd::arithmetic::div_mod::{lemma_mod_multiples_vanish, lemma_mul_mod_noop_left, lemma_small_mod};
use vstd::prelude::*;

use crate::random::{random_u64, rng_state, seeded_rng, seeded_state};

verus! {

/// Multiplication modulo two to the power of 64.
pub open spec fn times(x: u64, factor: u64) -> u64 {
    ((x * factor) % 0x1_0000_0000_0000_0000) as u64
}

/// The SplitMix64 finalizer: two rounds of folding the high bits onto the low ones and
/// multiplying, and a last fold.
pub open spec fn mixed(z: u64) -> u64 {
    let a = times(z ^ (z >> 30), 0xbf58476d1ce4e5b9);
    let b = times(a ^ (a >> 27), 0x94d049bb133111eb);
    b ^ (b >> 31)
}

/// The seed of the generator for entity `i`.
pub open spec fn entity_seed_spec(base_seed: u64, i: u64) -> u64 {
    mixed(mixed(base_seed) ^ i)
}

/// Mixes the bits of `z`, for seeding.
pub fn mix64(z: u64) -> (r: u64)
    ensures
        r == mixed(z),
{
    let a: u64 = (z ^ (z >> 30)).wrapping_mul(0xbf58476d1ce4e5b9);
    let b: u64 = (a ^ (a >> 27)).wrapping_mul(0x94d049bb133111eb);
    b ^ (b >> 31)
}

/// Where `factor` and `inverse` multiply to one modulo two to the power of 64, multiplying by
/// `factor` is undone by multiplying by `inverse`.
proof fn lemma_times_undone(x: u64, factor: u64, inverse: u64, quotient: int)
    requires
        factor * inverse == quotient * 0x1_0000_0000_0000_0000 + 1,
    ensures
        times(times(x, factor), inverse) == x,
{
    let m: int = 0x1_0000_0000_0000_0000;
    let product = (x * factor) as int;
    lemma_mul_mod_noop_left(product, inverse as int, m);
    assert(product * inverse == m * (x * quotient) + x) by (nonlinear_arith)
        requires
            product == x * factor,
            factor * inverse == quotient * 0x1_0000_0000_0000_0000 + 1,
            m == 0x1_0000_0000_0000_0000,
    ;
    lemma_mod_multiples_vanish(x * quotient, x as int, m);
    lemma_small_mod(x as nat, m as nat);
}

/// Mixing loses nothing: different numbers are mixed to different numbers.
pub proof fn law_mix64_injective(x: u64, y: u64)
    requires
        mixed(x) == mixed(y),
    ensures
        x == y,
{
    let xa = times(x ^ (x >> 30), 0xbf58476d1ce4e5b9);
    let ya = times(y ^ (y >> 30), 0xbf58476d1ce4e5b9);
    let xb = times(xa ^ (xa >> 27), 0x94d049bb133111eb);
    let yb = times(ya ^ (ya >> 27), 0x94d049bb133111eb);
    assert(xb == yb) by (bit_vector)
        requires
            xb ^ (xb >> 31) == yb ^ (yb >> 31),
    ;
    lemma_times_undone(xa ^ (xa >> 27), 0x94d049bb133111eb, 0x319642b2d24d8ec3, 0x1cd336eda85f1453);
    lemma_times_undone(ya ^ (ya >> 27), 0x94d049bb133111eb, 0x319642b2d24d8ec3, 0x1cd336eda85f1453);
    assert(xa == ya) by (bit_vector)
        requires
            xa ^ (xa >> 27) == ya ^ (ya >> 27),
    ;
    lemma_times_undone(x ^ (x >> 30), 0xbf58476d1ce4e5b9, 0x96de1b173f119089, 0x70c3bca78f27f46c);
    lemma_times_undone(y ^ (y >> 30), 0xbf58476d1ce4e5b9, 0x96de1b173f119089, 0x70c3bca78f27f46c);
    assert(x == y) by (bit_vector)
        requires
            x ^ (x >> 30) == y ^ (y >> 30),
    ;
}

/// Mixing can be undone, at every number: the folds by folding again, the multiplications by
/// multiplying with the inverses modulo two to the power of 64.
pub proof fn law_mix64_undone(z: u64)
    ensures
        ({
            let r = mixed(z);
            let b = r ^ (r >> 31) ^ (r >> 62);
            let p = ((b * 0x319642b2d24d8ec3) % 0x1_0000_0000_0000_0000) as u64;
            let a = p ^ (p >> 27) ^ (p >> 54);
            let q = ((a * 0x96de1b173f119089) % 0x1_0000_0000_0000_0000) as u64;
            q ^ (q >> 30) ^ (q >> 60) == z
        }),
{
    let z1 = z ^ (z >> 30);
    let a = times(z1, 0xbf58476d1ce4e5b9);
    let a1 = a ^ (a >> 27);
    let b = times(a1, 0x94d049bb133111eb);
    let r = b ^ (b >> 31);
    assert(b == r ^ (r >> 31) ^ (r >> 62)) by (bit_vector)
        requires
            r == b ^ (b >> 31),
    ;
    lemma_times_undone(a1, 0x94d049bb133111eb, 0x319642b2d24d8ec3, 0x1cd336eda85f1453);
    assert(a == a1 ^ (a1 >> 27) ^ (a1 >> 54)) by (bit_vector)
        requires
            a1 == a ^ (a >> 27),
    ;
    lemma_times_undone(z1, 0xbf58476d1ce4e5b9, 0x96de1b173f119089, 0x70c3bca78f27f46c);
    assert(z == z1 ^ (z1 >> 30) ^ (z1 >> 60)) by (bit_vector)
        requires
            z1 == z ^ (z >> 30),
    ;
}

/// The seed of an entity is a mixed number, and that number is as far from the mixed base seed as
/// the entity is from the first one, bit by bit.
pub proof fn law_entity_seed_from_base(base_seed: u64, i: u64, x: u64)
    ensures
        entity_seed_spec(base_seed, i) == mixed(x) <==> x ^ mixed(base_seed) == i,
{
    let m = mixed(base_seed);
    assert(x ^ m == i <==> x == m ^ i) by (bit_vector);
    if entity_seed_spec(base_seed, i) == mixed(x) {
        law_mix64_injective(m ^ i, x);
    }
}

/// Under one base seed, no two entities share a seed.
pub proof fn law_entity_seeds_distinct(base_seed: u64, i: u64, j: u64)
    requires
        i != j,
    ensures
        entity_seed_spec(base_seed, i) != entity_seed_spec(base_seed, j),
{
    let m = mixed(base_seed);
    if mixed(m ^ i) == mixed(m ^ j) {
        law_mix64_injective(m ^ i, m ^ j);
        assert(i == j) by (bit_vector)
            requires
                m ^ i == m ^ j,
        ;
    }
}

/// Different base seeds never give one entity the same seed.
pub proof fn law_base_seeds_matter(a: u64, b: u64, i: u64)
    requires
        a != b,
    ensures
        entity_seed_spec(a, i) != entity_seed_spec(b, i),
{
    let x = mixed(a);
    let y = mixed(b);
    if mixed(x ^ i) == mixed(y ^ i) {
        law_mix64_injective(x ^ i, y ^ i);
        assert(x == y) by (bit_vector)
            requires
                x ^ i == y ^ i,
        ;
        law_mix64_injective(a, b);
    }
}

/// The seed of the generator for entity `i`: a function of the base seed and the entity alone,
/// whichever thread generates it.
pub fn entity_seed(base_seed: u64, i: u64) -> (seed: u64)
    ensures
        seed == entity_seed_spec(base_seed, i),
{
    mix64(mix64(base_seed) ^ i)
}

/// The generator for entity `i`.
pub fn entity_rng(base_seed: u64, i: u64) -> (rng: StdRng)
    ensures
        rng_state(rng) == seeded_state(entity_seed_spec(base_seed, i)),
{
    seeded_rng(entity_seed(base_seed, i))
}

/// The seed asked for, or else the one drawn.
pub fn seed_or(asked: Option<u64>, drawn: u64) -> (seed: u64)
    ensures
        seed == match asked {
            Some(s) => s,
            None => drawn,
        },
{
    match asked {
        Some(seed) => seed,
        None => drawn,
    }
}

/// `value` is what a call of `random_u64` gave.
pub closed spec fn is_random(value: u64) -> bool {
    call_ensures(random_u64, (), value)
}

/// Only a call of `random_u64` makes a random number.
pub(crate) proof fn law_random_numbers_are_drawn(value: u64)
    ensures
        is_random(value) <==> call_ensures(random_u64, (), value),
{
}

/// The base seed of a run: the one asked for, or else a random one, of which nothing is promised
/// but that it was drawn for this run. A random number is drawn only where no seed was asked for.
pub fn choose_base_seed(asked: Option<u64>) -> (seed: u64)
    ensures
        asked is Some ==> seed == asked->0,
        asked is None ==> is_random(seed),
{
    match asked {
        Some(seed) => seed,
        None => seed_or(None, random_u64()),
    }
}

} // verus!
