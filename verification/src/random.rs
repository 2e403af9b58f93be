//! The random generator: what is trusted of the draws that `rand` makes.
//!
//! A generator is deterministic: what it draws next follows from its state, and so does the state
//! it is left in. Each draw is named as a function from the state to the value drawn and the next
//! state, so that whatever is built from draws is pinned down by the state it started from.
use rand::distributions::{Alphanumeric, DistString};
use rand::rngs::StdRng;
use rand::{Rng, SeedableRng};
use vstd::prelude::*;

verus! {

/// `rand::rngs::StdRng`, the generator.
#[verifier::external_type_specification]
#[verifier::external_body]
pub struct ExStdRng(StdRng);

/// The state of a generator: all that its later draws depend on, as one number.
pub uninterp spec fn rng_state(rng: StdRng) -> int;

/// The state that `StdRng::seed_from_u64` starts from.
pub uninterp spec fn seeded_state(seed: u64) -> int;

/// What `Rng::gen_range` draws from the integers `low..=high` of a type of `bits` bits, and the
/// state after it.
pub uninterp spec fn uniform_draw(state: int, bits: nat, low: int, high: int) -> (int, int);

/// What `Rng::gen_ratio` draws with a chance of `numerator` in `denominator`, and the state after
/// it.
pub uninterp spec fn ratio_draw(state: int, numerator: nat, denominator: nat) -> (bool, int);

/// What `sample_string` of `Alphanumeric` draws for `len` characters, and the state after it.
pub uninterp spec fn alphanumeric_draw(state: int, len: nat) -> (Seq<char>, int);

/// `c` is an ASCII letter or digit.
pub open spec fn is_alphanumeric(c: char) -> bool {
    ||| 'a' <= c <= 'z'
    ||| 'A' <= c <= 'Z'
    ||| '0' <= c <= '9'
}

/// `StdRng::seed_from_u64`: a generator whose state depends on the seed alone.
#[verifier::external_body]
pub(crate) fn seeded_rng(seed: u64) -> (rng: StdRng)
    ensures
        rng_state(rng) == seeded_state(seed),
{
    StdRng::seed_from_u64(seed)
}

/// `rand::random`: some number, from a generator that the operating system seeds. Nothing can be
/// promised of which.
#[verifier::external_body]
pub(crate) fn random_u64() -> (value: u64) {
    rand::random()
}

/// `Rng::gen_range` on a range of `u32`: an integer of the range, drawn from 32-bit numbers. On
/// ranges of non-negative `i32` the method draws the same.
#[verifier::external_body]
pub(crate) fn draw_u32(rng: &mut StdRng, low: u32, high: u32) -> (value: u32)
    requires
        low <= high,
    ensures
        (value as int, rng_state(*final(rng))) == uniform_draw(
            rng_state(*old(rng)),
            32,
            low as int,
            high as int,
        ),
        low <= value <= high,
{
    rng.gen_range(low..=high)
}

/// `Rng::gen_range` on a range of `u64`: an integer of the range, drawn from 64-bit numbers. On
/// ranges of non-negative `i64` the method draws the same.
#[verifier::external_body]
pub(crate) fn draw_u64(rng: &mut StdRng, low: u64, high: u64) -> (value: u64)
    requires
        low <= high,
    ensures
        (value as int, rng_state(*final(rng))) == uniform_draw(
            rng_state(*old(rng)),
            64,
            low as int,
            high as int,
        ),
        low <= value <= high,
{
    rng.gen_range(low..=high)
}

/// `Rng::gen_range` on a range of `usize`: an integer of the range, drawn from numbers as wide as
/// the machine's addresses.
#[verifier::external_body]
pub(crate) fn draw_usize(rng: &mut StdRng, low: usize, high: usize) -> (value: usize)
    requires
        low <= high,
    ensures
        (value as int, rng_state(*final(rng))) == uniform_draw(
            rng_state(*old(rng)),
            usize::BITS as nat,
            low as int,
            high as int,
        ),
        low <= value <= high,
{
    rng.gen_range(low..=high)
}

/// `Rng::gen_ratio`: true with a chance of `numerator` in `denominator`. It draws what `gen_bool`
/// draws for the nearest floating-point number to that fraction.
#[verifier::external_body]
pub(crate) fn draw_ratio(rng: &mut StdRng, numerator: u32, denominator: u32) -> (value: bool)
    requires
        0 < denominator,
        numerator <= denominator,
    ensures
        (value, rng_state(*final(rng))) == ratio_draw(
            rng_state(*old(rng)),
            numerator as nat,
            denominator as nat,
        ),
        numerator == 0 ==> !value,
        numerator == denominator ==> value,
{
    rng.gen_ratio(numerator, denominator)
}

/// `sample_string` of `Alphanumeric`: a text of `len` ASCII letters and digits.
#[verifier::external_body]
pub(crate) fn draw_alphanumeric(rng: &mut StdRng, len: usize) -> (text: String)
    ensures
        (text@, rng_state(*final(rng))) == alphanumeric_draw(rng_state(*old(rng)), len as nat),
        text@.len() == len,
        forall|i: int| 0 <= i < len ==> is_alphanumeric(#[trigger] text@[i]),
{
    Alphanumeric.sample_string(rng, len)
}

} // verus!
