//! The random stream that the simulation consumes.
//!
//! The generator is an outside type. What `next_word` and `shuffle` state of
//! it is believed, not proved; the draws built on them are proved from that.

use crate::fraction::SCALE;
use bevy_prng::WyRand;
use rand::seq::SliceRandom;
use rand::Rng;
use vstd::prelude::*;

verus! {

/// The WyRand generator of `bevy_prng`, carried through as an opaque value.
#[verifier::external_type_specification]
#[verifier::external_body]
pub struct ExWyRand(WyRand);

/// Calls `rand::Rng::random::<u64>`, which hands out the generator's next
/// 64-bit word. Nothing is claimed of the word.
#[verifier::external_body]
pub(crate) fn next_word(rng: &mut WyRand) -> (word: u64) {
    rng.random::<u64>()
}

/// Calls `rand::seq::SliceRandom::shuffle`, which rearranges the slice in
/// place by swapping its elements: the items afterwards are the items
/// before, each as often as before, in some order.
#[verifier::external_body]
pub(crate) fn shuffle<T>(items: &mut Vec<T>, rng: &mut WyRand)
    ensures
        final(items)@.to_multiset() == old(items)@.to_multiset(),
{
    items.shuffle(rng);
}

/// `draws` holds `n` fractions of the unit interval, each below one.
pub open spec fn valid_draws(draws: Seq<u64>, n: nat) -> bool {
    &&& draws.len() == n
    &&& forall|k: int| 0 <= k < n ==> draws[k] < SCALE
}

/// Draws the next fraction of the unit interval: the top 53 bits of the
/// generator's next word, read as a count of steps of `1 / SCALE`.
pub fn draw_unit(rng: &mut WyRand) -> (raw: u64)
    ensures
        raw < SCALE,
{
    let word: u64 = next_word(rng);
    unit_of(word)
}

/// Draws `n` fractions of the unit interval, one after the other.
pub fn draw_units(rng: &mut WyRand, n: usize) -> (draws: Vec<u64>)
    ensures
        valid_draws(draws@, n as nat),
{
    let mut draws: Vec<u64> = Vec::new();
    let mut k: usize = 0;
    while k < n
        invariant
            k <= n,
            valid_draws(draws@, k as nat),
        decreases n - k,
    {
        let raw = draw_unit(rng);
        draws.push(raw);
        k = k + 1;
    }
    draws
}

/// The fraction of the unit interval that a 64-bit word stands for: its top
/// 53 bits, that is the word divided by 2^11 and rounded down, read as a
/// count of steps of `1 / SCALE`.
pub open spec fn spec_unit_of(word: u64) -> u64 {
    word / 2048
}

/// The fraction of the unit interval that a 64-bit word stands for.
pub fn unit_of(word: u64) -> (raw: u64)
    ensures
        raw == spec_unit_of(word),
        raw < SCALE,
{
    let raw: u64 = word >> 11;
    assert(word >> 11 == word / 2048) by (bit_vector);
    assert(word >> 11 < 0x20_0000_0000_0000u64) by (bit_vector);
    raw
}

} // verus!
