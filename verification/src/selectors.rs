//! Selector sequences: fixed-length boolean sequences drawn from a
//! pseudo-random generator that is seeded deterministically, so that the
//! same seed always yields the same sequence.

use vstd::prelude::*;

verus! {

#[verifier::external_type_specification]
#[verifier::external_body]
/// rand's standard pseudo-random generator, opaque to the verifier; the
/// two spec functions below say all the contracts need of a value of it.
pub struct ExStdRng(rand::rngs::StdRng);

/// The seed a generator was built from.
pub uninterp spec fn rng_seed(r: rand::rngs::StdRng) -> u64;

/// How many boolean draws were already taken from a generator.
pub uninterp spec fn rng_taken(r: rand::rngs::StdRng) -> nat;

/// The `i`-th even-chance boolean draw of a generator seeded with `seed`.
/// rand's generator is a deterministic function of its seed, so the draw is
/// a function of `seed` and `i` alone.
pub uninterp spec fn seed_bool(seed: u64, i: nat) -> bool;

/// Relies on rand's `SeedableRng::seed_from_u64` for `StdRng`: builds the
/// generator from the seed alone, deterministically (rand documents the
/// algorithm as deterministic and value-stable).
#[verifier::external_body]
fn rng_from_seed(seed: u64) -> (r: rand::rngs::StdRng)
    ensures
        rng_seed(r) == seed,
        rng_taken(r) == 0,
{
    <rand::rngs::StdRng as rand::SeedableRng>::seed_from_u64(seed)
}

/// Relies on rand's `Rng::gen_ratio` with ratio one half: one even-chance
/// Bernoulli draw, a deterministic function of the generator's seed and of
/// how many draws were taken before.
#[verifier::external_body]
fn rng_next_bool(rng: &mut rand::rngs::StdRng) -> (b: bool)
    ensures
        rng_seed(*final(rng)) == rng_seed(*old(rng)),
        rng_taken(*final(rng)) == rng_taken(*old(rng)) + 1,
        b == seed_bool(rng_seed(*old(rng)), rng_taken(*old(rng))),
{
    rand::Rng::gen_ratio(rng, 1, 2)
}

/// The selector sequence of a seed: element `i` is the `i`-th draw of a
/// generator seeded with the seed.
pub open spec fn selector_seq(seed: u8, n: nat) -> Seq<bool> {
    Seq::new(n, |i: int| seed_bool(seed as u64, i as nat))
}

/// Generate the selector sequence for `seed`, of the given length: one
/// even-chance boolean per index, from a generator seeded with `seed` alone.
pub fn generate(seed: u8, length: usize) -> (r: Vec<bool>)
    ensures
        r@ == selector_seq(seed, length as nat),
{
    let mut rng = rng_from_seed(seed as u64);
    let mut out: Vec<bool> = Vec::new();
    while out.len() < length
        invariant
            rng_seed(rng) == seed as u64,
            rng_taken(rng) == out@.len(),
            out@.len() <= length,
            forall|i: int| 0 <= i < out@.len() ==> out@[i] == seed_bool(seed as u64, i as nat),
        decreases length - out.len(),
    {
        let b = rng_next_bool(&mut rng);
        out.push(b);
    }
    proof {
        assert(out@ =~= selector_seq(seed, length as nat));
    }
    out
}

/// Law: selector generation is deterministic. Any two sequences generated
/// from the same seed and the same length are equal, element for element.
pub proof fn lemma_generate_deterministic(a: Seq<bool>, b: Seq<bool>, seed: u8, n: nat)
    requires
        a == selector_seq(seed, n),
        b == selector_seq(seed, n),
    ensures
        a == b,
{
}

} // verus!
