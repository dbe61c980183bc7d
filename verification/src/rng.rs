use vstd::prelude::*;

verus! {

/// The multiplier of the 128-bit multiplicative congruential step.
pub const RNG_MUL: u128 = 0x2360ED051FC65DA44385DF649FCCF645u128;

/// The fixed odd seed the generator starts from.
pub const RNG_SEED: u128 = 0x7369787465656E2062797465206E756Du128 | 1;

/// The successor state: the current state times the fixed multiplier,
/// reduced modulo two to the 128th.
pub open spec fn rng_next_state(s: u128) -> u128 {
    vstd::wrapping::u128_specs::wrapping_mul(s, RNG_MUL)
}

/// A right rotation of a 64-bit word by `r` bit positions, for `r` below 64.
pub open spec fn rng_rotr(x: u64, r: u64) -> u64 {
    if r == 0 {
        x
    } else {
        (x >> r) | (x << (64 - r))
    }
}

/// The value drawn from a state: the exclusive-or of the state's halves,
/// rotated right by the state's top six bits.
pub open spec fn rng_output(s: u128) -> u64 {
    let next = rng_next_state(s);
    rng_rotr(((next >> 64) as u64) ^ (next as u64), (next >> 122) as u64)
}

/// A small deterministic pseudo-random generator: a 128-bit multiplicative
/// congruential state with an xor-shift-rotate output. It only breaks ties
/// among book moves and owes nothing but determinism.
#[derive(Debug)]
pub struct Rng(pub u128);

impl Rng {
    /// The generator in its fixed start state.
    pub fn new() -> (r: Self)
        ensures
            r.0 == RNG_SEED,
    {
        Self(0x7369787465656E2062797465206E756Du128 | 1)
    }

    /// Advance the state one step and draw a value from it.
    pub fn next(&mut self) -> (r: u64)
        ensures
            final(self).0 == rng_next_state(old(self).0),
            r == rng_output(old(self).0),
    {
        self.0 = self.0.wrapping_mul(RNG_MUL);
        let rot = (self.0 >> 122) as u64;
        proof {
            let s = self.0;
            assert((s >> 122) < 64) by (bit_vector);
        }
        let xsl = ((self.0 >> 64) as u64) ^ (#[verifier::truncate] (self.0 as u64));
        if rot == 0 {
            xsl
        } else {
            (xsl >> rot) | (xsl << (64 - rot))
        }
    }
}

} // verus!
