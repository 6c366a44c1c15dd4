//! Random number generators.
use vstd::prelude::*;

pub use wyrand::WyRand as WyRng;

use getrandom::Error as GetrandomError;

use crate::radix::{
    digits_below, lemma_pow_monotone, lemma_value_bound, lemma_value_take_step, pow_nat, radix_value,
};

verus! {

/// The seed taken in place of zero, which Xorshift cannot leave.
pub const DEFAULT_SEED: u64 = 0x9e3779b97f4a7c15;

/// One step of Xorshift64 (shifts 13, 7, 17).
pub open spec fn xorshift64(x: u64) -> u64 {
    let a = x ^ (x << 13u64);
    let b = a ^ (a >> 7u64);
    b ^ (b << 17u64)
}

/// The seed actually used for a given seed: zero is replaced by `DEFAULT_SEED`.
pub open spec fn effective_seed(seed: u64) -> u64 {
    if seed == 0 {
        DEFAULT_SEED
    } else {
        seed
    }
}

/// Xorshift64 never reaches zero from a nonzero state.
pub proof fn lemma_xorshift64_nonzero(x: u64)
    requires
        x != 0,
    ensures
        xorshift64(x) != 0,
{
    assert({
        let a = x ^ (x << 13u64);
        let b = a ^ (a >> 7u64);
        b ^ (b << 17u64) != 0
    }) by (bit_vector)
        requires
            x != 0,
    ;
}

/// Fast but predictable pseudo-random generator (Xorshift64).
#[derive(Debug)]
pub struct Xorshift64 {
    seed: u64,
}

impl View for Xorshift64 {
    type V = u64;

    /// The current state.
    closed spec fn view(&self) -> u64 {
        self.seed
    }
}

impl Clone for Xorshift64 {
    fn clone(&self) -> (copy: Self)
        ensures
            copy@ == self@,
    {
        proof {
            use_type_invariant(self);
        }
        Xorshift64 { seed: self.seed }
    }
}

impl Xorshift64 {
    #[verifier::type_invariant]
    spec fn nonzero(self) -> bool {
        self.seed != 0
    }

    /// A generator seeded with `seed` (zero is replaced by `DEFAULT_SEED`).
    pub fn new(seed: u64) -> (rng: Self)
        ensures
            rng@ == effective_seed(seed),
            rng@ != 0,
    {
        Self { seed: if seed == 0 { DEFAULT_SEED } else { seed } }
    }

    /// Advance the state one Xorshift64 step and return the new state.
    pub fn next(&mut self) -> (x: u64)
        ensures
            x == xorshift64(old(self)@),
            final(self)@ == x,
            x != 0,
    {
        proof {
            use_type_invariant(&*self);
            lemma_xorshift64_nonzero(self.seed);
        }
        let mut x = self.seed;
        x ^= x << 13u64;
        x ^= x >> 7u64;
        x ^= x << 17u64;
        self.seed = x;
        x
    }
}

/// The big-endian number of 8 bytes, as a seed.
pub fn seed_from_bytes(bytes: [u8; 8]) -> (seed: u64)
    ensures
        seed as nat == radix_value(bytes@, 256),
{
    let mut seed: u64 = 0;
    let mut i: usize = 0;
    proof {
        reveal_with_fuel(pow_nat, 8);
    }
    while i < 8
        invariant
            i <= 8,
            seed as nat == radix_value(bytes@.take(i as int), 256),
            pow_nat(256, 7) == 0x100000000000000,
        decreases 8 - i,
    {
        proof {
            lemma_value_take_step(bytes@, 256, i as int);
            let prefix = bytes@.take(i as int);
            assert(digits_below(prefix, 256));
            lemma_value_bound(prefix, 256);
            lemma_pow_monotone(256, i as nat, 7);
        }
        let b = bytes[i];
        assert((seed << 8u64) | (b as u64) == seed * 256 + b) by (bit_vector)
            requires
                seed < 0x100000000000000u64,
        ;
        seed = (seed << 8u64) | (b as u64);
        i += 1;
    }
    assert(bytes@.take(8) =~= bytes@);
    seed
}

#[verifier::external_type_specification]
#[verifier::external_body]
pub struct ExGetrandomError(GetrandomError);

/// `getrandom::getrandom`: fills `dest` with random bytes from the operating
/// system, or fails. The bytes are random: nothing is stated of them.
#[verifier::external_body]
fn getrandom_fill(dest: &mut [u8; 8]) -> Result<(), GetrandomError> {
    getrandom::getrandom(dest)
}

/// A seed from the operating system's random source: its 8 random bytes read
/// big-endian (see `seed_from_bytes`); `None` when the source fails.
pub fn secure_seed() -> Option<u64> {
    let mut buf = [0u8; 8];
    match getrandom_fill(&mut buf) {
        Ok(()) => Some(seed_from_bytes(buf)),
        Err(_) => None,
    }
}

} // verus!
