//! Seed derivation and the deterministic filler generator.
//!
//! The seed is the 256-bit hash of the carrier's raw pixel bytes; the filler
//! is a pseudo-random byte generator initialized from that seed.  Both are
//! pure functions of their input: the same buffer always yields the same
//! seed, and the same seed always yields the same byte stream.  The two
//! uninterpreted names below stand for those functions; the wrappers hand
//! the outside calls to the verified code above them.

use vstd::prelude::*;
use rand::RngExt;
use rand::SeedableRng;
use rand_xoshiro::Xoshiro256PlusPlus;

verus! {

/// The 256-bit BLAKE3 digest of `data`, as a sequence of 32 bytes.
pub uninterp spec fn hash_of(data: Seq<u8>) -> Seq<u8>;

/// Byte number `i` (counting from zero) of the pseudo-random stream that a
/// xoshiro256++ generator seeded with `seed` produces when driven one byte
/// at a time.
pub uninterp spec fn filler_byte(seed: Seq<u8>, i: int) -> u8;

/// Derive the 256-bit seed from raw pixel bytes.
///
/// Relies on blake3::hash: a pure function of its input producing a 32-byte
/// digest, named `hash_of` here.
#[verifier::external_body]
pub fn get_hash(data: &[u8]) -> (r: [u8; 32])
    ensures
        r@ == hash_of(data@),
        r@.len() == 32,
{
    *blake3::hash(data).as_bytes()
}

/// The opaque state of the outside pseudo-random generator.
#[verifier::external_type_specification]
#[verifier::external_body]
pub struct ExXoshiro(Xoshiro256PlusPlus);

/// The deterministic filler: a pseudo-random byte generator whose whole
/// output stream is fixed by the seed it was created from.
///
/// The private `seed` and `drawn` fields mirror what the opaque generator
/// state already encodes: the state always equals "seeded with `seed`, then
/// advanced `drawn` single-byte draws".  Only `from_seed` and `next_byte`
/// ever touch the fields, so the correspondence holds for every reachable
/// value of the type.
pub(crate) struct Filler {
    rng: Xoshiro256PlusPlus,
    seed: [u8; 32],
    drawn: u64,
}

impl Filler {
    /// The seed this filler was created from.
    pub(crate) closed spec fn seed(self) -> Seq<u8> {
        self.seed@
    }

    /// How many bytes have been drawn so far.
    pub(crate) closed spec fn drawn(self) -> int {
        self.drawn as int
    }

    /// Create a filler from a 256-bit seed.
    ///
    /// Relies on rand_xoshiro::Xoshiro256PlusPlus::from_seed: the initial
    /// generator state is a pure function of the seed.
    #[verifier::external_body]
    pub(crate) fn from_seed(seed: [u8; 32]) -> (f: Filler)
        ensures
            f.seed() == seed@,
            f.drawn() == 0,
    {
        Filler { rng: Xoshiro256PlusPlus::from_seed(seed), seed, drawn: 0 }
    }

    /// Draw the next byte of the stream.
    ///
    /// Relies on rand::RngExt::random::<u8> over Xoshiro256PlusPlus: a draw
    /// is a pure function of the generator state, so byte number `drawn` of
    /// the stream is a pure function of the seed, named `filler_byte` here.
    #[verifier::external_body]
    pub(crate) fn next_byte(&mut self) -> (b: u8)
        requires
            old(self).drawn() < 0xffffffffffffffffu64,
        ensures
            final(self).seed() == old(self).seed(),
            final(self).drawn() == old(self).drawn() + 1,
            b == filler_byte(old(self).seed(), old(self).drawn()),
    {
        let b = self.rng.random::<u8>();
        self.drawn += 1;
        b
    }
}

} // verus!
