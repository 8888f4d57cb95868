//! The hash kernel: two base hashes per operation, each the digest of a
//! seeded `DefaultHasher` fed the item's canonical byte representation.
//!
//! `DefaultHasher`'s digest is a fixed function of the byte writes it has
//! seen, so one base hash is a fixed function of the seed and the item's
//! bytes: inserts and queries of the same item under the same filter agree
//! on every probe position, which is what rules out false negatives.

use std::collections::hash_map::DefaultHasher;
use std::collections::hash_map::RandomState;
use std::hash::BuildHasher;
use std::hash::Hasher;
use vstd::bytes::spec_u64_to_le_bytes;
use vstd::bytes::u64_to_le_bytes;
use vstd::prelude::*;
use vstd::std_specs::hash::DefaultHasherAdditionalSpecFns;
use vstd::string::StringSliceAdditionalSpecFns;

verus! {

/// What one seeded base hash returns: the digest of a fresh `DefaultHasher`
/// fed the seed's eight little-endian bytes, then the item's canonical bytes.
pub open spec fn spec_seeded_hash(seed: u64, bytes: Seq<u8>) -> u64 {
    DefaultHasher::spec_finish(seq![spec_u64_to_le_bytes(seed), bytes])
}

/// An item the filter can hold: it has a canonical byte representation and
/// feeds that representation into a hash state as one write.
pub trait BloomHashable {
    /// The item's canonical hashable representation.
    spec fn hash_bytes(&self) -> Seq<u8>;

    /// Append the canonical representation to the hash state, as one write.
    fn feed(&self, state: &mut DefaultHasher)
        ensures
            final(state)@ == old(state)@.push(self.hash_bytes()),
    ;
}

impl BloomHashable for str {
    open spec fn hash_bytes(&self) -> Seq<u8> {
        self.spec_bytes()
    }

    fn feed(&self, state: &mut DefaultHasher) {
        state.write(self.as_bytes());
    }
}

impl BloomHashable for [u8] {
    open spec fn hash_bytes(&self) -> Seq<u8> {
        self@
    }

    fn feed(&self, state: &mut DefaultHasher) {
        state.write(self);
    }
}

impl BloomHashable for Vec<u8> {
    open spec fn hash_bytes(&self) -> Seq<u8> {
        self@
    }

    fn feed(&self, state: &mut DefaultHasher) {
        state.write(self.as_slice());
    }
}

impl BloomHashable for u32 {
    open spec fn hash_bytes(&self) -> Seq<u8> {
        spec_u64_to_le_bytes(*self as u64)
    }

    fn feed(&self, state: &mut DefaultHasher) {
        let bytes = u64_to_le_bytes(*self as u64);
        state.write(bytes.as_slice());
    }
}

impl BloomHashable for u64 {
    open spec fn hash_bytes(&self) -> Seq<u8> {
        spec_u64_to_le_bytes(*self)
    }

    fn feed(&self, state: &mut DefaultHasher) {
        let bytes = u64_to_le_bytes(*self);
        state.write(bytes.as_slice());
    }
}

impl BloomHashable for usize {
    open spec fn hash_bytes(&self) -> Seq<u8> {
        spec_u64_to_le_bytes(*self as u64)
    }

    fn feed(&self, state: &mut DefaultHasher) {
        let bytes = u64_to_le_bytes(*self as u64);
        state.write(bytes.as_slice());
    }
}

impl BloomHashable for i32 {
    open spec fn hash_bytes(&self) -> Seq<u8> {
        if *self >= 0 {
            spec_u64_to_le_bytes(*self as u64)
        } else {
            spec_u64_to_le_bytes(((*self as int) + 0x100000000) as u64)
        }
    }

    fn feed(&self, state: &mut DefaultHasher) {
        let v: u64 = if *self >= 0 {
            *self as u64
        } else {
            ((*self as i64) + 0x100000000i64) as u64
        };
        let bytes = u64_to_le_bytes(v);
        state.write(bytes.as_slice());
    }
}

impl BloomHashable for i64 {
    open spec fn hash_bytes(&self) -> Seq<u8> {
        if *self >= 0 {
            spec_u64_to_le_bytes(*self as u64)
        } else {
            spec_u64_to_le_bytes(((*self as int) + 0x10000000000000000) as u64)
        }
    }

    fn feed(&self, state: &mut DefaultHasher) {
        let v: u64 = if *self >= 0 {
            *self as u64
        } else {
            ((*self as i128) + 0x10000000000000000i128) as u64
        };
        let bytes = u64_to_le_bytes(v);
        state.write(bytes.as_slice());
    }
}

/// One base hash of the item under the given seed.
pub fn seeded_hash<T: BloomHashable + ?Sized>(seed: u64, item: &T) -> (h: u64)
    ensures
        h == spec_seeded_hash(seed, item.hash_bytes()),
{
    let mut state = DefaultHasher::new();
    let seed_bytes = u64_to_le_bytes(seed);
    state.write(seed_bytes.as_slice());
    item.feed(&mut state);
    proof {
        assert(state@ =~= seq![spec_u64_to_le_bytes(seed), item.hash_bytes()]);
    }
    state.finish()
}

/// A fresh 64-bit seed.
///
/// Relies on std's `RandomState::new`, which draws per-instance randomness;
/// the digest of a hasher it builds serves as the seed. Nothing is promised
/// of the value.
#[verifier::external_body]
pub(crate) fn random_seed() -> u64 {
    RandomState::new().build_hasher().finish()
}

} // verus!
