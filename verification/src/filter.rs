//! The filter core: the bit array, the derived sizing parameters, the two
//! hash seeds, and the insert / membership / clear state machine.

use bit_vec::BitVec;
use std::marker::PhantomData;
use vstd::arithmetic::div_mod::lemma_mod_bound;
use vstd::prelude::*;
use vstd::wrapping::u64_specs;

use crate::bits::bits_clear;
use crate::bits::bits_get;
use crate::bits::bits_len;
use crate::bits::bits_new;
use crate::bits::bits_none;
use crate::bits::bits_of;
use crate::bits::bits_set;
use crate::hashing::seeded_hash;
use crate::hashing::spec_seeded_hash;
use crate::hashing::random_seed;
use crate::hashing::BloomHashable;
use crate::params::bitmap_size;
use crate::params::optimal_k;
use crate::params::spec_bitmap_size;
use crate::params::spec_optimal_k;
use crate::params::BloomError;
use crate::params::FpRate;

verus! {

/// The probe position of round `i`: `(h1 + i * h2) mod m`, the addition and
/// multiplication wrapping at 64 bits.
pub open spec fn probe_index(h1: u64, h2: u64, i: u64, m: nat) -> int
    recommends
        m >= 1,
{
    u64_specs::wrapping_add(h1, u64_specs::wrapping_mul(i, h2)) as int % (m as int)
}

/// Some round below `k` probes position `j`.
pub open spec fn is_probe(j: int, h1: u64, h2: u64, k: u32, m: nat) -> bool {
    exists|i: u64| i < k && #[trigger] probe_index(h1, h2, i, m) == j
}

/// Every one of the `k` probe positions of `(h1, h2)` is set in `bits`.
pub open spec fn all_probes_set(bits: Seq<bool>, h1: u64, h2: u64, k: u32) -> bool {
    forall|i: u64| i < k ==> bits[#[trigger] probe_index(h1, h2, i, bits.len())]
}

/// How one insert changes the bit array: exactly the probe positions of
/// `(h1, h2)` become set, every other bit is unchanged.
pub open spec fn insert_step(pre: Seq<bool>, post: Seq<bool>, h1: u64, h2: u64, k: u32) -> bool {
    &&& post.len() == pre.len()
    &&& forall|j: int|
        0 <= j < pre.len() ==> #[trigger] post[j] == (pre[j] || is_probe(
            j,
            h1,
            h2,
            k,
            pre.len(),
        ))
}

/// The probe position of round `k_i`, as executable code: enhanced double
/// hashing, deriving round `k_i`'s position from the two base hashes with
/// wrapping 64-bit arithmetic.
pub fn get_index(h1: u64, h2: u64, k_i: u64, len: usize) -> (idx: usize)
    requires
        len >= 1,
    ensures
        idx as int == probe_index(h1, h2, k_i, len as nat),
        idx < len,
{
    let combined_hash: u64 = h1.wrapping_add(k_i.wrapping_mul(h2));
    proof {
        lemma_mod_bound(combined_hash as int, len as int);
    }
    (combined_hash % (len as u64)) as usize
}

/// A standard Bloom filter over items of type `T`.
///
/// A Bloom filter is a space-efficient probabilistic set-membership
/// structure: `contains` may answer `true` for an item that was never
/// inserted (a false positive), but it never answers `false` for an item
/// that was inserted and not cleared since (no false negatives).
///
/// The structure is single-threaded by design: it holds no lock and is not
/// safe for concurrent mutation without external synchronization.
#[verifier::reject_recursive_types(T)]
pub struct StandardBloomFilter<T: BloomHashable + ?Sized> {
    bitmap: BitVec,
    optimal_k: u32,
    seed_a: u64,
    seed_b: u64,
    _marker: PhantomData<T>,
}

impl<T: BloomHashable + ?Sized> StandardBloomFilter<T> {
    /// The filter's bit array, as a sequence of booleans.
    pub closed spec fn bits(self) -> Seq<bool> {
        bits_of(self.bitmap)
    }

    /// The number of probe rounds per operation.
    pub closed spec fn k(self) -> u32 {
        self.optimal_k
    }

    /// The two hash seeds, fixed for the filter's lifetime.
    pub closed spec fn seeds(self) -> (u64, u64) {
        (self.seed_a, self.seed_b)
    }

    /// The first base hash of an item under this filter's seeds.
    pub open spec fn spec_hash1(self, item: &T) -> u64 {
        spec_seeded_hash(self.seeds().0, item.hash_bytes())
    }

    /// The second base hash of an item under this filter's seeds.
    pub open spec fn spec_hash2(self, item: &T) -> u64 {
        spec_seeded_hash(self.seeds().1, item.hash_bytes())
    }

    /// Every probe position of the item is set, so a membership test
    /// answers `true`.
    pub open spec fn spec_may_contain(self, item: &T) -> bool {
        all_probes_set(self.bits(), self.spec_hash1(item), self.spec_hash2(item), self.k())
    }

    /// No bit is set.
    pub open spec fn spec_is_empty(self) -> bool {
        forall|j: int| 0 <= j < self.bits().len() ==> !self.bits()[j]
    }

    #[verifier::type_invariant]
    spec fn wf(self) -> bool {
        &&& self.optimal_k >= 1
        &&& bits_of(self.bitmap).len() >= 1
    }

    /// A filter sized for `items_count` expected items at the target
    /// false-positive rate, with both hash seeds drawn at random.
    ///
    /// Rejects a zero item count and any rate not strictly between 0 and 1.
    pub fn new(items_count: usize, fp_rate: FpRate) -> (result: Result<Self, BloomError>)
        ensures
            result is Ok <==> (items_count >= 1 && fp_rate.spec_valid()),
            result matches Ok(f) ==> f.bits() == Seq::new(
                spec_bitmap_size(items_count as int, fp_rate.num as int, fp_rate.den as int) as nat,
                |i: int| false,
            ),
            result matches Ok(f) ==> f.k() as int == spec_optimal_k(
                fp_rate.num as int,
                fp_rate.den as int,
            ),
            result matches Err(e) ==> e == BloomError::InvalidParameter,
    {
        let seed_a: u64 = random_seed();
        let seed_b: u64 = random_seed();
        Self::with_seeds(items_count, fp_rate, seed_a, seed_b)
    }

    /// A filter with caller-supplied hash seeds, for reproducible use;
    /// otherwise exactly `new`.
    pub fn with_seeds(items_count: usize, fp_rate: FpRate, seed_a: u64, seed_b: u64) -> (result:
        Result<Self, BloomError>)
        ensures
            result is Ok <==> (items_count >= 1 && fp_rate.spec_valid()),
            result matches Ok(f) ==> f.bits() == Seq::new(
                spec_bitmap_size(items_count as int, fp_rate.num as int, fp_rate.den as int) as nat,
                |i: int| false,
            ),
            result matches Ok(f) ==> f.k() as int == spec_optimal_k(
                fp_rate.num as int,
                fp_rate.den as int,
            ),
            result matches Ok(f) ==> f.seeds() == (seed_a, seed_b),
            result matches Err(e) ==> e == BloomError::InvalidParameter,
    {
        if items_count == 0 {
            return Err(BloomError::InvalidParameter);
        }
        if !fp_rate.is_valid() {
            return Err(BloomError::InvalidParameter);
        }
        let m: usize = bitmap_size(items_count, &fp_rate);
        let k: u32 = optimal_k(&fp_rate);
        let bitmap: BitVec = bits_new(m);
        proof {
            assert(bits_of(bitmap) =~= Seq::new(
                spec_bitmap_size(items_count as int, fp_rate.num as int, fp_rate.den as int) as nat,
                |i: int| false,
            ));
        }
        Ok(
            StandardBloomFilter {
                bitmap,
                optimal_k: k,
                seed_a,
                seed_b,
                _marker: PhantomData,
            },
        )
    }

    /// Insert an item: set each of the `k` probe positions derived from its
    /// two base hashes. Inserting is idempotent and only ever sets bits.
    pub fn insert(&mut self, item: &T)
        ensures
            final(self).k() == old(self).k(),
            final(self).seeds() == old(self).seeds(),
            insert_step(
                old(self).bits(),
                final(self).bits(),
                old(self).spec_hash1(item),
                old(self).spec_hash2(item),
                old(self).k(),
            ),
            final(self).spec_may_contain(item),
    {
        proof {
            use_type_invariant(&*self);
        }
        let h1: u64 = seeded_hash(self.seed_a, item);
        let h2: u64 = seeded_hash(self.seed_b, item);
        let len: usize = bits_len(&self.bitmap);
        let k: u32 = self.optimal_k;
        let ghost pre: Seq<bool> = self.bits();
        let mut k_i: u32 = 0;
        while k_i < k
            invariant
                self.optimal_k == k,
                1 <= k,
                self.seed_a == old(self).seed_a,
                self.seed_b == old(self).seed_b,
                h1 == old(self).spec_hash1(item),
                h2 == old(self).spec_hash2(item),
                pre == old(self).bits(),
                pre.len() == len,
                1 <= len,
                bits_of(self.bitmap).len() == len,
                k_i <= k,
                forall|j: int|
                    0 <= j < len ==> #[trigger] bits_of(self.bitmap)[j] == (pre[j] || is_probe(
                        j,
                        h1,
                        h2,
                        k_i,
                        len as nat,
                    )),
            decreases k - k_i,
        {
            let index: usize = get_index(h1, h2, k_i as u64, len);
            let ghost before: Seq<bool> = bits_of(self.bitmap);
            bits_set(&mut self.bitmap, index);
            proof {
                let m: nat = len as nat;
                assert forall|j: int|
                    0 <= j < len implies #[trigger] bits_of(self.bitmap)[j] == (pre[j] || is_probe(
                    j,
                    h1,
                    h2,
                    (k_i + 1) as u32,
                    m,
                )) by {
                    if j == index {
                        assert(probe_index(h1, h2, k_i as u64, m) == j);
                        assert(is_probe(j, h1, h2, (k_i + 1) as u32, m));
                    } else {
                        assert(bits_of(self.bitmap)[j] == before[j]);
                        if is_probe(j, h1, h2, (k_i + 1) as u32, m) {
                            let i = choose|i: u64|
                                i < k_i + 1 && #[trigger] probe_index(h1, h2, i, m) == j;
                            assert(i != k_i as u64);
                            assert(is_probe(j, h1, h2, k_i, m));
                        }
                        if is_probe(j, h1, h2, k_i, m) {
                            let i = choose|i: u64|
                                i < k_i && #[trigger] probe_index(h1, h2, i, m) == j;
                            assert(is_probe(j, h1, h2, (k_i + 1) as u32, m));
                        }
                    }
                }
            }
            k_i = k_i + 1;
        }
        proof {
            assert(insert_step(pre, bits_of(self.bitmap), h1, h2, k));
            assert forall|i: u64| i < k implies bits_of(self.bitmap)[#[trigger] probe_index(
                h1,
                h2,
                i,
                bits_of(self.bitmap).len(),
            )] by {
                lemma_mod_bound(
                    u64_specs::wrapping_add(h1, u64_specs::wrapping_mul(i, h2)) as int,
                    len as int,
                );
                let j = probe_index(h1, h2, i, len as nat);
                assert(is_probe(j, h1, h2, k, len as nat));
            }
        }
    }

    /// Test membership: `true` iff every one of the item's `k` probe
    /// positions is set. `false` is definite non-membership; `true` may be
    /// a false positive, but is guaranteed after an insert of the same item
    /// with no intervening clear.
    pub fn contains(&self, item: &T) -> (r: bool)
        ensures
            r == self.spec_may_contain(item),
    {
        proof {
            use_type_invariant(&*self);
        }
        let h1: u64 = seeded_hash(self.seed_a, item);
        let h2: u64 = seeded_hash(self.seed_b, item);
        let len: usize = bits_len(&self.bitmap);
        let k: u32 = self.optimal_k;
        let mut k_i: u32 = 0;
        while k_i < k
            invariant
                self.optimal_k == k,
                h1 == self.spec_hash1(item),
                h2 == self.spec_hash2(item),
                bits_of(self.bitmap).len() == len,
                1 <= len,
                k_i <= k,
                forall|i: u64|
                    i < k_i ==> bits_of(self.bitmap)[#[trigger] probe_index(h1, h2, i, len as nat)],
            decreases k - k_i,
        {
            let index: usize = get_index(h1, h2, k_i as u64, len);
            let bit: bool = match bits_get(&self.bitmap, index) {
                Some(b) => b,
                None => false,
            };
            if !bit {
                return false;
            }
            k_i = k_i + 1;
        }
        true
    }

    /// Reset every bit to `false`. The length, the probe-round count and the
    /// hash seeds are kept, so the filter behaves afterwards exactly like a
    /// freshly constructed one of the same parameters.
    pub fn clear(&mut self)
        ensures
            final(self).bits() == Seq::new(old(self).bits().len(), |i: int| false),
            final(self).k() == old(self).k(),
            final(self).seeds() == old(self).seeds(),
            final(self).spec_is_empty(),
    {
        proof {
            use_type_invariant(&*self);
        }
        bits_clear(&mut self.bitmap);
    }

    /// The fixed length `m` of the bit array, in bits.
    pub fn len(&self) -> (n: usize)
        ensures
            n == self.bits().len(),
            n >= 1,
    {
        proof {
            use_type_invariant(&*self);
        }
        bits_len(&self.bitmap)
    }

    /// Whether no bit is currently set.
    pub fn is_empty(&self) -> (r: bool)
        ensures
            r == self.spec_is_empty(),
    {
        let r: bool = bits_none(&self.bitmap);
        proof {
            if r {
                assert(self.spec_is_empty());
            } else {
                let j = choose|j: int|
                    0 <= j < bits_of(self.bitmap).len() && #[trigger] bits_of(self.bitmap)[j];
                assert(self.bits()[j]);
            }
        }
        r
    }

    /// The number `k` of probe rounds per operation.
    pub fn hash_count(&self) -> (k: u32)
        ensures
            k == self.k(),
            k >= 1,
    {
        proof {
            use_type_invariant(&*self);
        }
        self.optimal_k
    }
}

} // verus!
