//! The filter's laws: no false negatives, idempotence of insert,
//! monotonicity of the set-bit count, and the reset behaviour of clear,
//! each proved over the contracts of the filter's operations.

use vstd::arithmetic::div_mod::lemma_mod_bound;
use vstd::prelude::*;
use vstd::wrapping::u64_specs;

use crate::filter::all_probes_set;
use crate::filter::insert_step;
use crate::filter::is_probe;
use crate::filter::probe_index;
use crate::filter::StandardBloomFilter;
use crate::hashing::BloomHashable;

verus! {

/// The number of bits set in the array.
pub open spec fn popcount(bits: Seq<bool>) -> nat
    decreases bits.len(),
{
    if bits.len() == 0 {
        0
    } else if bits.last() {
        popcount(bits.drop_last()) + 1
    } else {
        popcount(bits.drop_last())
    }
}

/// An insert only ever sets bits: every bit set before it is set after it,
/// and the length is unchanged.
pub proof fn lemma_insert_step_grows(pre: Seq<bool>, post: Seq<bool>, h1: u64, h2: u64, k: u32)
    requires
        insert_step(pre, post, h1, h2, k),
    ensures
        post.len() == pre.len(),
        forall|j: int| 0 <= j < pre.len() ==> (pre[j] ==> post[j]),
{
}

/// Right after an insert, every probe position of the inserted pair is set:
/// a membership test of the same item answers `true`.
pub proof fn lemma_insert_establishes_membership(
    pre: Seq<bool>,
    post: Seq<bool>,
    h1: u64,
    h2: u64,
    k: u32,
)
    requires
        insert_step(pre, post, h1, h2, k),
        pre.len() >= 1,
    ensures
        all_probes_set(post, h1, h2, k),
{
    assert forall|i: u64| i < k implies post[#[trigger] probe_index(h1, h2, i, post.len())] by {
        lemma_mod_bound(
            u64_specs::wrapping_add(h1, u64_specs::wrapping_mul(i, h2)) as int,
            pre.len() as int,
        );
        let j = probe_index(h1, h2, i, pre.len());
        assert(is_probe(j, h1, h2, k, pre.len()));
    }
}

/// Membership survives any later growth of the bit set — in particular, any
/// later inserts of other items: whatever answered `true` still answers
/// `true`.
pub proof fn lemma_membership_preserved(b1: Seq<bool>, b2: Seq<bool>, h1: u64, h2: u64, k: u32)
    requires
        b1.len() >= 1,
        b1.len() == b2.len(),
        forall|j: int| 0 <= j < b1.len() ==> (b1[j] ==> b2[j]),
        all_probes_set(b1, h1, h2, k),
    ensures
        all_probes_set(b2, h1, h2, k),
{
    assert forall|i: u64| i < k implies b2[#[trigger] probe_index(h1, h2, i, b2.len())] by {
        lemma_mod_bound(
            u64_specs::wrapping_add(h1, u64_specs::wrapping_mul(i, h2)) as int,
            b1.len() as int,
        );
        assert(b1[probe_index(h1, h2, i, b1.len())]);
    }
}

/// No false negatives: if an item's probes were all set in one state of a
/// filter — as they are right after `insert` of that item — then in any
/// later state of the same filter (same seeds, same probe count) whose bit
/// set has only grown, a membership test of that item still answers `true`.
pub proof fn lemma_no_false_negative<T: BloomHashable + ?Sized>(
    at_insert: StandardBloomFilter<T>,
    now: StandardBloomFilter<T>,
    item: &T,
)
    requires
        at_insert.bits().len() >= 1,
        at_insert.spec_may_contain(item),
        now.bits().len() == at_insert.bits().len(),
        forall|j: int| 0 <= j < at_insert.bits().len() ==> (at_insert.bits()[j] ==> now.bits()[j]),
        now.k() == at_insert.k(),
        now.seeds() == at_insert.seeds(),
    ensures
        now.spec_may_contain(item),
{
    lemma_membership_preserved(
        at_insert.bits(),
        now.bits(),
        at_insert.spec_hash1(item),
        at_insert.spec_hash2(item),
        at_insert.k(),
    );
}

/// An empty filter contains nothing: with no bit set, every membership
/// test answers `false`.
pub proof fn lemma_empty_contains_nothing<T: BloomHashable + ?Sized>(
    f: StandardBloomFilter<T>,
    item: &T,
)
    requires
        f.bits().len() >= 1,
        f.k() >= 1,
        f.spec_is_empty(),
    ensures
        !f.spec_may_contain(item),
{
    let h1 = f.spec_hash1(item);
    let h2 = f.spec_hash2(item);
    lemma_mod_bound(
        u64_specs::wrapping_add(h1, u64_specs::wrapping_mul(0, h2)) as int,
        f.bits().len() as int,
    );
    assert(!f.bits()[probe_index(h1, h2, 0, f.bits().len())]);
}

/// Idempotence of insert: inserting the same pair of base hashes a second
/// time leaves the bit array exactly as it was after the first insert.
pub proof fn lemma_insert_idempotent(
    b0: Seq<bool>,
    b1: Seq<bool>,
    b2: Seq<bool>,
    h1: u64,
    h2: u64,
    k: u32,
)
    requires
        insert_step(b0, b1, h1, h2, k),
        insert_step(b1, b2, h1, h2, k),
    ensures
        b2 == b1,
{
    assert(b2 =~= b1);
}

/// A bit array that grows pointwise never loses set bits: its popcount is
/// non-decreasing.
pub proof fn lemma_popcount_le(a: Seq<bool>, b: Seq<bool>)
    requires
        a.len() == b.len(),
        forall|j: int| 0 <= j < a.len() ==> (a[j] ==> b[j]),
    ensures
        popcount(a) <= popcount(b),
    decreases a.len(),
{
    if a.len() > 0 {
        let a1 = a.drop_last();
        let b1 = b.drop_last();
        assert(forall|j: int| 0 <= j < a1.len() ==> a1[j] == a[j]);
        assert(forall|j: int| 0 <= j < b1.len() ==> b1[j] == b[j]);
        lemma_popcount_le(a1, b1);
    }
}

/// Monotonicity: the number of set bits never decreases across an insert.
pub proof fn lemma_insert_count_monotone(
    pre: Seq<bool>,
    post: Seq<bool>,
    h1: u64,
    h2: u64,
    k: u32,
)
    requires
        insert_step(pre, post, h1, h2, k),
    ensures
        popcount(pre) <= popcount(post),
{
    lemma_insert_step_grows(pre, post, h1, h2, k);
    lemma_popcount_le(pre, post);
}

/// An all-`false` bit array has popcount exactly zero.
pub proof fn lemma_popcount_all_false(bits: Seq<bool>)
    requires
        forall|j: int| 0 <= j < bits.len() ==> !bits[j],
    ensures
        popcount(bits) == 0,
    decreases bits.len(),
{
    if bits.len() > 0 {
        let b1 = bits.drop_last();
        assert(forall|j: int| 0 <= j < b1.len() ==> b1[j] == bits[j]);
        lemma_popcount_all_false(b1);
    }
}

/// Clear resets to a fresh-equivalent state: afterwards no bit is set — the
/// count of set bits drops to exactly zero — while the bit-array length and
/// the probe-round count are unchanged from construction.
pub proof fn lemma_clear_resets<T: BloomHashable + ?Sized>(
    before: StandardBloomFilter<T>,
    after: StandardBloomFilter<T>,
)
    requires
        after.bits() == Seq::new(before.bits().len(), |i: int| false),
        after.k() == before.k(),
    ensures
        after.spec_is_empty(),
        popcount(after.bits()) == 0,
        after.bits().len() == before.bits().len(),
{
    lemma_popcount_all_false(after.bits());
}

} // verus!
