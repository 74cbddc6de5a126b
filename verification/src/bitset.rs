//! The bit set that tells which tiles of an object are solid.
//!
//! The set is `fixedbitset::FixedBitSet`. Verus does not read that crate: what
//! is stated here of its methods is taken from its source and is not proved.

use vstd::prelude::*;
use fixedbitset::FixedBitSet;

verus! {

/// Makes `fixedbitset::FixedBitSet` known to Verus, as a type whose inside it
/// does not see.
#[verifier::external_type_specification]
#[verifier::external_body]
pub struct ExFixedBitSet(FixedBitSet);

/// The bits of a set, from bit 0 on: as many as the set was made for.
pub uninterp spec fn bits_of(set: FixedBitSet) -> Seq<bool>;

/// `FixedBitSet::with_capacity`: a set of `bits` bits, all of them clear.
#[verifier::external_body]
pub(crate) fn bitset_with_capacity(bits: usize) -> (set: FixedBitSet)
    ensures
        bits_of(set) == Seq::new(bits as nat, |i: int| false),
{
    FixedBitSet::with_capacity(bits)
}

/// `FixedBitSet::len`: the number of bits that the set has, set or clear.
#[verifier::external_body]
pub(crate) fn bitset_len(set: &FixedBitSet) -> (len: usize)
    ensures
        len == bits_of(*set).len(),
{
    set.len()
}

/// `FixedBitSet::insert_range` over the whole set: every bit is set, and
/// the set keeps its size.
#[verifier::external_body]
pub(crate) fn bitset_insert_all(set: &mut FixedBitSet)
    ensures
        bits_of(*final(set)) == Seq::new(bits_of(*old(set)).len(), |i: int| true),
{
    set.insert_range(..);
}

/// `FixedBitSet::set`: the bit at `bit` becomes `enabled`, and no other bit
/// changes. The method panics for a bit that the set does not have, so such
/// a bit is not accepted.
#[verifier::external_body]
pub(crate) fn bitset_set(set: &mut FixedBitSet, bit: usize, enabled: bool)
    requires
        bit < bits_of(*old(set)).len(),
    ensures
        bits_of(*final(set)) == bits_of(*old(set)).update(bit as int, enabled),
{
    set.set(bit, enabled);
}

/// Indexing a `FixedBitSet`: whether the bit at `bit` is set. A bit that the
/// set does not have counts as clear.
#[verifier::external_body]
pub(crate) fn bitset_get(set: &FixedBitSet, bit: usize) -> (enabled: bool)
    ensures
        enabled == (bit < bits_of(*set).len() && bits_of(*set)[bit as int]),
{
    set[bit]
}

/// `FixedBitSet::ones`, gathered into a vector: the places of the bits that
/// are set, each once, from the least to the greatest.
#[verifier::external_body]
pub(crate) fn bitset_ones(set: &FixedBitSet) -> (ones: Vec<usize>)
    ensures
        forall|i: int, j: int| 0 <= i < j < ones@.len() ==> ones@[i] < ones@[j],
        forall|i: int| 0 <= i < ones@.len() ==> ones@[i] < bits_of(*set).len() && bits_of(
            *set,
        )[#[trigger] ones@[i] as int],
        forall|bit: int|
            0 <= bit < bits_of(*set).len() && #[trigger] bits_of(*set)[bit] ==> exists|i: int|
                0 <= i < ones@.len() && ones@[i] == bit,
{
    set.ones().collect()
}

} // verus!
