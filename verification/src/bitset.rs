//! What the library relies on from `fixedbitset::FixedBitSet`, the set of matched ids.
use fixedbitset::FixedBitSet;
use vstd::prelude::*;

verus! {

#[verifier::external_type_specification]
#[verifier::external_body]
pub struct ExFixedBitSet(FixedBitSet);

/// The indices of the bits that are enabled.
pub uninterp spec fn bitset_ones(bits: FixedBitSet) -> Set<int>;

/// The length in bits: the bound below which a bit may be set.
pub uninterp spec fn bitset_len(bits: FixedBitSet) -> nat;

/// `FixedBitSet::new` gives a set of length zero with no bit enabled.
pub assume_specification[ FixedBitSet::new ]() -> (bits: FixedBitSet)
    ensures
        bitset_ones(bits) == Set::<int>::empty(),
        bitset_len(bits) == 0,
;

/// `FixedBitSet::contains` tells whether `bit` is enabled; a bit at or beyond the
/// length is never enabled, and the call does not fail for it.
pub assume_specification[ FixedBitSet::contains ](bits: &FixedBitSet, bit: usize) -> (enabled: bool)
    ensures
        enabled == bitset_ones(*bits).contains(bit as int),
;

/// `FixedBitSet::grow` raises the length to `len` where that is more than it was,
/// and enables or disables no bit.
pub assume_specification[ FixedBitSet::grow ](bits: &mut FixedBitSet, len: usize)
    ensures
        bitset_ones(*final(bits)) == bitset_ones(*old(bits)),
        bitset_len(*final(bits)) == if len > bitset_len(*old(bits)) {
            len as nat
        } else {
            bitset_len(*old(bits))
        },
;

/// `FixedBitSet::set` enables or disables one bit below the length and leaves the
/// others; it panics on a bit at or beyond the length, which `requires` excludes.
pub assume_specification[ FixedBitSet::set ](bits: &mut FixedBitSet, bit: usize, enabled: bool)
    requires
        bit < bitset_len(*old(bits)),
    ensures
        bitset_len(*final(bits)) == bitset_len(*old(bits)),
        bitset_ones(*final(bits)) == if enabled {
            bitset_ones(*old(bits)).insert(bit as int)
        } else {
            bitset_ones(*old(bits)).remove(bit as int)
        },
;

} // verus!
