//! The id sets of the index: `BitSet`, a hierarchical bit set, with what the
//! index takes for granted of it.
use specs::hibitset::{BitSetLike, DrainableBitSet};
use specs::BitSet;
use vstd::prelude::*;

verus! {

/// `BitSet`, taken as it is: nothing of its layers is seen here.
#[verifier::external_type_specification]
#[verifier::external_body]
pub struct ExBitSet(BitSet);

/// The ids that a bit set holds: those whose bit is set in its bottom layer.
pub uninterp spec fn bitset_ids(set: BitSet) -> Set<u32>;

/// Whether the three summary layers of a bit set agree with its bottom layer:
/// a summary bit is set exactly where the word below it is not zero, and no
/// id of the set reaches `id_limit()`. Emptiness tests and draining go by the
/// summary layers, so they are right of such sets only.
pub uninterp spec fn bitset_layers_agree(set: BitSet) -> bool;

/// The ids below this limit are the ones a bit set can hold: the limit is
/// the fourth power of the number of bits in a `usize`.
pub open spec fn id_limit() -> int {
    if usize::BITS == 64 {
        16_777_216
    } else {
        1_048_576
    }
}

/// Whether a bit set can hold `id`.
pub fn id_in_range(id: u32) -> (in_range: bool)
    ensures
        in_range == (id < id_limit()),
{
    if usize::BITS == 64 {
        id < 16_777_216
    } else {
        id < 1_048_576
    }
}

/// `BitSet::new`: a set without ids, all layers zero.
#[verifier::external_body]
pub(crate) fn new_set() -> (set: BitSet)
    ensures
        bitset_ids(set) == Set::<u32>::empty(),
        bitset_layers_agree(set),
{
    BitSet::new()
}

/// `BitSet::add`: sets the bit of `id` in every layer and says whether it was
/// set before. The bit set panics on an id above the limit and takes the
/// limit itself into the wrong summary bit, so both are left out.
#[verifier::external_body]
pub(crate) fn add_id(set: &mut BitSet, id: u32) -> (was_member: bool)
    requires
        id < id_limit(),
    ensures
        bitset_ids(*final(set)) == bitset_ids(*old(set)).insert(id),
        bitset_layers_agree(*old(set)) ==> bitset_layers_agree(*final(set)),
        was_member == bitset_ids(*old(set)).contains(id),
{
    set.add(id)
}

/// `BitSet::remove`: clears the bit of `id`, and each summary bit above it
/// whose word has become zero; says whether the bit was set. An id that the
/// set does not hold changes nothing.
#[verifier::external_body]
pub(crate) fn remove_id(set: &mut BitSet, id: u32) -> (was_member: bool)
    ensures
        bitset_ids(*final(set)) == bitset_ids(*old(set)).remove(id),
        bitset_layers_agree(*old(set)) ==> bitset_layers_agree(*final(set)),
        was_member == bitset_ids(*old(set)).contains(id),
{
    set.remove(id)
}

/// `BitSet::contains`: whether the bit of `id` is set in the bottom layer.
#[verifier::external_body]
pub(crate) fn has_id(set: &BitSet, id: u32) -> (is_member: bool)
    ensures
        is_member == bitset_ids(*set).contains(id),
{
    set.contains(id)
}

/// `BitSetLike::is_empty`: whether the top layer is zero, which for a set
/// whose layers agree means that it holds no id.
#[verifier::external_body]
pub(crate) fn set_is_empty(set: &BitSet) -> (empty: bool)
    ensures
        bitset_layers_agree(*set) ==> empty == bitset_ids(*set).is_empty(),
{
    set.is_empty()
}

/// `DrainableBitSet::drain`, run to its end: the iterator walks the layers
/// from the top, hands out each id once and removes it, so that a set whose
/// layers agree comes out empty and every id it held is in the result.
#[verifier::external_body]
pub(crate) fn drain_ids(set: &mut BitSet) -> (ids: Vec<u32>)
    ensures
        bitset_layers_agree(*old(set)) ==> {
            &&& ids@.no_duplicates()
            &&& ids@.to_set() == bitset_ids(*old(set))
            &&& bitset_ids(*final(set)) == Set::<u32>::empty()
            &&& bitset_layers_agree(*final(set))
        },
{
    set.drain().collect()
}

} // verus!
