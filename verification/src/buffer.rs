use vstd::prelude::*;

verus! {

/// The size rounded up by the mask `!(alignment - 1)` when `alignment` is positive;
/// the size itself otherwise.
pub open spec fn spec_aligned_size(instance_size: u64, alignment: u64) -> u64 {
    if alignment > 0 {
        ((instance_size + alignment - 1) as u64) & !((alignment - 1) as u64)
    } else {
        instance_size
    }
}

/// Rounds `instance_size` up with the mask `!(alignment - 1)` when `alignment` is positive.
pub fn get_alignment(instance_size: u64, min_offset_alignment: u64) -> (res: u64)
    requires
        instance_size + min_offset_alignment <= u64::MAX,
    ensures
        res == spec_aligned_size(instance_size, min_offset_alignment),
{
    if min_offset_alignment > 0 {
        (instance_size + min_offset_alignment - 1) & !(min_offset_alignment - 1)
    } else {
        instance_size
    }
}

/// For an alignment that is a power of two, the aligned size is a multiple of the alignment
/// (its bits below the alignment are clear), not below the size and less than one alignment
/// above it: the least such multiple.
pub proof fn lemma_aligned_size_is_next_multiple(instance_size: u64, alignment: u64)
    requires
        alignment > 0,
        alignment & ((alignment - 1) as u64) == 0,
        instance_size + alignment <= u64::MAX,
    ensures
        spec_aligned_size(instance_size, alignment) & ((alignment - 1) as u64) == 0,
        instance_size <= spec_aligned_size(instance_size, alignment),
        spec_aligned_size(instance_size, alignment) < instance_size + alignment,
{
    let s = instance_size;
    let a = alignment;
    let r = spec_aligned_size(s, a);
    assert(r == ((s + a - 1) as u64) & !((a - 1) as u64));
    assert(r & ((a - 1) as u64) == 0) by (bit_vector)
        requires
            a > 0,
            r == ((s + a - 1) as u64) & !((a - 1) as u64),
    ;
    assert(s <= r && r < s + a) by (bit_vector)
        requires
            a > 0,
            a & ((a - 1) as u64) == 0,
            s + a <= 0xffff_ffff_ffff_ffffu64,
            r == ((s + a - 1) as u64) & !((a - 1) as u64),
    ;
}

} // verus!
