//! A `u32` read as a set of indices below 32.

use vstd::prelude::*;
use vstd::std_specs::bits::axiom_u32_trailing_zeros;

verus! {

/// Whether bit `i` of `mask` is set.
pub open spec fn mask_has(mask: u32, i: u32) -> bool {
    i < 32 && (mask >> i) & 1 == 1
}

/// The indices of the set bits of `mask`.
pub open spec fn mask_members(mask: u32) -> Set<u32> {
    Set::new(|i: u32| mask_has(mask, i))
}

/// No bit is set in zero, and only in zero.
pub proof fn lemma_mask_empty(mask: u32)
    ensures
        mask == 0 <==> mask_members(mask) == Set::<u32>::empty(),
{
    assert forall|i: u32| i < 32 implies (0u32 >> i) & 1 == 0 by {
        assert((0u32 >> i) & 1 == 0) by (bit_vector)
            requires
                i < 32,
        ;
    }
    if mask != 0 {
        axiom_u32_trailing_zeros(mask);
        assert(mask_members(mask).contains(mask.trailing_zeros()));
    } else {
        assert(mask_members(mask) =~= Set::<u32>::empty());
    }
}

/// Setting a bit inserts its index.
pub proof fn lemma_mask_insert(mask: u32, i: u32)
    requires
        i < 32,
    ensures
        mask_members(mask | (1u32 << i)) == mask_members(mask).insert(i),
{
    assert forall|j: u32| #[trigger]
        mask_has(mask | (1u32 << i), j) <==> (j == i || mask_has(mask, j)) by {
        if j < 32 {
            assert((((mask | (1u32 << i)) >> j) & 1 == 1) <==> (j == i || (mask >> j) & 1 == 1))
                by (bit_vector)
                requires
                    i < 32,
                    j < 32,
            ;
        }
    }
    assert(mask_members(mask | (1u32 << i)) =~= mask_members(mask).insert(i));
}

/// Clearing a bit removes its index.
pub proof fn lemma_mask_remove(mask: u32, i: u32)
    requires
        i < 32,
    ensures
        mask_members(mask & !(1u32 << i)) == mask_members(mask).remove(i),
{
    assert forall|j: u32| #[trigger]
        mask_has(mask & !(1u32 << i), j) <==> (j != i && mask_has(mask, j)) by {
        if j < 32 {
            assert((((mask & !(1u32 << i)) >> j) & 1 == 1) <==> (j != i && (mask >> j) & 1 == 1))
                by (bit_vector)
                requires
                    i < 32,
                    j < 32,
            ;
        }
    }
    assert(mask_members(mask & !(1u32 << i)) =~= mask_members(mask).remove(i));
}

/// A masked test of one bit is membership.
pub proof fn lemma_mask_test(mask: u32, i: u32)
    requires
        i < 32,
    ensures
        mask & (1u32 << i) != 0 <==> mask_members(mask).contains(i),
{
    assert(mask & (1u32 << i) != 0 <==> (mask >> i) & 1 == 1) by (bit_vector)
        requires
            i < 32,
    ;
}

/// The number of trailing zeros of a nonzero mask is its least member.
pub proof fn lemma_mask_least(mask: u32)
    requires
        mask != 0,
    ensures
        mask_members(mask).contains(mask.trailing_zeros()),
        forall|j: u32| #[trigger]
            mask_members(mask).contains(j) ==> mask.trailing_zeros() <= j,
{
    axiom_u32_trailing_zeros(mask);
    assert forall|j: u32| #[trigger] mask_members(mask).contains(j) implies mask.trailing_zeros()
        <= j by {
        if j < mask.trailing_zeros() {
            assert((mask >> j) & 1u32 == 0u32);
        }
    }
}

} // verus!
