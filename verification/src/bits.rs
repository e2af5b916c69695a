//! Numeric groundwork: the signed reading of 16-bit words and of narrow
//! two's-complement bit-fields.

use vstd::prelude::*;
use vstd::arithmetic::power2::{pow2, lemma2_to64, lemma_pow2_pos, lemma_pow2_strictly_increases};

verus! {

/// The signed (two's-complement) value of a full 16-bit word.
pub open spec fn as_signed16(x: u16) -> int {
    if x < 0x8000 {
        x as int
    } else {
        x - 0x10000
    }
}

/// The signed (two's-complement) value of `x` read as a field `bits` wide.
/// Meaningful when `1 <= bits <= 16` and `x` fits in the field.
pub open spec fn as_signed_field(x: u16, bits: u16) -> int {
    if x < pow2((bits - 1) as nat) {
        x as int
    } else {
        x - pow2(bits as nat)
    }
}

/// `pow2` on the small exponents used here, as concrete bounds.
pub proof fn lemma_pow2_16_bounds(k: nat)
    requires
        k <= 16,
    ensures
        k < 16 ==> pow2(k) <= 0x8000,
        pow2(16) == 0x10000,
        pow2(k) >= 1,
{
    lemma2_to64();
    lemma_pow2_pos(k);
    if k < 15 {
        lemma_pow2_strictly_increases(k, 15);
    }
}

} // verus!
