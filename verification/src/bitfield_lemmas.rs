use vstd::prelude::*;

verus! {

/// Bit `k` of byte `b`, counted from the least significant bit.
pub open spec fn byte_bit(b: u8, k: u8) -> bool {
    (b >> k) & 1u8 == 1u8
}

/// Setting bit `k` of a byte makes bit `k` one and leaves the other bits as they were.
pub proof fn lemma_or_sets_bit(b: u8, k: u8, m: u8)
    requires
        k < 8,
        m < 8,
    ensures
        byte_bit(b | (1u8 << k), m) == (byte_bit(b, m) || m == k),
{
    assert(((b | (1u8 << k)) >> m) & 1u8 == 1u8 <==> (((b >> m) & 1u8 == 1u8) || m == k))
        by (bit_vector)
        requires
            k < 8,
            m < 8,
    ;
}

/// The zero byte has no bit set.
pub proof fn lemma_zero_byte(k: u8)
    requires
        k < 8,
    ensures
        !byte_bit(0u8, k),
{
    assert((0u8 >> k) & 1u8 == 0u8) by (bit_vector)
        requires
            k < 8,
    ;
}

} // verus!
