use vstd::prelude::*;

verus! {

/// Sign bit of a 32-bit IEEE 754 pattern.
pub const SIGN_BIT: u32 = 0x8000_0000;

/// Exponent and fraction bits of a 32-bit IEEE 754 pattern.
pub const MAGNITUDE_BITS: u32 = 0x7fff_ffff;

/// Exponent field of a 32-bit pattern with every bit set.
pub const EXPONENT_BITS: u32 = 0x7f80_0000;

/// The pattern encodes NaN: all exponent bits set and a non-zero fraction.
pub open spec fn is_nan_bits(bits: u32) -> bool {
    (bits & MAGNITUDE_BITS) > EXPONENT_BITS
}

/// The signed magnitude of a pattern: its exponent and fraction bits, negated
/// when the sign bit is set. Both zeros map to 0.
pub open spec fn signed_magnitude(bits: u32) -> int {
    if bits & SIGN_BIT != 0 {
        -((bits & MAGNITUDE_BITS) as int)
    } else {
        (bits & MAGNITUDE_BITS) as int
    }
}

/// The order key of an f32 given by its bit pattern: its signed magnitude, or
/// `None` for NaN. Keys compare as the numbers do, and equal keys are equal
/// numbers (both zeros share key 0).
pub fn order_key(bits: u32) -> (r: Option<i64>)
    ensures
        is_nan_bits(bits) <==> r is None,
        r is Some ==> r->0 == signed_magnitude(bits),
{
    let magnitude = bits & MAGNITUDE_BITS;
    if magnitude > EXPONENT_BITS {
        None
    } else if bits & SIGN_BIT != 0 {
        Some(-(magnitude as i64))
    } else {
        Some(magnitude as i64)
    }
}

/// The keys that some non-NaN pattern maps to.
pub open spec fn is_key(key: int) -> bool {
    -(EXPONENT_BITS as int) <= key <= EXPONENT_BITS as int
}

/// The bit pattern of a key's number: the magnitude with the sign bit set for a
/// negative key. Key 0 gives positive zero.
pub fn from_order_key(key: i64) -> (bits: u32)
    requires
        is_key(key as int),
    ensures
        !is_nan_bits(bits),
        signed_magnitude(bits) == key,
        key == 0 ==> bits == 0,
{
    if key < 0 {
        let magnitude = (-key) as u32;
        let bits = magnitude | SIGN_BIT;
        assert(bits & MAGNITUDE_BITS == magnitude && bits & SIGN_BIT != 0) by (bit_vector)
            requires
                bits == magnitude | 0x8000_0000u32,
                magnitude <= 0x7f80_0000u32,
        ;
        bits
    } else {
        let bits = key as u32;
        assert(bits & MAGNITUDE_BITS == bits && bits & SIGN_BIT == 0) by (bit_vector)
            requires
                bits <= 0x7f80_0000u32,
        ;
        bits
    }
}

/// Two patterns with the same signed magnitude are the same pattern, except
/// for the two zeros.
proof fn lemma_signed_magnitude_injective(a: u32, b: u32)
    requires
        signed_magnitude(a) == signed_magnitude(b),
        signed_magnitude(a) != 0,
    ensures
        a == b,
{
    assert(a == b) by (bit_vector)
        requires
            (a & 0x8000_0000u32 != 0) == (b & 0x8000_0000u32 != 0),
            a & 0x7fff_ffffu32 == b & 0x7fff_ffffu32,
    ;
}

/// A non-NaN pattern is determined by its key: its key is one that
/// `from_order_key` accepts, and a non-NaN pattern with the same key (such as
/// the one `from_order_key` rebuilds) is the same pattern, or both are zeros.
pub proof fn lemma_order_key_round_trip(bits: u32, back: u32)
    requires
        !is_nan_bits(bits),
        !is_nan_bits(back),
        signed_magnitude(back) == signed_magnitude(bits),
    ensures
        is_key(signed_magnitude(bits)),
        bits == back || (bits & MAGNITUDE_BITS == 0 && back & MAGNITUDE_BITS == 0),
{
    assert((bits & 0x7fff_ffffu32) <= 0x7f80_0000u32) by (bit_vector)
        requires
            !((bits & 0x7fff_ffffu32) > 0x7f80_0000u32),
    ;
    if signed_magnitude(bits) != 0 {
        lemma_signed_magnitude_injective(bits, back);
    }
}

} // verus!
