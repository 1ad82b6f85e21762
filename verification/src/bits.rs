//! Fields of 32-bit register values: reading a field with a shift and a mask,
//! as the code does, gives what dividing and taking a remainder gives, as
//! the contracts say.
use vstd::prelude::*;

verus! {

/// Byte and half-word fields of a 32-bit value, both ways.
pub(crate) proof fn lemma_u32_fields(d: u32)
    ensures
        d & 0xFF == d % 0x100,
        d & 0xFFFF == d % 0x1_0000,
        (d >> 8u32) & 0xFF == (d / 0x100) % 0x100,
        (d >> 16u32) & 0xFF == (d / 0x1_0000) % 0x100,
        (d >> 16u32) & 0xFFFF == d / 0x1_0000,
        d >> 16u32 == d / 0x1_0000,
        (d >> 24u32) & 0xFF == d / 0x100_0000,
        d >> 24u32 == d / 0x100_0000,
{
    assert(d & 0xFF == d % 0x100 && d & 0xFFFF == d % 0x1_0000 && (d >> 8u32) & 0xFF == (d / 0x100) % 0x100 && (d
        >> 16u32) & 0xFF == (d / 0x1_0000) % 0x100 && (d >> 16u32) & 0xFFFF == d / 0x1_0000 && d >> 16u32 == d
        / 0x1_0000 && (d >> 24u32) & 0xFF == d / 0x100_0000 && d >> 24u32 == d / 0x100_0000) by (bit_vector);
}

} // verus!
