//! USBSTS register bits.
use vstd::prelude::*;

verus! {

/// HC Halted.
pub const HCH: u32 = 1 << 0;

/// Controller Not Ready.
pub const CNR: u32 = 1 << 11;

} // verus!
