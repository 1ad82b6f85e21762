//! PORTSC register bits.
use vstd::prelude::*;

verus! {

/// Current Connect Status.
pub const CCS: u32 = 1 << 0;

/// Port Enabled/Disabled.
pub const PED: u32 = 1 << 1;

/// Port Reset.
pub const PR: u32 = 1 << 4;

/// Port Power.
pub const PP: u32 = 1 << 9;

/// Port Reset Change.
pub const PRC: u32 = 1 << 21;

/// First bit of the Port Speed field.
pub const SPEED_SHIFT: u32 = 10;

/// Port Speed field.
pub const SPEED_MASK: u32 = 0xF << 10;

} // verus!
