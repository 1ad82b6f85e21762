//! USBCMD register bits.
use vstd::prelude::*;

verus! {

/// Run/Stop.
pub const RS: u32 = 1 << 0;

/// Host Controller Reset.
pub const HCRST: u32 = 1 << 1;

/// Interrupter Enable.
pub const INTE: u32 = 1 << 2;

/// Host System Error Enable.
pub const HSEE: u32 = 1 << 3;

} // verus!
