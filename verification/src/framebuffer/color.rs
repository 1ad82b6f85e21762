//! Punk Science palette (sRGB).
use vstd::prelude::*;

verus! {

pub const HARDCORE_BLACK: (u8, u8, u8) = (0x0E, 0x0E, 0x10);

pub const NOVA_WHITE: (u8, u8, u8) = (0xF5, 0xF1, 0xEA);

pub const BUILD_ACID: (u8, u8, u8) = (0xD6, 0xFF, 0x3F);

pub const HALIFAX_COBALT: (u8, u8, u8) = (0x3A, 0x6B, 0xFF);

} // verus!
