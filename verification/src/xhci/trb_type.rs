//! TRB type codes (bits 15..10 of a TRB's control word).
use vstd::prelude::*;

verus! {

pub const LINK: u8 = 6;

/// No Op Command (command ring).
pub const NO_OP_CMD: u8 = 23;

pub const ENABLE_SLOT: u8 = 9;

pub const DISABLE_SLOT: u8 = 10;

pub const ADDRESS_DEVICE: u8 = 11;

pub const CONFIGURE_ENDPOINT: u8 = 12;

pub const EVALUATE_CONTEXT: u8 = 13;

pub const RESET_ENDPOINT: u8 = 14;

pub const STOP_ENDPOINT: u8 = 15;

pub const SET_TR_DEQUEUE: u8 = 16;

pub const RESET_DEVICE: u8 = 17;

pub const TRANSFER_EVENT: u8 = 32;

pub const COMMAND_COMPLETION: u8 = 33;

pub const PORT_STATUS_CHANGE: u8 = 34;

} // verus!
