//! Domain tags for transaction types.

use vstd::prelude::*;

verus! {

/// Domain tag of transfers.
pub const TRANSFER: u8 = 0x01;

/// Domain tag of settlements.
pub const SETTLE: u8 = 0x02;

/// Domain tag of swaps.
pub const SWAP: u8 = 0x03;

/// Domain tag of escrows.
pub const ESCROW: u8 = 0x04;

/// Domain tag of stakes.
pub const STAKE: u8 = 0x05;

/// Domain tag of WASM calls.
pub const WASM_CALL: u8 = 0x06;

/// Domain tag of multisignature transactions.
pub const MULTISIG: u8 = 0x07;

} // verus!
