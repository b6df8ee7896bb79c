//! The positions of the named fields inside a transaction's payload.
//!
//! The circuit that checks a block reads the payload by these positions.

use vstd::prelude::*;

verus! {

pub const TOKEN_ID: usize = 0;

pub const AMOUNT: usize = 1;

pub const ACCOUNT_ID1: usize = 2;

pub const ACCOUNT_ID2: usize = 3;

pub const ETH_ADDR1: usize = 4;

pub const ETH_ADDR2: usize = 5;

pub const SIGN1: usize = 6;

pub const SIGN2: usize = 7;

pub const AY1: usize = 8;

pub const AY2: usize = 9;

pub const NONCE1: usize = 10;

pub const NONCE2: usize = 11;

pub const BALANCE1: usize = 12;

pub const BALANCE2: usize = 13;

pub const BALANCE3: usize = 14;

pub const BALANCE4: usize = 15;

/// Reserved for the signature; the state engine leaves it zero.
pub const SIG_L2_HASH: usize = 16;

/// Reserved for the signature; the state engine leaves it zero.
pub const S: usize = 17;

/// Reserved for the signature; the state engine leaves it zero.
pub const R8X: usize = 18;

/// Reserved for the signature; the state engine leaves it zero.
pub const R8Y: usize = 19;

pub const TOKEN_ID2: usize = 20;

pub const AMOUNT2: usize = 21;

pub const ORDER1_ID: usize = 22;

pub const ORDER1_AMOUNT_SELL: usize = 23;

pub const ORDER1_AMOUNT_BUY: usize = 24;

pub const ORDER1_FILLED_SELL: usize = 25;

pub const ORDER1_FILLED_BUY: usize = 26;

pub const ORDER2_ID: usize = 27;

pub const ORDER2_AMOUNT_SELL: usize = 28;

pub const ORDER2_AMOUNT_BUY: usize = 29;

pub const ORDER2_FILLED_SELL: usize = 30;

pub const ORDER2_FILLED_BUY: usize = 31;

pub const TOKEN_ID3: usize = 32;

pub const TOKEN_ID4: usize = 33;

} // verus!
