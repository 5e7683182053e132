//! Ethereum developer utilities: packed ABI encoding, hex helpers, unit names
//! and signature handling, with machine-checked contracts.

pub mod abi;
pub mod address;
pub mod bigendian;
pub mod bignum;
pub mod crypto;
pub mod decimal;
pub mod encode;
pub mod text;
pub mod units;
pub mod util;
