//! Verified core of an unattended three-worker trading cycle: the
//! Control -> Buy -> Sell hand-off protocol, the shared market-state
//! refresh contract, and the escalating sell-order pricing state machine.
//!
//! All prices, cash amounts and share quantities are fixed-point integers
//! counted in ten-thousandths of a unit, so that the percentage schedules
//! of the pricing tables are exact.

use vstd::prelude::*;

pub mod buy;
pub mod config;
pub mod finnhub;
pub mod helpers;
pub mod pricing;
pub mod protocol;
pub mod sell;
pub mod snapshot;
pub mod text;
pub mod trading;
pub mod types;
pub mod workers;

verus! {

/// Number of fixed-point units in one currency unit or one share.
pub const UNIT: u64 = 10_000;

} // verus!
