//! The market-state data model.
//!
//! Prices, cash amounts and share quantities are fixed-point integers in
//! ten-thousandths of a unit (see [`crate::UNIT`]); a quantity is signed
//! only on a working order, where positive means buy and negative means
//! sell.  Text fields are ASCII and keep clear of the snapshot
//! separators, which is what `valid_label` states.

use vstd::prelude::*;

verus! {

/// Whether orders go to the live brokerage account or the practice one.
#[allow(non_camel_case_types)]
#[derive(Clone, Copy, Debug, PartialEq, Eq, Structural)]
pub enum VERSION {
    LIVE,
    DEMO,
}

/// How demanding the candidate filters are.
#[allow(non_camel_case_types)]
#[derive(Clone, Copy, Debug, PartialEq, Eq, Structural)]
pub enum FILTERING_STRICTNESS {
    STRONG,
    LIGHT,
}

/// Which way a position has moved relative to its average entry price:
/// `DOWN` when the average price is at or above the current price, else
/// `UP`.
#[allow(non_camel_case_types)]
#[derive(Clone, Copy, Debug, PartialEq, Eq, Structural)]
pub enum MOVEMENT_DIRECTION {
    UP,
    DOWN,
}

/// The side of an order.
#[derive(Clone, Copy, Debug, PartialEq, Eq, Structural)]
pub enum TradeDirection {
    BUY,
    SELL,
}

/// The pieces of a calendar date a caller can ask the clock for.
#[derive(Clone, Copy, Debug, PartialEq, Eq, Structural)]
pub enum DateType {
    D,
    Y,
    M,
    DMY,
    MY,
}

/// A text field the library accepts: ASCII, with no field or record
/// separator characters, so that every label can be written to a
/// snapshot and read back unchanged.
pub open spec fn valid_label_char(c: char) -> bool {
    (c as u32) < 128 && c != '|' && c != '\n'
}

pub open spec fn valid_label(s: Seq<char>) -> bool {
    forall|i: int| 0 <= i < s.len() ==> valid_label_char(#[trigger] s[i])
}

/// The mathematical value of a [`BalanceObject`].
pub ghost struct BalanceV {
    pub blocked: Option<u64>,
    pub free: u64,
    pub invested: u64,
    pub pie_cash: u64,
    pub ppl: i64,
    pub result: i64,
    pub total: u64,
}

/// Account cash snapshot, refreshed once per cycle.
#[derive(Clone, Debug, PartialEq)]
pub struct BalanceObject {
    pub blocked: Option<u64>,
    pub free: u64,
    pub invested: u64,
    pub pie_cash: u64,
    pub ppl: i64,
    pub result: i64,
    pub total: u64,
}

impl View for BalanceObject {
    type V = BalanceV;

    open spec fn view(&self) -> BalanceV {
        BalanceV {
            blocked: self.blocked,
            free: self.free,
            invested: self.invested,
            pie_cash: self.pie_cash,
            ppl: self.ppl,
            result: self.result,
            total: self.total,
        }
    }
}

impl BalanceObject {
    /// Every amount is inside the range the fixed-point arithmetic
    /// accepts.
    pub open spec fn wf(&self) -> bool {
        &&& self.free <= crate::pricing::MAX_PRICE
        &&& self.invested <= crate::pricing::MAX_PRICE
        &&& self.total <= crate::pricing::MAX_PRICE
    }
}

/// The mathematical value of a [`Position`].
pub ghost struct PositionV {
    pub ticker: Seq<char>,
    pub quantity: u64,
    pub average_price: u64,
    pub current_price: u64,
    pub max_sell: u64,
}

/// An open holding, refreshed once per cycle and read by the Sell stage.
#[derive(Clone, Debug, PartialEq)]
pub struct Position {
    pub ticker: String,
    pub quantity: u64,
    pub average_price: u64,
    pub current_price: u64,
    pub max_sell: u64,
}

impl View for Position {
    type V = PositionV;

    open spec fn view(&self) -> PositionV {
        PositionV {
            ticker: self.ticker@,
            quantity: self.quantity,
            average_price: self.average_price,
            current_price: self.current_price,
            max_sell: self.max_sell,
        }
    }
}

impl Position {
    pub open spec fn wf(&self) -> bool {
        &&& valid_label(self.ticker@)
        &&& self.quantity <= crate::pricing::MAX_PRICE
        &&& self.average_price <= crate::pricing::MAX_PRICE
        &&& self.current_price <= crate::pricing::MAX_PRICE
        &&& self.max_sell <= crate::pricing::MAX_PRICE
    }
}

/// The mathematical value of an [`Instrument`].
pub ghost struct InstrumentV {
    pub ticker: Seq<char>,
    pub asset_type: Seq<char>,
    pub currency_code: Seq<char>,
    pub max_open_quantity: u64,
    pub min_trade_quantity: u64,
}

/// A tradable security's identity, replaced wholesale on refresh.
#[derive(Clone, Debug, PartialEq)]
pub struct Instrument {
    pub ticker: String,
    pub asset_type: String,
    pub currency_code: String,
    pub max_open_quantity: u64,
    pub min_trade_quantity: u64,
}

impl View for Instrument {
    type V = InstrumentV;

    open spec fn view(&self) -> InstrumentV {
        InstrumentV {
            ticker: self.ticker@,
            asset_type: self.asset_type@,
            currency_code: self.currency_code@,
            max_open_quantity: self.max_open_quantity,
            min_trade_quantity: self.min_trade_quantity,
        }
    }
}

impl Instrument {
    pub open spec fn wf(&self) -> bool {
        &&& valid_label(self.ticker@)
        &&& valid_label(self.asset_type@)
        &&& valid_label(self.currency_code@)
        &&& self.max_open_quantity <= crate::pricing::MAX_PRICE
    }
}

/// The mathematical value of a [`LimitOrder`].
pub ghost struct LimitOrderV {
    pub id: u64,
    pub ticker: Seq<char>,
    pub quantity: i64,
    pub limit_price: Option<u64>,
    pub status: Seq<char>,
}

/// A working order: quantity is signed (positive buys, negative sells).
#[derive(Clone, Debug, PartialEq)]
pub struct LimitOrder {
    pub id: u64,
    pub ticker: String,
    pub quantity: i64,
    pub limit_price: Option<u64>,
    pub status: String,
}

impl View for LimitOrder {
    type V = LimitOrderV;

    open spec fn view(&self) -> LimitOrderV {
        LimitOrderV {
            id: self.id,
            ticker: self.ticker@,
            quantity: self.quantity,
            limit_price: self.limit_price,
            status: self.status@,
        }
    }
}

impl LimitOrder {
    pub open spec fn wf(&self) -> bool {
        &&& valid_label(self.ticker@)
        &&& valid_label(self.status@)
    }
}

/// An instrument enriched with the quote data the Buy stage reads;
/// produced transiently while shortlisting.
#[derive(Clone, Debug, PartialEq)]
pub struct FullCompanyInfo {
    pub instrument: Instrument,
    pub current_price: u64,
    pub market_capitalization: u64,
}

impl FullCompanyInfo {
    pub open spec fn wf(&self) -> bool {
        &&& self.instrument.wf()
        &&& self.current_price <= crate::pricing::MAX_PRICE
    }
}

/// A working sell order together with its cycle-local metadata: the
/// movement direction fixed when the order was first placed, the
/// creation timestamp, and how many escalation passes have re-priced it.
#[derive(Clone, Debug, PartialEq)]
pub struct SystemLimitOrder {
    pub movement_direction: MOVEMENT_DIRECTION,
    pub creation_time: u64,
    pub limit_order: LimitOrder,
    pub sell_attempts: u32,
}

impl SystemLimitOrder {
    pub open spec fn wf(&self) -> bool {
        self.limit_order.wf()
    }
}

/// A company news item attached to a candidate's enrichment data.
#[derive(Clone, Debug, PartialEq)]
pub struct NewsArticle {
    pub category: String,
    pub datetime: i64,
    pub headline: String,
    pub id: i32,
    pub image: String,
    pub related: String,
    pub source: String,
    pub summary: String,
    pub url: String,
}

} // verus!
