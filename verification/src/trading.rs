//! Sizing and direction computations shared by the Buy and Sell stages:
//! per-ticker spending budget, buy and sell quantities, and the movement
//! direction of a position relative to its entry price.

use vstd::prelude::*;
use crate::config::Config;
use crate::pricing::MAX_PRICE;
use crate::types::{BalanceObject, FullCompanyInfo, Position, MOVEMENT_DIRECTION};

verus! {

/// Cash to spend on each ticker: the free balance less the held-back
/// share, divided evenly across the configured ticker count (both
/// divisions round down).
pub open spec fn spec_amount_per_ticker(free: u64, spend_ppm: u64, tickers: u64) -> int {
    ((free * (1_000_000 - spend_ppm)) / 1_000_000) / (tickers as int)
}

/// Raw buy quantity before capping: the budget divided by the price,
/// rounded down to two decimal places of a share.
pub open spec fn spec_uncapped_buy_quantity(amount: int, price: u64) -> int {
    (((amount * 10_000) / (price as int)) / 100) * 100
}

/// The buy quantity: the rounded-down budget quantity, capped at the
/// instrument's maximum open quantity.
pub open spec fn spec_buy_quantity(amount: int, price: u64, max_open: u64) -> int {
    if spec_uncapped_buy_quantity(amount, price) > max_open {
        max_open as int
    } else {
        spec_uncapped_buy_quantity(amount, price)
    }
}

/// Relative price change of a position in parts per million, rounded
/// toward zero.
pub open spec fn spec_perc_change(bought_at: u64, current: u64) -> int {
    if current >= bought_at {
        ((current - bought_at) * 1_000_000) / (bought_at as int)
    } else {
        -(((bought_at - current) * 1_000_000) / (bought_at as int))
    }
}

/// The per-ticker budget never exceeds the free balance.
pub proof fn lemma_amount_per_ticker_le_free(free: u64, spend_ppm: u64, tickers: u64)
    requires
        spend_ppm <= 1_000_000,
        tickers >= 1,
    ensures
        0 <= spec_amount_per_ticker(free, spend_ppm, tickers) <= free,
{
    assert(0 <= ((free * (1_000_000 - spend_ppm)) / 1_000_000) / (tickers as int) <= free)
        by (nonlinear_arith)
        requires
            spend_ppm <= 1_000_000,
            tickers >= 1,
            free >= 0,
    {}
}

/// Computes the cash to spend per ticker this cycle.
pub fn calculate_amount_spent_per_ticker(balance_data: &BalanceObject, cfg: &Config) -> (r: u64)
    requires
        balance_data.wf(),
        cfg.wf(),
    ensures
        r == spec_amount_per_ticker(
            balance_data.free,
            cfg.spend_perc_ppm,
            cfg.amount_of_tickers_to_buy,
        ),
{
    let held_back: u64 = 1_000_000 - cfg.spend_perc_ppm;
    proof {
        assert((balance_data.free as int) * (held_back as int) <= (MAX_PRICE as int) * 1_000_000)
            by (nonlinear_arith)
            requires
                balance_data.free <= MAX_PRICE,
                held_back <= 1_000_000,
        {}
        assert((balance_data.free as int) * (held_back as int) >= 0) by (nonlinear_arith)
            requires
                balance_data.free >= 0,
                held_back >= 0,
        {}
    }
    let wide: u128 = (balance_data.free as u128) * (held_back as u128);
    let available: u128 = wide / 1_000_000u128;
    proof {
        assert(available <= balance_data.free) by (nonlinear_arith)
            requires
                wide == (balance_data.free as int) * (held_back as int),
                held_back <= 1_000_000,
                available == wide / 1_000_000,
        {}
    }
    let per_ticker: u128 = available / (cfg.amount_of_tickers_to_buy as u128);
    proof {
        assert(per_ticker <= available) by (nonlinear_arith)
            requires
                cfg.amount_of_tickers_to_buy >= 1,
                per_ticker == available as int / (cfg.amount_of_tickers_to_buy as int),
                available >= 0,
        {}
    }
    per_ticker as u64
}

/// Computes how many fixed-point quantity units of a candidate to buy
/// from the cycle's per-ticker budget.
pub fn get_buy_quantity(company: &FullCompanyInfo, balance_data: &BalanceObject, cfg: &Config) -> (r:
    u64)
    requires
        company.wf(),
        balance_data.wf(),
        cfg.wf(),
        company.current_price > 0,
    ensures
        r == spec_buy_quantity(
            spec_amount_per_ticker(
                balance_data.free,
                cfg.spend_perc_ppm,
                cfg.amount_of_tickers_to_buy,
            ),
            company.current_price,
            company.instrument.max_open_quantity,
        ),
{
    let amount_to_spend: u64 = calculate_amount_spent_per_ticker(balance_data, cfg);
    proof {
        lemma_amount_per_ticker_le_free(
            balance_data.free,
            cfg.spend_perc_ppm,
            cfg.amount_of_tickers_to_buy,
        );
        assert((amount_to_spend as int) * 10_000 <= (MAX_PRICE as int) * 10_000)
            by (nonlinear_arith)
            requires
                amount_to_spend <= MAX_PRICE,
        {}
    }
    let scaled: u128 = (amount_to_spend as u128) * 10_000u128;
    let raw: u128 = scaled / (company.current_price as u128);
    let rounded: u128 = (raw / 100u128) * 100u128;
    proof {
        assert(rounded <= raw) by (nonlinear_arith)
            requires
                rounded == (raw as int / 100) * 100,
                raw >= 0,
        {}
    }
    if rounded > (company.instrument.max_open_quantity as u128) {
        company.instrument.max_open_quantity
    } else {
        rounded as u64
    }
}

/// The sell quantity of a position: its whole quantity, capped at the
/// per-position maximum the brokerage allows.
pub fn get_sell_quant(position: &Position) -> (r: u64)
    ensures
        r == if position.quantity > position.max_sell {
            position.max_sell
        } else {
            position.quantity
        },
{
    if position.quantity > position.max_sell {
        position.max_sell
    } else {
        position.quantity
    }
}

/// `DOWN` when the position's average entry price is at or above its
/// current price, else `UP`.
pub fn get_movement_direction(position: &Position) -> (r: MOVEMENT_DIRECTION)
    ensures
        r == (if position.average_price >= position.current_price {
            MOVEMENT_DIRECTION::DOWN
        } else {
            MOVEMENT_DIRECTION::UP
        }),
{
    if position.average_price >= position.current_price {
        MOVEMENT_DIRECTION::DOWN
    } else {
        MOVEMENT_DIRECTION::UP
    }
}

/// Relative price change in parts per million, rounded toward zero;
/// `None` when the entry price is zero and no change is defined.
pub fn calc_perc_change(bought_at: u64, current: u64) -> (r: Option<i128>)
    ensures
        bought_at == 0 ==> r is None,
        bought_at > 0 ==> (r matches Some(p) && p == spec_perc_change(bought_at, current)),
{
    if bought_at == 0 {
        return None;
    }
    if current >= bought_at {
        let diff: u128 = (current - bought_at) as u128;
        let wide: u128 = diff * 1_000_000u128;
        let ppm: u128 = wide / (bought_at as u128);
        Some(ppm as i128)
    } else {
        let diff: u128 = (bought_at - current) as u128;
        let wide: u128 = diff * 1_000_000u128;
        let ppm: u128 = wide / (bought_at as u128);
        Some(-(ppm as i128))
    }
}

/// Whether a position has moved enough from its entry price, in either
/// direction, to be worth selling; a zero entry price never qualifies.
pub fn is_valid_perc_change(position: &Position, cfg: &Config) -> (r: bool)
    ensures
        position.average_price == 0 ==> r == false,
        position.average_price > 0 ==> r == {
            let change = spec_perc_change(position.average_price, position.current_price);
            change > cfg.sell_percent_up_ppm || change < cfg.sell_percent_down_ppm
        },
{
    match calc_perc_change(position.average_price, position.current_price) {
        None => false,
        Some(change) => change > cfg.sell_percent_up_ppm || change < cfg.sell_percent_down_ppm,
    }
}

} // verus!
