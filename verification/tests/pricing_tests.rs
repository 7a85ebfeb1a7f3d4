use apollo::config::Config;
use apollo::pricing::{get_perc_decrease, get_perc_increase};
use apollo::trading::{
    calc_perc_change, calculate_amount_spent_per_ticker, get_buy_quantity, get_movement_direction,
    get_sell_quant, is_valid_perc_change,
};
use apollo::types::{BalanceObject, FullCompanyInfo, Instrument, Position, MOVEMENT_DIRECTION};

fn balance_with_free(free: u64) -> BalanceObject {
    BalanceObject {
        blocked: None,
        free,
        invested: 0,
        pie_cash: 0,
        ppl: 0,
        result: 0,
        total: free,
    }
}

fn instrument(ticker: &str, max_open_quantity: u64) -> Instrument {
    Instrument {
        ticker: ticker.to_string(),
        asset_type: "STOCK".to_string(),
        currency_code: "USD".to_string(),
        max_open_quantity,
        min_trade_quantity: 1,
    }
}

fn position(ticker: &str, quantity: u64, average_price: u64, current_price: u64, max_sell: u64) -> Position {
    Position {
        ticker: ticker.to_string(),
        quantity,
        average_price,
        current_price,
        max_sell,
    }
}

#[test]
fn perc_increase_is_exact() {
    // 100.0000 raised by one percent is 101.0000.
    assert_eq!(get_perc_increase(1_000_000, 10_000), 1_010_000);
    // raising by zero changes nothing.
    assert_eq!(get_perc_increase(450_000, 0), 450_000);
    // 45.0000 raised by half a percent is 45.2250.
    assert_eq!(get_perc_increase(450_000, 5_000), 452_250);
}

#[test]
fn perc_decrease_is_exact() {
    // 100.0000 lowered by a tenth of a percent is 99.9000.
    assert_eq!(get_perc_decrease(1_000_000, 1_000), 999_000);
    // 45.0000 lowered by a hundredth of a percent is 44.9955.
    assert_eq!(get_perc_decrease(450_000, 100), 449_955);
    // 45.0000 lowered by five hundredths of a percent is 44.9775.
    assert_eq!(get_perc_decrease(450_000, 500), 449_775);
}

#[test]
fn per_ticker_budget_scenario() {
    // free = 10000.0, hold back 5%, spread over ten tickers: 950.0 each.
    let balance = balance_with_free(100_000_000);
    let cfg = Config::default();
    assert_eq!(calculate_amount_spent_per_ticker(&balance, &cfg), 9_500_000);
}

#[test]
fn buy_quantity_scenario() {
    // budget 950.0, price 100.0: 9.5 shares, under the cap of 20.
    let balance = balance_with_free(100_000_000);
    let cfg = Config::default();
    let company = FullCompanyInfo {
        instrument: instrument("AAPL_US_EQ", 200_000),
        current_price: 1_000_000,
        market_capitalization: 30_000_000,
    };
    assert_eq!(get_buy_quantity(&company, &balance, &cfg), 95_000);
}

#[test]
fn buy_quantity_capped_by_max_open() {
    // budget 950.0, price 1.0: 950 shares, capped at 100.
    let balance = balance_with_free(100_000_000);
    let cfg = Config::default();
    let company = FullCompanyInfo {
        instrument: instrument("PENNY_US_EQ", 1_000_000),
        current_price: 10_000,
        market_capitalization: 30_000_000,
    };
    assert_eq!(get_buy_quantity(&company, &balance, &cfg), 1_000_000);
}

#[test]
fn buy_quantity_rounds_down_to_two_decimals() {
    // budget 950.0, price 300.0: 3.1666... rounds down to 3.16.
    let balance = balance_with_free(100_000_000);
    let cfg = Config::default();
    let company = FullCompanyInfo {
        instrument: instrument("XYZ_US_EQ", 200_000),
        current_price: 3_000_000,
        market_capitalization: 30_000_000,
    };
    assert_eq!(get_buy_quantity(&company, &balance, &cfg), 31_600);
}

#[test]
fn sell_quantity_caps_at_max_sell() {
    let p = position("AAPL_US_EQ", 100_000, 500_000, 450_000, 60_000);
    assert_eq!(get_sell_quant(&p), 60_000);
    let q = position("AAPL_US_EQ", 40_000, 500_000, 450_000, 60_000);
    assert_eq!(get_sell_quant(&q), 40_000);
}

#[test]
fn movement_direction_scenario() {
    // average 50, current 45: the position has moved down.
    let down = position("AAPL_US_EQ", 10_000, 500_000, 450_000, 10_000);
    assert_eq!(get_movement_direction(&down), MOVEMENT_DIRECTION::DOWN);
    // equal prices also count as down.
    let flat = position("AAPL_US_EQ", 10_000, 450_000, 450_000, 10_000);
    assert_eq!(get_movement_direction(&flat), MOVEMENT_DIRECTION::DOWN);
    let up = position("AAPL_US_EQ", 10_000, 400_000, 450_000, 10_000);
    assert_eq!(get_movement_direction(&up), MOVEMENT_DIRECTION::UP);
}

#[test]
fn perc_change_is_exact_and_guards_zero() {
    // 50 -> 45 is a ten percent drop: -100000 parts per million.
    assert_eq!(calc_perc_change(500_000, 450_000), Some(-100_000));
    // 50 -> 55 is a ten percent rise.
    assert_eq!(calc_perc_change(500_000, 550_000), Some(100_000));
    assert_eq!(calc_perc_change(0, 450_000), None);
}

#[test]
fn valid_perc_change_thresholds() {
    let cfg = Config::default();
    // a ten percent drop clears the downward threshold.
    let dropped = position("AAPL_US_EQ", 10_000, 500_000, 450_000, 10_000);
    assert!(is_valid_perc_change(&dropped, &cfg));
    // unchanged price clears neither threshold.
    let flat = position("AAPL_US_EQ", 10_000, 450_000, 450_000, 10_000);
    assert!(!is_valid_perc_change(&flat, &cfg));
    // a zero entry price never qualifies.
    let zero = position("AAPL_US_EQ", 10_000, 0, 450_000, 10_000);
    assert!(!is_valid_perc_change(&zero, &cfg));
}

#[test]
fn default_config_values() {
    let cfg = Config::default();
    assert_eq!(cfg.limit_wait_time, 60);
    assert_eq!(cfg.minimum_market_cap, 20_000_000);
    assert_eq!(cfg.minimum_balance, 150_000_000);
    assert_eq!(cfg.amount_of_tickers_to_buy, 10);
    assert_eq!(cfg.spend_perc_ppm, 50_000);
    assert_eq!(cfg.shopping_time, 300);
    assert_eq!(cfg.minimum_buys, 3);
    assert_eq!(cfg.sell_escalation_passes, 6);
    assert_eq!(cfg.sell_percent_up_ppm, 500);
    assert_eq!(cfg.sell_percent_down_ppm, -250);
}
