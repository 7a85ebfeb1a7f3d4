use apollo::sell::{
    escalation_limit_price, find_unique_position, plan_initial_sell_order, sell_order_ids,
    SellCycle,
};
use apollo::types::{LimitOrder, Position, MOVEMENT_DIRECTION};

fn sell_position(ticker: &str, quantity: u64, average_price: u64, current_price: u64) -> Position {
    Position {
        ticker: ticker.to_string(),
        quantity,
        average_price,
        current_price,
        max_sell: quantity,
    }
}

fn order(id: u64, ticker: &str, quantity: i64) -> LimitOrder {
    LimitOrder {
        id,
        ticker: ticker.to_string(),
        quantity,
        limit_price: Some(1_000_000),
        status: "NEW".to_string(),
    }
}

#[test]
fn escalation_down_tiers() {
    // average 50, current 45: break-even for the first three passes.
    assert_eq!(escalation_limit_price(MOVEMENT_DIRECTION::DOWN, 0, 500_000, 450_000), 500_000);
    assert_eq!(escalation_limit_price(MOVEMENT_DIRECTION::DOWN, 1, 500_000, 450_000), 500_000);
    assert_eq!(escalation_limit_price(MOVEMENT_DIRECTION::DOWN, 2, 500_000, 450_000), 500_000);
    // passes three and four: a hundredth of a percent below 45 is 44.9955.
    assert_eq!(escalation_limit_price(MOVEMENT_DIRECTION::DOWN, 3, 500_000, 450_000), 449_955);
    assert_eq!(escalation_limit_price(MOVEMENT_DIRECTION::DOWN, 4, 500_000, 450_000), 449_955);
    // from pass five: five hundredths of a percent below.
    assert_eq!(escalation_limit_price(MOVEMENT_DIRECTION::DOWN, 5, 500_000, 450_000), 449_775);
    assert_eq!(escalation_limit_price(MOVEMENT_DIRECTION::DOWN, 9, 500_000, 450_000), 449_775);
}

#[test]
fn escalation_up_tiers() {
    // current 100: +0.5%, +0.25%, +0.1%, then the current price itself.
    assert_eq!(escalation_limit_price(MOVEMENT_DIRECTION::UP, 0, 900_000, 1_000_000), 1_005_000);
    assert_eq!(escalation_limit_price(MOVEMENT_DIRECTION::UP, 1, 900_000, 1_000_000), 1_005_000);
    assert_eq!(escalation_limit_price(MOVEMENT_DIRECTION::UP, 2, 900_000, 1_000_000), 1_002_500);
    assert_eq!(escalation_limit_price(MOVEMENT_DIRECTION::UP, 3, 900_000, 1_000_000), 1_002_500);
    assert_eq!(escalation_limit_price(MOVEMENT_DIRECTION::UP, 4, 900_000, 1_000_000), 1_001_000);
    assert_eq!(escalation_limit_price(MOVEMENT_DIRECTION::UP, 5, 900_000, 1_000_000), 1_001_000);
    assert_eq!(escalation_limit_price(MOVEMENT_DIRECTION::UP, 6, 900_000, 1_000_000), 1_000_000);
    assert_eq!(escalation_limit_price(MOVEMENT_DIRECTION::UP, 20, 900_000, 1_000_000), 1_000_000);
}

#[test]
fn escalation_tiers_never_rise() {
    // for each direction, later passes never ask for more.
    let mut last = u64::MAX;
    for attempts in 0..10u32 {
        let p = escalation_limit_price(MOVEMENT_DIRECTION::DOWN, attempts, 500_000, 450_000);
        assert!(p <= last);
        last = p;
    }
    let mut last = u64::MAX;
    for attempts in 0..10u32 {
        let p = escalation_limit_price(MOVEMENT_DIRECTION::UP, attempts, 400_000, 450_000);
        assert!(p <= last);
        last = p;
    }
}

#[test]
fn cancel_set_takes_only_sell_orders() {
    let orders = vec![
        order(1, "AAPL_US_EQ", 50_000),
        order(2, "MSFT_US_EQ", -30_000),
        order(3, "NVDA_US_EQ", 0),
        order(4, "TSLA_US_EQ", -10_000),
    ];
    let ids = sell_order_ids(&orders);
    assert_eq!(ids, vec![2, 4]);
    assert!(!ids.contains(&1));
    assert!(!ids.contains(&3));
}

#[test]
fn cancel_set_of_empty_list_is_empty() {
    let ids = sell_order_ids(&Vec::new());
    assert!(ids.is_empty());
}

#[test]
fn initial_sell_order_scenario() {
    // current 45: initial ask one percent above is 45.45; whole position
    // capped by the sell limit.
    let mut p = sell_position("AAPL_US_EQ", 100_000, 500_000, 450_000);
    p.max_sell = 60_000;
    let (price, quant) = plan_initial_sell_order(&p);
    assert_eq!(price, 454_500);
    assert_eq!(quant, 60_000);
}

#[test]
fn sell_cycle_tracks_one_order_per_ticker() {
    let mut cycle = SellCycle::new();
    let added = cycle.record_initial_order(MOVEMENT_DIRECTION::DOWN, order(7, "AAPL_US_EQ", -10_000), 100);
    assert!(added);
    // a second order for the same ticker, even in another case, is refused.
    let dup = cycle.record_initial_order(MOVEMENT_DIRECTION::UP, order(8, "aapl_us_eq", -5_000), 101);
    assert!(!dup);
    assert_eq!(cycle.orders.len(), 1);
    assert_eq!(cycle.orders[0].sell_attempts, 0);
}

#[test]
fn sell_cycle_resets_each_cycle() {
    let mut cycle = SellCycle::new();
    cycle.record_initial_order(MOVEMENT_DIRECTION::DOWN, order(7, "AAPL_US_EQ", -10_000), 100);
    cycle.begin_cycle();
    assert_eq!(cycle.orders.len(), 0);
    // a fresh order starts again from a zero pass counter.
    cycle.record_initial_order(MOVEMENT_DIRECTION::DOWN, order(9, "AAPL_US_EQ", -10_000), 200);
    assert_eq!(cycle.orders[0].sell_attempts, 0);
}

#[test]
fn escalation_increments_attempts_on_unique_match() {
    let mut cycle = SellCycle::new();
    cycle.record_initial_order(MOVEMENT_DIRECTION::DOWN, order(7, "AAPL_US_EQ", -10_000), 100);
    let positions = vec![sell_position("aapl_us_eq", 10_000, 500_000, 450_000)];
    let first = cycle.escalation_update(0, &positions).expect("unique match must update");
    // pass counter before the increment is zero: break-even price.
    assert_eq!(first.0, 500_000);
    assert_eq!(first.1, 10_000);
    assert_eq!(cycle.orders[0].sell_attempts, 1);
    let second = cycle.escalation_update(0, &positions).expect("unique match must update");
    assert_eq!(second.0, 500_000);
    assert_eq!(cycle.orders[0].sell_attempts, 2);
}

#[test]
fn escalation_skips_ambiguous_and_missing_tickers() {
    let mut cycle = SellCycle::new();
    cycle.record_initial_order(MOVEMENT_DIRECTION::DOWN, order(7, "AAPL_US_EQ", -10_000), 100);
    // no matching position: skipped, counter unchanged.
    let none = cycle.escalation_update(0, &vec![sell_position("MSFT_US_EQ", 1, 2, 1)]);
    assert!(none.is_none());
    assert_eq!(cycle.orders[0].sell_attempts, 0);
    // two matching positions: ambiguous, skipped, counter unchanged.
    let two = vec![
        sell_position("AAPL_US_EQ", 10_000, 500_000, 450_000),
        sell_position("AAPL_US_EQ", 20_000, 500_000, 450_000),
    ];
    assert!(cycle.escalation_update(0, &two).is_none());
    assert_eq!(cycle.orders[0].sell_attempts, 0);
}

#[test]
fn unique_position_lookup() {
    let positions = vec![
        sell_position("AAPL_US_EQ", 1, 2, 1),
        sell_position("MSFT_US_EQ", 1, 2, 1),
        sell_position("msft_us_eq", 1, 2, 1),
    ];
    assert_eq!(find_unique_position(&positions, "aapl_us_eq"), Some(0));
    assert_eq!(find_unique_position(&positions, "MSFT_US_EQ"), None);
    assert_eq!(find_unique_position(&positions, "NVDA_US_EQ"), None);
}
