use apollo::buy::{plan_buy_order, retry_buy_price, BuyCycle, ShortlistStep};
use apollo::config::Config;
use apollo::types::{BalanceObject, FullCompanyInfo, Instrument};

fn company(ticker: &str, current_price: u64) -> FullCompanyInfo {
    FullCompanyInfo {
        instrument: Instrument {
            ticker: ticker.to_string(),
            asset_type: "STOCK".to_string(),
            currency_code: "USD".to_string(),
            max_open_quantity: 200_000,
            min_trade_quantity: 1,
        },
        current_price,
        market_capitalization: 30_000_000,
    }
}

fn cfg() -> Config {
    Config::default()
}

#[test]
fn shortlist_stops_when_budget_elapsed() {
    // even when nothing ever passes the filters, the scan ends at the
    // time budget.
    let mut cycle = BuyCycle::new(Vec::new(), &cfg());
    let step = cycle.consider(300, Some(company("AAPL_US_EQ", 1_000_000)), true);
    assert_eq!(step, ShortlistStep::Stop);
    assert_eq!(cycle.buy_list.len(), 0);
}

#[test]
fn shortlist_never_exceeds_target() {
    let mut cycle = BuyCycle::new(Vec::new(), &cfg());
    let names = ["A_US_EQ", "B_US_EQ", "C_US_EQ", "D_US_EQ", "E_US_EQ"];
    let mut added = 0;
    for name in names {
        let step = cycle.consider(10, Some(company(name, 1_000_000)), true);
        if step == ShortlistStep::Added {
            added += 1;
        }
        assert!(cycle.buy_list.len() <= 3);
    }
    assert_eq!(added, 3);
    assert!(cycle.is_full());
    // once full, every further instrument stops the scan.
    let step = cycle.consider(10, Some(company("F_US_EQ", 1_000_000)), true);
    assert_eq!(step, ShortlistStep::Stop);
    assert_eq!(cycle.buy_list.len(), 3);
}

#[test]
fn shortlist_skip_conditions() {
    let mut cycle = BuyCycle::new(vec!["HELD_US_EQ".to_string()], &cfg());
    // fetch failure.
    assert_eq!(cycle.consider(10, None, true), ShortlistStep::Skip);
    // failing the filters.
    assert_eq!(cycle.consider(10, Some(company("A_US_EQ", 1_000_000)), false), ShortlistStep::Skip);
    // a zero price.
    assert_eq!(cycle.consider(10, Some(company("B_US_EQ", 0)), true), ShortlistStep::Skip);
    // a ticker already on the previous snapshot, compared without case.
    assert_eq!(cycle.consider(10, Some(company("held_us_eq", 1_000_000)), true), ShortlistStep::Skip);
    assert!(cycle.is_empty());
    // an ordinary candidate joins.
    assert_eq!(cycle.consider(10, Some(company("C_US_EQ", 1_000_000)), true), ShortlistStep::Added);
    assert!(!cycle.is_empty());
}

#[test]
fn planned_buy_scenario() {
    // price 100.0: limit one tenth of a percent below, quantity 9.5.
    let balance = BalanceObject {
        blocked: None,
        free: 100_000_000,
        invested: 0,
        pie_cash: 0,
        ppl: 0,
        result: 0,
        total: 100_000_000,
    };
    let c = company("AAPL_US_EQ", 1_000_000);
    let planned = plan_buy_order(&c, &balance, &cfg());
    assert_eq!(planned.price, 999_000);
    assert_eq!(planned.quantity, 95_000);
}

#[test]
fn buy_retry_raises_by_a_hundredth() {
    // the single bounded retry re-prices 0.01 of a unit higher.
    assert_eq!(retry_buy_price(999_000), 999_100);
}
