use apollo::finnhub::convert_to_fh_ticker;
use apollo::helpers::{
    get_current_date, get_time, is_first_date_before, shuffle_instruments, shuffle_positions,
    RetryPolicy,
};
use apollo::text::eq_ignore_ascii_case_str;
use apollo::types::{DateType, Instrument, Position};

fn instrument(ticker: &str) -> Instrument {
    Instrument {
        ticker: ticker.to_string(),
        asset_type: "STOCK".to_string(),
        currency_code: "USD".to_string(),
        max_open_quantity: 1,
        min_trade_quantity: 1,
    }
}

#[test]
fn fh_ticker_conversion() {
    assert_eq!(convert_to_fh_ticker(&"AAPL_US_EQ".to_string()), "AAPL");
    assert_eq!(convert_to_fh_ticker(&"vusa_EQ".to_string()), "VUSA");
    assert_eq!(convert_to_fh_ticker(&"msft".to_string()), "MSFT");
    // every marker occurrence goes, wherever it stands.
    assert_eq!(convert_to_fh_ticker(&"a_EQb_EQ".to_string()), "AB");
    // the longer marker takes precedence when both occur.
    assert_eq!(convert_to_fh_ticker(&"A_US_EQ_EQ".to_string()), "A_EQ");
    assert_eq!(convert_to_fh_ticker(&"".to_string()), "");
}

#[test]
fn case_insensitive_ticker_equality() {
    assert!(eq_ignore_ascii_case_str("AaPl_us_eq", "AAPL_US_EQ"));
    assert!(!eq_ignore_ascii_case_str("AAPL", "AAPL_US_EQ"));
    assert!(!eq_ignore_ascii_case_str("AAPL", "MSFT"));
    assert!(eq_ignore_ascii_case_str("", ""));
}

#[test]
fn date_comparison() {
    assert!(is_first_date_before("01-02-2023", "02-02-2023"));
    assert!(is_first_date_before("28-12-2023", "01-01-2024"));
    assert!(!is_first_date_before("02-02-2023", "01-02-2023"));
    assert!(!is_first_date_before("02-02-2023", "02-02-2023"));
    // a leap day is a real date.
    assert!(is_first_date_before("28-02-2024", "29-02-2024"));
}

#[test]
fn shuffles_keep_every_element() {
    let instruments: Vec<Instrument> =
        ["A", "B", "C", "D", "E"].iter().map(|t| instrument(t)).collect();
    let shuffled = shuffle_instruments(instruments.clone());
    let mut before: Vec<String> = instruments.iter().map(|i| i.ticker.clone()).collect();
    let mut after: Vec<String> = shuffled.iter().map(|i| i.ticker.clone()).collect();
    before.sort();
    after.sort();
    assert_eq!(before, after);

    let positions: Vec<Position> = (0..5)
        .map(|k| Position {
            ticker: format!("T{}", k),
            quantity: k,
            average_price: 1,
            current_price: 1,
            max_sell: 1,
        })
        .collect();
    let shuffled = shuffle_positions(positions.clone());
    let mut before: Vec<String> = positions.iter().map(|p| p.ticker.clone()).collect();
    let mut after: Vec<String> = shuffled.iter().map(|p| p.ticker.clone()).collect();
    before.sort();
    after.sort();
    assert_eq!(before, after);
}

#[test]
fn retry_policy_bounds() {
    let forever = RetryPolicy::unbounded(20);
    assert!(forever.should_retry(0));
    assert!(forever.should_retry(1_000_000));
    let once_more = RetryPolicy::bounded(2, 5);
    assert!(once_more.should_retry(0));
    assert!(once_more.should_retry(1));
    assert!(!once_more.should_retry(2));
}

#[test]
fn clock_wrappers_answer() {
    // the values depend on the clock; only their shape is checked.
    let _ = get_time();
    let dmy = get_current_date(DateType::DMY);
    assert_eq!(dmy.len(), 10);
    assert!(dmy.as_bytes()[2] == b'-' && dmy.as_bytes()[5] == b'-');
}
