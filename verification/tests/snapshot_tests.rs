use apollo::snapshot::{
    decode_balance, decode_instruments, decode_orders, decode_positions, encode_balance,
    encode_instruments, encode_orders, encode_positions,
};
use apollo::types::{BalanceObject, Instrument, LimitOrder, Position};

fn sample_positions() -> Vec<Position> {
    vec![
        Position {
            ticker: "AAPL_US_EQ".to_string(),
            quantity: 95_000,
            average_price: 500_000,
            current_price: 450_000,
            max_sell: 95_000,
        },
        Position {
            ticker: "msft_us_eq".to_string(),
            quantity: 12_345,
            average_price: 0,
            current_price: u64::MAX,
            max_sell: 1,
        },
    ]
}

fn sample_instruments() -> Vec<Instrument> {
    vec![
        Instrument {
            ticker: "AAPL_US_EQ".to_string(),
            asset_type: "STOCK".to_string(),
            currency_code: "USD".to_string(),
            max_open_quantity: 200_000,
            min_trade_quantity: 100,
        },
        Instrument {
            ticker: "VUSA_EQ".to_string(),
            asset_type: "ETF".to_string(),
            currency_code: "GBP".to_string(),
            max_open_quantity: 0,
            min_trade_quantity: 0,
        },
    ]
}

fn sample_orders() -> Vec<LimitOrder> {
    vec![
        LimitOrder {
            id: 42,
            ticker: "AAPL_US_EQ".to_string(),
            quantity: -95_000,
            limit_price: Some(454_500),
            status: "NEW".to_string(),
        },
        LimitOrder {
            id: 7,
            ticker: "MSFT_US_EQ".to_string(),
            quantity: 31_600,
            limit_price: None,
            status: "WORKING".to_string(),
        },
        LimitOrder {
            id: u64::MAX,
            ticker: "X".to_string(),
            quantity: i64::MIN,
            limit_price: Some(0),
            status: "".to_string(),
        },
    ]
}

#[test]
fn positions_round_trip() {
    let ps = sample_positions();
    let text = encode_positions(&ps);
    let back = decode_positions(text.as_str()).expect("written positions must read back");
    assert_eq!(back, ps);
}

#[test]
fn empty_position_list_round_trips() {
    let text = encode_positions(&Vec::new());
    assert_eq!(text, "");
    let back = decode_positions("").expect("an empty snapshot is an empty list");
    assert!(back.is_empty());
}

#[test]
fn instruments_round_trip() {
    let ins = sample_instruments();
    let text = encode_instruments(&ins);
    let back = decode_instruments(text.as_str()).expect("written instruments must read back");
    assert_eq!(back, ins);
}

#[test]
fn orders_round_trip() {
    let os = sample_orders();
    let text = encode_orders(&os);
    let back = decode_orders(text.as_str()).expect("written orders must read back");
    assert_eq!(back, os);
}

#[test]
fn balance_round_trips() {
    let balances = vec![
        BalanceObject {
            blocked: None,
            free: 100_000_000,
            invested: 0,
            pie_cash: 0,
            ppl: -1_234,
            result: 0,
            total: 100_000_000,
        },
        BalanceObject {
            blocked: Some(5_000),
            free: 0,
            invested: u64::MAX,
            pie_cash: 17,
            ppl: i64::MIN,
            result: i64::MAX,
            total: 3,
        },
    ];
    for b in balances {
        let text = encode_balance(&b);
        let back = decode_balance(text.as_str()).expect("a written balance must read back");
        assert_eq!(back, b);
    }
}

#[test]
fn position_snapshot_text_shape() {
    let ps = vec![Position {
        ticker: "AAPL_US_EQ".to_string(),
        quantity: 95_000,
        average_price: 500_000,
        current_price: 450_000,
        max_sell: 95_000,
    }];
    let text = encode_positions(&ps);
    assert_eq!(text, "AAPL_US_EQ|95000|500000|450000|95000|\n");
}

#[test]
fn decode_rejects_malformed_text() {
    // a missing field.
    assert!(decode_positions("AAPL|1|2|3|\n").is_none());
    // a number with a leading zero is not canonical.
    assert!(decode_positions("AAPL|01|2|3|4|\n").is_none());
    // a number too large for its field.
    assert!(decode_positions("AAPL|99999999999999999999999|2|3|4|\n").is_none());
    // a missing final line feed.
    assert!(decode_positions("AAPL|1|2|3|4|").is_none());
    // trailing garbage after the last record.
    assert!(decode_balance("|1|2|3|4|5|6|\nx").is_none());
    // text that is not ASCII at all.
    assert!(decode_positions("ääää").is_none());
    // a signed zero with a minus sign is not canonical.
    assert!(decode_orders("1|T|-0||S|\n").is_none());
}

#[test]
fn decode_accepts_hand_written_canonical_text() {
    let back = decode_orders("42|AAPL_US_EQ|-95000|454500|NEW|\n").expect("canonical text reads");
    assert_eq!(back.len(), 1);
    assert_eq!(back[0].id, 42);
    assert_eq!(back[0].quantity, -95_000);
    assert_eq!(back[0].limit_price, Some(454_500));
}
