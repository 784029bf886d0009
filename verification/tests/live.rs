use mm_engine::coin_map::CoinMap;
use mm_engine::exchange::{Direction, OrderError, Position, TradeAction};
use mm_engine::live::{
    cache_fresh, cancel_confirmed, cancel_result, decimal_or_zero, filter_orders,
    is_rate_limit_text, order_result, position_from_wire, rate_limit_error, single_order_action,
    CancelTally, ExchangeReply, LiveExchange, OpenOrder, UniverseAsset,
};
use mm_engine::signing::{pack_action, sign_cancel_action, sign_l1_action};
use mm_engine::wire::parse_decimal;

const KEY: &str = "0101010101010101010101010101010101010101010101010101010101010101";

fn d(text: &str) -> i64 {
    parse_decimal(text).unwrap()
}

fn asset(name: Option<&str>, sz: Option<u64>, lev: Option<u64>) -> UniverseAsset {
    UniverseAsset { name: name.map(|n| n.to_string()), sz_decimals: sz, max_leverage: lev }
}

fn client() -> LiveExchange {
    let mut e = LiveExchange::new("0xabc".to_string(), KEY.to_string());
    e.init(&vec![
        asset(Some("BTC"), Some(5), Some(50)),
        asset(None, Some(1), Some(1)),
        asset(Some("ETH"), None, None),
        asset(Some("SOL"), Some(2), Some(10)),
    ]);
    e
}

fn open_order(coin: Option<&str>, oid: Option<u64>, side: &str, px: &str, ts: Option<u64>) -> OpenOrder {
    OpenOrder {
        coin: coin.map(|c| c.to_string()),
        oid,
        side: side.to_string(),
        limit_px: px.to_string(),
        timestamp: ts,
    }
}

fn reply(status: Option<&str>, text: Option<&str>, first: Option<&str>) -> ExchangeReply {
    ExchangeReply {
        status: status.map(|s| s.to_string()),
        response_json: match text {
            Some(t) => format!("\"{}\"", t),
            None => "{}".to_string(),
        },
        status_error: first.map(|s| s.to_string()),
    }
}

fn receipt() -> TradeAction {
    TradeAction {
        session_id: String::new(),
        coin: "BTC".to_string(),
        action: "OPEN".to_string(),
        direction: Direction::Long,
        price: 1,
        size: 2,
        reason: "Live Order Placed".to_string(),
        pnl: None,
        fee: Some(0),
        exit_type: None,
        ts: 5,
        entry_rsi: None,
        entry_bb_dist: None,
        entry_score: None,
    }
}

#[test]
fn universe_gives_indices_and_metadata() {
    let e = client();
    assert_eq!(e.base_url, "https://api.hyperliquid.xyz");
    assert_eq!(e.coin_to_asset.get("BTC"), Some(&0));
    assert_eq!(e.coin_to_asset.get("ETH"), Some(&2));
    assert_eq!(e.coin_to_asset.get("SOL"), Some(&3));
    assert_eq!(e.coin_to_asset.get("DOGE"), None);
    assert_eq!(e.sz_decimals(0), 5);
    assert_eq!(e.max_leverage(0), 50);
    // Defaults: four decimals, twenty times.
    assert_eq!(e.sz_decimals(1), 4);
    assert_eq!(e.sz_decimals(2), 4);
    assert_eq!(e.max_leverage(2), 20);
    assert_eq!(e.sz_decimals(99), 4);
    assert_eq!(e.max_leverage(99), 20);
    assert_eq!(e.clamp_leverage(0, d("100")), d("50"));
    assert_eq!(e.clamp_leverage(0, d("3")), d("3"));
    assert_eq!(e.clamp_leverage(2, d("20.5")), d("20"));
}

#[test]
fn caches_last_two_seconds() {
    assert!(cache_fresh(1_000, 1_000));
    assert!(cache_fresh(1_000, 2_999));
    assert!(!cache_fresh(1_000, 3_000));
    let mut e = client();
    assert_eq!(e.get_balance(0), None);
    e.store_balance(d("12.5"), 1_000);
    assert_eq!(e.get_balance(2_999), Some(d("12.5")));
    assert_eq!(e.get_balance(3_000), None);
    assert!(e.get_positions(0).is_none());
    e.store_positions(vec![], 1_000);
    assert!(e.get_positions(1_500).is_some());
    assert!(e.get_positions(3_500).is_none());
    assert!(e.get_all_mids(0).is_none());
    let mut mids: CoinMap<i64> = CoinMap::new();
    mids.insert("BTC", d("27000"));
    e.store_mids(mids, 1_000);
    assert_eq!(e.get_all_mids(1_001).unwrap().get("BTC"), Some(&d("27000")));
    assert!(e.get_all_mids(3_000).is_none());
}

#[test]
fn open_orders_are_filtered_after_the_cache() {
    let orders = vec![
        open_order(Some("BTC"), Some(1), "B", "1", Some(1)),
        open_order(Some("ETH"), Some(2), "A", "2", Some(1)),
        open_order(None, Some(3), "A", "3", Some(1)),
        open_order(Some("BTC"), Some(4), "A", "4", Some(1)),
    ];
    let btc: Vec<Option<u64>> = filter_orders(&orders, "BTC").iter().map(|o| o.oid).collect();
    assert_eq!(btc, vec![Some(1), Some(4)]);
    assert_eq!(filter_orders(&orders, "").len(), 4);
    assert!(filter_orders(&orders, "SOL").is_empty());
    let mut e = client();
    assert!(e.get_open_orders("BTC", 0).is_none());
    let now = e.store_open_orders(orders, "ETH", 1_000);
    assert_eq!(now.len(), 1);
    assert_eq!(now[0].oid, Some(2));
    assert_eq!(e.get_open_orders("BTC", 2_000).unwrap().len(), 2);
    assert_eq!(e.get_open_orders("", 2_000).unwrap().len(), 4);
    assert!(e.get_open_orders("BTC", 3_000).is_none());
}

#[test]
fn rate_limits_are_classified() {
    // HTTP 429, whatever the body.
    assert!(matches!(rate_limit_error(429, ""), Some(OrderError::RateLimited)));
    assert!(matches!(rate_limit_error(429, r#"{"status":"ok"}"#), Some(OrderError::RateLimited)));
    // A body that tells of a rate limit, even under HTTP 200.
    assert!(matches!(
        rate_limit_error(200, r#"{"error":"you are rate limited now"}"#),
        Some(OrderError::RateLimited)
    ));
    assert!(matches!(
        rate_limit_error(200, r#"{"status":"err","response":"Too many cumulative requests sent"}"#),
        Some(OrderError::RateLimited)
    ));
    assert!(matches!(
        rate_limit_error(200, r#"{"status":"err","response":{"data":{"error":"rate limited"}}}"#),
        Some(OrderError::RateLimited)
    ));
    assert!(matches!(
        rate_limit_error(
            200,
            r#"{"status":"ok","response":{"data":{"statuses":[{"error":"cumulative requests"}]}}}"#
        ),
        Some(OrderError::RateLimited)
    ));
    assert!(matches!(rate_limit_error(500, "rate limited"), Some(OrderError::RateLimited)));
    // Anything else is no rate limit.
    assert!(rate_limit_error(200, "").is_none());
    assert!(rate_limit_error(200, r#"{"status":"ok"}"#).is_none());
    assert!(rate_limit_error(200, r#"{"status":"err","response":"Insufficient margin"}"#).is_none());
    assert!(rate_limit_error(200, "cumulative request").is_none());
    assert!(rate_limit_error(200, "Rate Limited").is_none());
    assert!(rate_limit_error(500, "boom").is_none());

    assert!(is_rate_limit_text("rate limited"));
    assert!(is_rate_limit_text("x cumulative requests y"));
    assert!(!is_rate_limit_text(""));
    assert!(!is_rate_limit_text("rate  limited"));
}

#[test]
fn order_outcomes() {
    let rejected = reply(Some("err"), Some("bad order"), None);
    match order_result(&rejected, receipt()) {
        Err(OrderError::InvalidOrder(text)) => assert_eq!(text, "\"bad order\""),
        other => panic!("{:?}", other),
    }
    let inner = reply(Some("ok"), None, Some("Insufficient margin"));
    match order_result(&inner, receipt()) {
        Err(OrderError::InvalidOrder(text)) => assert_eq!(text, "Insufficient margin"),
        other => panic!("{:?}", other),
    }
    let fine = reply(Some("ok"), None, None);
    let action = order_result(&fine, receipt()).unwrap();
    assert_eq!(action.coin, "BTC");
    assert_eq!(action.ts, 5);

    assert!(cancel_result(&fine).is_ok());
    assert!(matches!(cancel_result(&rejected), Err(OrderError::InvalidOrder(_))));
    assert!(cancel_confirmed(&Ok(reply(Some("ok"), None, None))));
    assert!(cancel_confirmed(&Ok(reply(None, None, None))));
    assert!(!cancel_confirmed(&Ok(reply(Some("err"), None, None))));
    assert!(!cancel_confirmed(&Err(OrderError::NetworkError("x".to_string()))));
}

#[test]
fn positions_are_read_from_their_texts() {
    let long = position_from_wire("BTC", Some("0.5"), Some("27000.5"), Some("-3.25")).unwrap();
    assert_eq!(long.coin, "BTC");
    assert_eq!(long.direction, Direction::Long);
    assert_eq!(long.size, d("0.5"));
    assert_eq!(long.entry_price, d("27000.5"));
    assert_eq!(long.unrealized_pnl, d("-3.25"));
    let short = position_from_wire("ETH", Some("-2"), None, Some("junk")).unwrap();
    assert_eq!(short.direction, Direction::Short);
    assert_eq!(short.size, d("2"));
    assert_eq!(short.entry_price, 0);
    assert_eq!(short.unrealized_pnl, 0);
    assert!(position_from_wire("ETH", Some("0.0"), Some("1"), None).is_none());
    assert!(position_from_wire("ETH", Some("0.000000001"), Some("1"), None).is_none());
    assert!(position_from_wire("ETH", None, Some("1"), None).is_none());
    assert!(position_from_wire("ETH", Some("x"), Some("1"), None).is_none());
    assert_eq!(decimal_or_zero(Some("1.5")), d("1.5"));
    assert_eq!(decimal_or_zero(Some("")), 0);
    assert_eq!(decimal_or_zero(None), 0);
}

#[test]
fn post_only_order_goes_out_at_its_price() {
    let e = client();
    let signed = e.open_order("BTC", Direction::Long, d("0.0123456"), d("27123.4567"), true, 42).unwrap();
    assert_eq!(signed.nonce, 42);
    assert_eq!(signed.receipt.price, d("27123"));
    assert_eq!(signed.receipt.size, d("0.01235"));
    assert_eq!(signed.receipt.action, "OPEN");
    assert_eq!(signed.receipt.reason, "Live Order Placed");
    assert_eq!(signed.receipt.fee, Some(0));
    assert_eq!(signed.receipt.ts, 42);
    assert_eq!(
        String::from_utf8(signed.action_json.clone()).unwrap(),
        "{\"type\":\"order\",\"orders\":[{\"a\":0,\"b\":true,\"p\":\"27123\",\"s\":\"0.01235\",\"r\":false,\"t\":{\"limit\":{\"tif\":\"Alo\"}}}],\"grouping\":\"na\"}"
    );
    let action = single_order_action(0, true, d("27123"), d("0.01235"), false, true);
    let (expected, json) = sign_l1_action(KEY, &action, 42).unwrap();
    assert_eq!(signed.signature.r, expected.r);
    assert_eq!(signed.signature.s, expected.s);
    assert_eq!(signed.signature.v, expected.v);
    assert_eq!(signed.action_json, json);
}

#[test]
fn taker_order_is_made_aggressive() {
    let e = client();
    let buy = e.open_order("ETH", Direction::Long, d("1.23456"), d("2000"), false, 1).unwrap();
    assert_eq!(buy.receipt.price, d("2100"));
    assert_eq!(buy.receipt.size, d("1.2346"));
    assert!(String::from_utf8(buy.action_json).unwrap().contains("\"tif\":\"Ioc\""));
    let sell = e.open_order("ETH", Direction::Short, d("1"), d("2000"), false, 1).unwrap();
    assert_eq!(sell.receipt.price, d("1900"));
    assert!(String::from_utf8(sell.action_json).unwrap().contains("\"b\":false"));
}

#[test]
fn unknown_coin_is_an_invalid_order() {
    let e = client();
    match e.open_order("DOGE", Direction::Long, d("1"), d("1"), true, 1) {
        Err(OrderError::InvalidOrder(text)) => assert_eq!(text, "Unknown coin: DOGE"),
        other => panic!("{:?}", other.map(|o| o.nonce)),
    }
}

#[test]
fn close_is_reduce_only_and_aggressive() {
    let e = client();
    let positions = vec![
        Position {
            coin: "SOL".to_string(),
            direction: Direction::Short,
            size: d("5"),
            entry_price: d("20"),
            margin_used: 0,
            leverage: 0,
            tp_price: 0,
            sl_price: 0,
            liquidation_price: 0,
            entry_time: 0,
            unrealized_pnl: 0,
        },
    ];
    let signed = e.close_position(&positions, "SOL", d("22"), "flush", 9).unwrap();
    // A short is closed by a buy at 22 * 1.05.
    assert_eq!(signed.receipt.price, d("23.1"));
    assert_eq!(signed.receipt.size, d("5"));
    assert_eq!(signed.receipt.direction, Direction::Short);
    assert_eq!(signed.receipt.action, "CLOSE");
    assert_eq!(signed.receipt.pnl, Some(d("-15.5")));
    assert_eq!(signed.receipt.exit_type, Some("flush".to_string()));
    assert_eq!(
        String::from_utf8(signed.action_json).unwrap(),
        "{\"type\":\"order\",\"orders\":[{\"a\":3,\"b\":true,\"p\":\"23.1\",\"s\":\"5\",\"r\":true,\"t\":{\"limit\":{\"tif\":\"Ioc\"}}}],\"grouping\":\"na\"}"
    );
    match e.close_position(&positions, "BTC", d("1"), "x", 1) {
        Err(OrderError::InvalidOrder(text)) => assert_eq!(text, "No live position to close for BTC"),
        other => panic!("{:?}", other.map(|o| o.nonce)),
    }
    let mut unknown = e.close_position(&positions, "SOL", d("22"), "flush", 9).unwrap();
    unknown.nonce = 0;
    let mut stranger = positions;
    stranger[0].coin = "DOGE".to_string();
    match e.close_position(&stranger, "DOGE", d("1"), "x", 1) {
        Err(OrderError::InvalidOrder(text)) => assert_eq!(text, "Unknown coin: DOGE"),
        other => panic!("{:?}", other.map(|o| o.nonce)),
    }
}

#[test]
fn single_cancel_is_signed() {
    let e = client();
    let (sig, json) = e.cancel_order(3, 77, 5).unwrap();
    let (expected, expected_json) = sign_cancel_action(KEY, 3, 77, 5).unwrap();
    assert_eq!(sig.r, expected.r);
    assert_eq!(sig.s, expected.s);
    assert_eq!(json, expected_json);
    assert!(matches!(e.withdraw(d("1")), Err(OrderError::InvalidOrder(_))));
}

#[test]
fn cancel_targets_need_an_id_and_a_known_coin() {
    let e = client();
    let orders = vec![
        open_order(Some("BTC"), Some(1), "B", "1", None),
        open_order(Some("BTC"), None, "B", "1", None),
        open_order(None, Some(3), "B", "1", None),
        open_order(Some("DOGE"), Some(4), "B", "1", None),
        open_order(Some("SOL"), Some(5), "A", "1", None),
    ];
    let all = e.cancel_targets(&orders, None);
    let picked: Vec<(String, u64, u32)> = all.iter().map(|t| (t.coin.clone(), t.oid, t.asset_idx)).collect();
    assert_eq!(picked, vec![("BTC".to_string(), 1, 0), ("SOL".to_string(), 5, 3)]);
    // For one coin, an order without a coin counts as of that coin.
    let eth = e.cancel_targets(&orders, Some("ETH"));
    let picked: Vec<(String, u64, u32)> = eth.iter().map(|t| (t.coin.clone(), t.oid, t.asset_idx)).collect();
    assert_eq!(
        picked,
        vec![("BTC".to_string(), 1, 0), ("ETH".to_string(), 3, 2), ("SOL".to_string(), 5, 3)]
    );
}

#[test]
fn sweep_picks_orders_older_than_fifteen_minutes() {
    let e = client();
    let now = 10_000_000;
    let orders = vec![
        open_order(Some("BTC"), Some(1), "B", "1", Some(now - 900_001)),
        open_order(Some("BTC"), Some(2), "B", "1", Some(now - 900_000)),
        open_order(Some("ETH"), Some(3), "B", "1", Some(0)),
        open_order(Some("ETH"), Some(4), "B", "1", None),
        open_order(None, Some(5), "B", "1", Some(0)),
        open_order(Some("DOGE"), Some(6), "B", "1", Some(0)),
        open_order(Some("SOL"), Some(7), "B", "1", Some(now + 5)),
    ];
    let oids: Vec<u64> = e.sweep_dead_orders(&orders, now).iter().map(|t| t.oid).collect();
    assert_eq!(oids, vec![1, 3]);
}

#[test]
fn cancel_tally_spaces_the_nonces() {
    let mut tally = CancelTally::new();
    assert_eq!(tally.nonce(1_000), 1_000);
    tally.record(true);
    tally.record(false);
    tally.record(true);
    assert_eq!(tally.cancelled, 2);
    assert_eq!(tally.nonce(1_000), 1_002);
    assert_eq!(tally.nonce(u64::MAX), u64::MAX);
}

#[test]
fn single_order_action_is_packable() {
    let action = single_order_action(7, false, d("1.5"), d("0.25"), true, false);
    assert_eq!(action.action_type, "order");
    assert_eq!(action.grouping, "na");
    assert_eq!(action.orders.len(), 1);
    assert_eq!(action.orders[0].limit_px, "1.5");
    assert_eq!(action.orders[0].sz, "0.25");
    assert_eq!(action.orders[0].tif(), "Ioc");
    assert!(!pack_action(&action).is_empty());
}
