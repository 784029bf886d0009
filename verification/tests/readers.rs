use mm_engine::exchange::{Direction, OrderError, TradeAction};
use mm_engine::feed::{read_contexts, read_message, universe_of, FeedEvent};
use mm_engine::ingestor::{book_levels, L2Level, Trade, UserFill};
use mm_engine::json::{amount_at, decimal_text_at, number_at, text_at, uint_at, Json, JsonMember};
use mm_engine::live::{
    order_result, order_result_of, read_balance, read_mids, read_open_orders, read_positions,
    read_universe, ExchangeReply,
};
use mm_engine::market_maker::Regime;
use mm_engine::publisher::{read_asset_config, read_asset_configs};
use mm_engine::wire::parse_decimal;
use serde_json::Value;

fn d(text: &str) -> i64 {
    parse_decimal(text).unwrap()
}

fn to_json(value: &Value) -> Json {
    match value {
        Value::Null => Json::Null,
        Value::Bool(b) => Json::Bool(*b),
        Value::Number(n) => match (n.as_u64(), n.as_i64()) {
            (Some(u), _) => Json::Uint(u),
            (None, Some(i)) => Json::Int(i),
            (None, None) => Json::Decimal((n.as_f64().unwrap() * 1e8).round() as i64),
        },
        Value::String(s) => Json::Text(s.clone()),
        Value::Array(items) => Json::Array(items.iter().map(to_json).collect()),
        Value::Object(members) => Json::Object(
            members.iter().map(|(k, v)| JsonMember { key: k.clone(), value: to_json(v) }).collect(),
        ),
    }
}

fn parse(text: &str) -> Json {
    to_json(&serde_json::from_str::<Value>(text).unwrap())
}

#[test]
fn values_are_read_by_kind() {
    let v = parse(r#"{"s":"x","n":7,"neg":-3,"f":1.5,"t":"2.25","b":true,"a":[1,"two"],"o":{"k":null}}"#);
    assert_eq!(text_at(&v, "s"), Some("x"));
    assert_eq!(text_at(&v, "n"), None);
    assert_eq!(text_at(&v, "missing"), None);
    assert_eq!(uint_at(&v, "n"), Some(7));
    assert_eq!(uint_at(&v, "neg"), None);
    assert_eq!(uint_at(&v, "f"), None);
    assert_eq!(uint_at(&v, "s"), None);
    assert_eq!(number_at(&v, "n"), Some(d("7")));
    assert_eq!(number_at(&v, "neg"), Some(d("-3")));
    assert_eq!(number_at(&v, "f"), Some(d("1.5")));
    assert_eq!(number_at(&v, "t"), None);
    assert_eq!(amount_at(&v, "t"), Some(d("2.25")));
    assert_eq!(amount_at(&v, "f"), Some(d("1.5")));
    assert_eq!(amount_at(&v, "s"), None);
    assert_eq!(amount_at(&v, "b"), None);
    assert_eq!(decimal_text_at(&v, "t"), Some(d("2.25")));
    assert_eq!(decimal_text_at(&v, "f"), None);
    assert_eq!(v.get("b").unwrap().as_bool(), Some(true));
    assert_eq!(v.get("n").unwrap().as_bool(), None);
    let a = v.get("a").unwrap();
    assert_eq!(a.as_array().unwrap().len(), 2);
    assert_eq!(a.at(1).unwrap().as_str(), Some("two"));
    assert!(a.at(2).is_none());
    assert!(a.get("k").is_none());
    assert!(v.at(0).is_none());
    assert!(matches!(v.get("o").unwrap().get("k"), Some(Json::Null)));
    assert_eq!(Json::Uint(u64::MAX).as_amount(), Some(i64::MAX));
    assert_eq!(Json::Int(i64::MIN).as_amount(), Some(i64::MIN));
    assert_eq!(Json::Null.as_amount(), None);
}

#[test]
fn levels_come_as_a_list_or_as_an_object() {
    let listed = parse(r#"[[{"px":"99","sz":"1","n":2},{"px":"98","sz":"3"}],[{"px":"101","sz":"2","n":1}]]"#);
    let (bids, asks) = book_levels(Some(&listed));
    assert_eq!(bids.len(), 1);
    assert_eq!(bids[0].px, "99");
    assert_eq!(bids[0].sz, "1");
    assert_eq!(bids[0].n, 2);
    assert_eq!(asks.len(), 1);
    assert_eq!(asks[0].px, "101");
    let keyed = parse(r#"{"bids":[{"px":"5","sz":"1","n":1}],"asks":"none"}"#);
    let (bids, asks) = book_levels(Some(&keyed));
    assert_eq!(bids.len(), 1);
    assert!(asks.is_empty());
    let (bids, asks) = book_levels(None);
    assert!(bids.is_empty() && asks.is_empty());
    assert!(L2Level::from_json(&parse(r#"{"px":1,"sz":"1","n":1}"#)).is_none());
    assert!(L2Level::from_json(&parse(r#"{"px":"1","sz":"1","n":"1"}"#)).is_none());
}

#[test]
fn trades_and_fills_need_every_field() {
    let t = Trade::from_json(&parse(r#"{"coin":"BTC","side":"B","px":"1","sz":"2","time":3,"hash":"x"}"#)).unwrap();
    assert_eq!((t.coin.as_str(), t.side.as_str(), t.px.as_str(), t.sz.as_str(), t.time), ("BTC", "B", "1", "2", 3));
    assert!(Trade::from_json(&parse(r#"{"coin":"BTC","side":"B","px":"1","sz":"2"}"#)).is_none());
    assert!(Trade::from_json(&parse(r#"[1]"#)).is_none());
    let f = UserFill::from_json(&parse(
        r#"{"coin":"ETH","px":"1","sz":"2","side":"A","dir":"Close Long","closedPnl":"0.5","hash":"0xab","tid":9}"#,
    ))
    .unwrap();
    assert_eq!(f.closed_pnl, "0.5");
    assert_eq!(f.dir, "Close Long");
    assert_eq!(f.tid, 9);
    assert!(UserFill::from_json(&parse(
        r#"{"coin":"ETH","px":"1","sz":"2","side":"A","dir":"x","closed_pnl":"0.5","hash":"0xab","tid":9}"#
    ))
    .is_none());
}

#[test]
fn messages_are_routed_and_read() {
    match read_message(&parse(
        r#"{"channel":"l2Book","data":{"coin":"BTC","levels":[[{"px":"99","sz":"1","n":1}],[{"px":"101","sz":"1","n":1}]]}}"#,
    )) {
        FeedEvent::Book { coin, bids, asks } => {
            assert_eq!(coin, "BTC");
            assert_eq!(bids[0].px, "99");
            assert_eq!(asks[0].px, "101");
        }
        other => panic!("{:?}", other),
    }
    assert!(matches!(
        read_message(&parse(r#"{"channel":"l2Book","data":{"levels":[[],[]]}}"#)),
        FeedEvent::Nothing
    ));
    assert!(matches!(read_message(&parse(r#"{"channel":"l2Book"}"#)), FeedEvent::Nothing));
    match read_message(&parse(
        r#"{"channel":"trades","data":[{"coin":"BTC","side":"B","px":"1","sz":"2","time":3},{"junk":1},{"coin":"BTC","side":"A","px":"1","sz":"2","time":4}]}"#,
    )) {
        FeedEvent::Trades(trades) => {
            assert_eq!(trades.len(), 2);
            assert_eq!(trades[1].time, 4);
        }
        other => panic!("{:?}", other),
    }
    assert!(matches!(read_message(&parse(r#"{"channel":"trades","data":{}}"#)), FeedEvent::Nothing));
    let fill = r#"{"coin":"ETH","px":"1","sz":"2","side":"A","dir":"x","closedPnl":"0","hash":"h","tid":9}"#;
    match read_message(&parse(&format!(r#"{{"channel":"userFills","data":{{"fills":[{}]}}}}"#, fill))) {
        FeedEvent::Fills(fills) => assert_eq!(fills.len(), 1),
        other => panic!("{:?}", other),
    }
    match read_message(&parse(&format!(
        r#"{{"channel":"userFills","data":{{"isSnapshot":false,"fills":[{}]}}}}"#,
        fill
    ))) {
        FeedEvent::Fills(fills) => assert_eq!(fills[0].tid, 9),
        other => panic!("{:?}", other),
    }
    assert!(matches!(
        read_message(&parse(&format!(
            r#"{{"channel":"userFills","data":{{"isSnapshot":true,"fills":[{}]}}}}"#,
            fill
        ))),
        FeedEvent::Nothing
    ));
    assert!(matches!(read_message(&parse(r#"{"channel":"pong"}"#)), FeedEvent::Heartbeat));
    assert!(matches!(read_message(&parse(r#"{"channel":"ping"}"#)), FeedEvent::Heartbeat));
    assert!(matches!(read_message(&parse(r#"{"channel":"other"}"#)), FeedEvent::Nothing));
    assert!(matches!(read_message(&parse(r#"{"data":[]}"#)), FeedEvent::Nothing));
    assert!(matches!(read_message(&parse(r#"[1,2]"#)), FeedEvent::Nothing));
}

#[test]
fn universe_and_contexts() {
    let resp = parse(
        r#"[{"universe":[{"name":"BTC"},{"szDecimals":1},{"name":"ETH"},{"name":"SOL"}]},
            [{"funding":"0.0001","openInterest":"10","oraclePx":"27000","dayNtlVlm":"5"},
             {"funding":"x","dayNtlVlm":"9.5"},
             {"dayNtlVlm":"9.5"},
             {"dayNtlVlm":"1"}]]"#,
    );
    let contexts = read_contexts(&resp, 77);
    // Names without a gap: BTC, ETH, SOL take the first three contexts.
    assert_eq!(contexts.len(), 3);
    assert_eq!(contexts[0].coin, "BTC");
    assert_eq!(contexts[0].context.funding_rate, d("0.0001"));
    assert_eq!(contexts[0].context.open_interest, d("10"));
    assert_eq!(contexts[0].context.oracle_px, d("27000"));
    assert_eq!(contexts[0].context.day_ntl_vlm, d("5"));
    assert_eq!(contexts[0].context.last_update, 77);
    assert_eq!(contexts[1].coin, "ETH");
    assert_eq!(contexts[1].context.funding_rate, 0);
    assert_eq!(contexts[2].coin, "SOL");
    assert_eq!(universe_of(&contexts), vec!["ETH".to_string(), "SOL".to_string(), "BTC".to_string()]);
    assert!(read_contexts(&parse(r#"{"universe":[]}"#), 1).is_empty());
    assert!(read_contexts(&parse(r#"[{"universe":[{"name":"BTC"}]}]"#), 1).is_empty());
    assert!(read_contexts(&parse(r#"[{"universe":[{"name":"BTC"}]},{}]"#), 1).is_empty());
    assert!(read_contexts(&parse(r#"[{},[{"dayNtlVlm":"1"}]]"#), 1).is_empty());
}

#[test]
fn account_state() {
    let state = parse(
        r#"{"withdrawable":"12.5","marginSummary":{"accountValue":"20"},
            "assetPositions":[
              {"position":{"coin":"BTC","szi":"0.5","entryPx":"27000","unrealizedPnl":"-1.5"}},
              {"position":{"coin":"ETH","szi":"-2","entryPx":"1800"}},
              {"position":{"coin":"SOL","szi":"0"}},
              {"position":{"coin":"X","szi":3}},
              {"type":"oneWay"}]}"#,
    );
    assert_eq!(read_balance(&state), d("12.5"));
    assert_eq!(read_balance(&parse(r#"{"withdrawable":7.25}"#)), d("7.25"));
    assert_eq!(read_balance(&parse(r#"{"withdrawable":null}"#)), 0);
    assert_eq!(read_balance(&parse(r#"[]"#)), 0);
    let positions = read_positions(&state);
    assert_eq!(positions.len(), 2);
    assert_eq!(positions[0].coin, "BTC");
    assert_eq!(positions[0].direction, Direction::Long);
    assert_eq!(positions[0].size, d("0.5"));
    assert_eq!(positions[0].entry_price, d("27000"));
    assert_eq!(positions[0].unrealized_pnl, d("-1.5"));
    assert_eq!(positions[1].coin, "ETH");
    assert_eq!(positions[1].direction, Direction::Short);
    assert_eq!(positions[1].size, d("2"));
    assert_eq!(positions[1].unrealized_pnl, 0);
    assert!(read_positions(&parse(r#"{"assetPositions":{}}"#)).is_empty());
    assert!(read_positions(&parse(r#"{}"#)).is_empty());
}

#[test]
fn mids_orders_and_universe() {
    let mids = read_mids(&parse(r#"{"BTC":"27000.5","ETH":"1800","BAD":"x","NUM":5,"BTC2":"1"}"#));
    assert_eq!(mids.len(), 3);
    assert_eq!(mids.get("BTC"), Some(&d("27000.5")));
    assert_eq!(mids.get("ETH"), Some(&d("1800")));
    assert_eq!(mids.get("BAD"), None);
    assert_eq!(mids.get("NUM"), None);
    assert_eq!(read_mids(&parse(r#"[1]"#)).len(), 0);

    let orders = read_open_orders(&parse(
        r#"[{"coin":"BTC","oid":7,"side":"B","limitPx":"99.5","timestamp":123,"sz":"1"},{"oid":"8"},5]"#,
    ));
    assert_eq!(orders.len(), 3);
    assert_eq!(orders[0].coin, Some("BTC".to_string()));
    assert_eq!(orders[0].oid, Some(7));
    assert_eq!(orders[0].side, "B");
    assert_eq!(orders[0].limit_px, "99.5");
    assert_eq!(orders[0].timestamp, Some(123));
    assert_eq!(orders[1].coin, None);
    assert_eq!(orders[1].oid, None);
    assert_eq!(orders[1].side, "");
    assert_eq!(orders[1].limit_px, "0");
    assert_eq!(orders[2].oid, None);
    assert!(read_open_orders(&parse(r#"{"error":"x"}"#)).is_empty());

    let universe = read_universe(&parse(
        r#"{"universe":[{"name":"BTC","szDecimals":5,"maxLeverage":50},{"szDecimals":1},{"name":"ETH"}]}"#,
    ));
    assert_eq!(universe.len(), 3);
    assert_eq!(universe[0].name, Some("BTC".to_string()));
    assert_eq!(universe[0].sz_decimals, Some(5));
    assert_eq!(universe[0].max_leverage, Some(50));
    assert_eq!(universe[1].name, None);
    assert_eq!(universe[2].sz_decimals, None);
    assert!(read_universe(&parse(r#"{"universe":3}"#)).is_empty());
    assert!(read_universe(&parse(r#"{}"#)).is_empty());
}

#[test]
fn exchange_replies() {
    let text = r#"{"status":"ok","response":{"type":"order","data":{"statuses":[{"error":"Insufficient margin"},{"resting":{"oid":1}}]}}}"#;
    let reply = ExchangeReply::from_json(&parse(text), "raw".to_string());
    assert_eq!(reply.status, Some("ok".to_string()));
    assert_eq!(reply.response_json, "raw");
    assert_eq!(reply.status_error, Some("Insufficient margin".to_string()));
    let err = ExchangeReply::from_json(&parse(r#"{"status":"err","response":"bad"}"#), "x".to_string());
    assert_eq!(err.status, Some("err".to_string()));
    assert_eq!(err.status_error, None);
    let resting = ExchangeReply::from_json(
        &parse(r#"{"status":"ok","response":{"data":{"statuses":[{"resting":{"oid":1}}]}}}"#),
        "x".to_string(),
    );
    assert_eq!(resting.status_error, None);
    let bare = ExchangeReply::from_json(&parse(r#"[]"#), String::new());
    assert_eq!(bare.status, None);
    assert_eq!(bare.status_error, None);
}

fn receipt() -> TradeAction {
    TradeAction {
        session_id: String::new(),
        coin: "BTC".to_string(),
        action: "OPEN".to_string(),
        direction: Direction::Long,
        price: 1,
        size: 2,
        reason: "Live Order Placed".to_string(),
        pnl: None,
        fee: Some(0),
        exit_type: None,
        ts: 5,
        entry_rsi: None,
        entry_bb_dist: None,
        entry_score: None,
    }
}

fn order_outcome(text: &str) -> Result<TradeAction, OrderError> {
    let data = parse(text);
    let by_reply = order_result(&ExchangeReply::from_json(&data, "raw".to_string()), receipt());
    let direct = order_result_of(&data, "raw".to_string(), receipt());
    assert_eq!(format!("{:?}", by_reply), format!("{:?}", direct));
    direct
}

#[test]
fn status_error_at_any_place_rejects_the_order() {
    let second = r#"{"status":"ok","response":{"type":"order","data":{"statuses":[{"resting":{"oid":1}},{"error":"Order must have minimum value of $10"}]}}}"#;
    let reply = ExchangeReply::from_json(&parse(second), "raw".to_string());
    assert_eq!(reply.status_error, Some("Order must have minimum value of $10".to_string()));
    match order_outcome(second) {
        Err(OrderError::InvalidOrder(text)) => {
            assert_eq!(text, "Order must have minimum value of $10")
        }
        other => panic!("{:?}", other),
    }
    let last = r#"{"status":"ok","response":{"data":{"statuses":[{"resting":{"oid":1}},{"filled":{"oid":2}},"waitingForFill",{"error":"late"}]}}}"#;
    match order_outcome(last) {
        Err(OrderError::InvalidOrder(text)) => assert_eq!(text, "late"),
        other => panic!("{:?}", other),
    }
    // Of several errors the first is reported.
    let two = r#"{"status":"ok","response":{"data":{"statuses":[{"resting":{"oid":1}},{"error":"one"},{"error":"two"}]}}}"#;
    match order_outcome(two) {
        Err(OrderError::InvalidOrder(text)) => assert_eq!(text, "one"),
        other => panic!("{:?}", other),
    }
    let first = r#"{"status":"ok","response":{"data":{"statuses":[{"error":"Insufficient margin"},{"resting":{"oid":1}}]}}}"#;
    match order_outcome(first) {
        Err(OrderError::InvalidOrder(text)) => assert_eq!(text, "Insufficient margin"),
        other => panic!("{:?}", other),
    }
}

#[test]
fn order_succeeds_only_without_status_errors() {
    let clean = r#"{"status":"ok","response":{"data":{"statuses":[{"resting":{"oid":1}},{"filled":{"oid":2}}]}}}"#;
    let action = order_outcome(clean).unwrap();
    assert_eq!(action.coin, "BTC");
    assert_eq!(action.ts, 5);
    assert!(order_outcome(r#"{"status":"ok","response":{"data":{"statuses":[]}}}"#).is_ok());
    assert!(order_outcome(r#"{"status":"ok","response":{"data":{}}}"#).is_ok());
    assert!(order_outcome(r#"{"status":"ok"}"#).is_ok());
    // An `error` that is no text is no error.
    assert!(order_outcome(r#"{"status":"ok","response":{"data":{"statuses":[{"error":5}]}}}"#).is_ok());
    // A rejected request carries the whole response.
    match order_outcome(r#"{"status":"err","response":"bad order"}"#) {
        Err(OrderError::InvalidOrder(text)) => assert_eq!(text, "raw"),
        other => panic!("{:?}", other),
    }
    match order_outcome(r#"{"status":"err","response":{"data":{"statuses":[{"error":"inner"}]}}}"#) {
        Err(OrderError::InvalidOrder(text)) => assert_eq!(text, "raw"),
        other => panic!("{:?}", other),
    }
}

#[test]
fn asset_configs() {
    let one = r#"{"asset":"BTC","tick_size":0.1,"min_order_usd":10,"max_inv_usd":20.0,"base_spread_bps":1.5,"atr_fraction":0.002,"regime":"uncertain"}"#;
    let c = read_asset_config(&parse(one)).unwrap();
    assert_eq!(c.asset, "BTC");
    assert_eq!(c.tick_size, d("0.1"));
    assert_eq!(c.min_order_usd, d("10"));
    assert_eq!(c.max_inv_usd, d("20"));
    assert_eq!(c.base_spread_bps, d("1.5"));
    assert_eq!(c.atr_fraction, d("0.002"));
    assert_eq!(c.regime, Regime::Uncertain);
    assert!(c.is_valid());
    let list = read_asset_configs(&parse(&format!("[{},{}]", one, one))).unwrap();
    assert_eq!(list.len(), 2);
    assert_eq!(read_asset_configs(&parse("[]")).unwrap().len(), 0);
    // One item that is no configuration spoils the whole message.
    assert!(read_asset_configs(&parse(&format!("[{},{{\"asset\":\"ETH\"}}]", one))).is_none());
    assert!(read_asset_configs(&parse(one)).is_none());
    let texted = one.replace("0.1", "\"0.1\"");
    assert!(read_asset_config(&parse(&texted)).is_none());
}
