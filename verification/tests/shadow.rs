use mm_engine::decimal::SCALE;
use mm_engine::execution::InternalInventory;
use mm_engine::ingestor::Trade;
use mm_engine::market_maker::{
    GridQuote, QueuePositionEstimator, ShadowFill, ShadowSession, Side, LIKELY_FILLED,
};
use mm_engine::shadow::{feed_trades, register_quotes, settle_fills, taker_trade, TakerTrade};
use mm_engine::wire::parse_decimal;

fn d(text: &str) -> i64 {
    parse_decimal(text).unwrap()
}

fn quote(side: Side, layer: u8, price: &str, size: &str) -> GridQuote {
    GridQuote { side, layer, price: d(price), size_usd: d(size), oid: None }
}

fn taker(time: u64, is_buy: bool, price: &str, volume: &str) -> TakerTrade {
    TakerTrade { time, is_buy, price: d(price), size: 0, volume_usd: d(volume) }
}

#[test]
fn estimator_tracks_volume_through_the_price() {
    let mut est = QueuePositionEstimator::new();
    assert!(!est.is_registered("k"));
    assert_eq!(est.fill_probability("k"), 0);
    est.register_order("k", d("100"), true, d("12"), 5);
    assert!(est.is_registered("k"));
    // A taker buy never fills a bid; a sell above the bid does not either.
    est.on_trade("k", d("99"), true, d("50"));
    est.on_trade("k", d("100.01"), false, d("50"));
    assert_eq!(est.fill_probability("k"), 0);
    est.on_trade("k", d("100"), false, d("6"));
    assert_eq!(est.fill_probability("k"), d("0.25"));
    est.on_trade("k", d("99.5"), false, d("10.8"));
    assert_eq!(est.fill_probability("k"), d("0.7"));
    assert!(est.is_likely_filled("k", LIKELY_FILLED));
    est.on_trade("k", d("99.5"), false, d("1000"));
    assert_eq!(est.fill_probability("k"), SCALE);
    est.on_trade("other", d("99.5"), false, d("1000"));
    assert!(!est.is_registered("other"));
    est.remove("k");
    assert!(!est.is_registered("k"));
    assert!(!est.is_likely_filled("k", LIKELY_FILLED));
}

#[test]
fn asks_fill_on_buys_at_or_above() {
    let mut est = QueuePositionEstimator::new();
    est.register_order("a", d("100"), false, d("10"), 5);
    est.on_trade("a", d("100"), false, d("50"));
    est.on_trade("a", d("99.99"), true, d("50"));
    assert_eq!(est.fill_probability("a"), 0);
    est.on_trade("a", d("100"), true, d("13.99999999"));
    assert!(!est.is_likely_filled("a", LIKELY_FILLED));
    est.on_trade("a", d("101"), true, d("0.00000001"));
    assert!(est.is_likely_filled("a", LIKELY_FILLED));
}

#[test]
fn registering_is_idempotent() {
    let mut est = QueuePositionEstimator::new();
    let quotes = vec![quote(Side::Bid, 1, "99.98", "12"), quote(Side::Ask, 1, "100.02", "12")];
    register_quotes(&mut est, "BTC", &quotes, 10);
    assert!(est.is_registered("BTC_bid_L1"));
    assert!(est.is_registered("BTC_ask_L1"));
    est.on_trade("BTC_bid_L1", d("99"), false, d("6"));
    let moved = vec![quote(Side::Bid, 1, "50", "1000"), quote(Side::Bid, 2, "99.95", "24")];
    register_quotes(&mut est, "BTC", &moved, 20);
    // The tracked first bid keeps its price, size and volume.
    assert_eq!(est.fill_probability("BTC_bid_L1"), d("0.25"));
    assert_eq!(est.entries.get("BTC_bid_L1").unwrap().placed_at_ms, 10);
    assert_eq!(est.entries.get("BTC_bid_L2").unwrap().placed_at_ms, 20);
    assert!(est.entries.get("BTC_bid_L2").unwrap().is_bid);
    assert!(!est.entries.get("BTC_ask_L1").unwrap().is_bid);
}

#[test]
fn trades_are_read_from_the_feed() {
    let t = taker_trade(&Trade {
        coin: "BTC".to_string(),
        side: "A".to_string(),
        px: "99.5".to_string(),
        sz: "0.2".to_string(),
        time: 7,
    });
    assert_eq!(t.time, 7);
    assert!(!t.is_buy);
    assert_eq!(t.price, d("99.5"));
    assert_eq!(t.size, d("0.2"));
    assert_eq!(t.volume_usd, d("19.9"));
    let junk = taker_trade(&Trade {
        coin: "BTC".to_string(),
        side: "B".to_string(),
        px: "?".to_string(),
        sz: "0.2".to_string(),
        time: 8,
    });
    assert!(junk.is_buy);
    assert_eq!(junk.price, 0);
    assert_eq!(junk.volume_usd, 0);
}

#[test]
fn only_trades_past_the_watermark_are_fed() {
    let mut est = QueuePositionEstimator::new();
    let quotes = vec![
        quote(Side::Bid, 1, "99.98", "12"),
        quote(Side::Bid, 3, "99.90", "36"),
        quote(Side::Ask, 1, "100.02", "12"),
    ];
    register_quotes(&mut est, "BTC", &quotes, 0);
    let trades = vec![
        taker(100, false, "99.95", "12"),
        taker(101, false, "99.95", "6"),
        taker(150, true, "100.02", "3"),
        taker(120, false, "99.90", "18"),
    ];
    let mark = feed_trades(&mut est, "BTC", &trades, 100);
    assert_eq!(mark, 150);
    // Bid L1 at 99.98: the sells of 6 and 18 went through it.
    assert_eq!(est.fill_probability("BTC_bid_L1"), SCALE);
    // Bid L3 at 99.90: only the sell at 99.90 reached it.
    assert_eq!(est.fill_probability("BTC_bid_L3"), d("0.25"));
    assert_eq!(est.fill_probability("BTC_ask_L1"), d("0.125"));
    // Nothing is newer than the new watermark.
    assert_eq!(feed_trades(&mut est, "BTC", &trades, mark), 150);
    assert_eq!(est.fill_probability("BTC_bid_L3"), d("0.25"));
    assert_eq!(feed_trades(&mut est, "BTC", &Vec::new(), 7), 7);
}

#[test]
fn likely_fills_are_settled() {
    let mut est = QueuePositionEstimator::new();
    let mut inv = InternalInventory::default();
    let mut session = ShadowSession::default();
    let quotes = vec![
        quote(Side::Bid, 1, "99.98", "12"),
        quote(Side::Ask, 1, "100.02", "12"),
        quote(Side::Ask, 2, "100.05", "24"),
    ];
    register_quotes(&mut est, "BTC", &quotes, 0);
    feed_trades(
        &mut est,
        "BTC",
        &vec![taker(1, false, "99.9", "20"), taker(2, true, "100.06", "33.6")],
        0,
    );
    settle_fills(&mut est, &mut inv, &mut session, "BTC", &quotes, d("100"), 9);
    assert_eq!(session.fills.len(), 3);
    assert_eq!(session.fills[0].side, Side::Bid);
    assert_eq!(session.fills[0].price, d("99.98"));
    assert_eq!(session.fills[0].fill_ts_ms, 9);
    assert_eq!(session.fills[0].maker_rebate_usd, d("0.0012"));
    assert_eq!(session.fills[2].layer, 2);
    assert_eq!(session.total_volume_usd, d("48"));
    assert_eq!(session.total_rebates_usd, d("0.0048"));
    assert_eq!(session.total_pnl_usd, d("0.0048"));
    // Bought 0.12, sold 0.12 and 0.24 coins.
    assert_eq!(inv.position("BTC"), d("-0.24"));
    assert!(!est.is_registered("BTC_bid_L1"));
    assert!(!est.is_registered("BTC_ask_L2"));
    // Settling again finds nothing tracked.
    settle_fills(&mut est, &mut inv, &mut session, "BTC", &quotes, d("100"), 10);
    assert_eq!(session.fills.len(), 3);
}

#[test]
fn orders_short_of_the_threshold_stay() {
    let mut est = QueuePositionEstimator::new();
    let mut inv = InternalInventory::default();
    let mut session = ShadowSession::default();
    let quotes = vec![quote(Side::Bid, 1, "99.98", "12")];
    register_quotes(&mut est, "BTC", &quotes, 0);
    feed_trades(&mut est, "BTC", &vec![taker(1, false, "99.9", "16.79")], 0);
    settle_fills(&mut est, &mut inv, &mut session, "BTC", &quotes, d("100"), 9);
    assert!(session.fills.is_empty());
    assert!(est.is_registered("BTC_bid_L1"));
    assert_eq!(inv.position("BTC"), 0);
}

#[test]
fn shadow_fill_carries_the_rebate() {
    let fill = ShadowFill::new("ETH", &quote(Side::Ask, 2, "1800.5", "24"), 77);
    assert_eq!(fill.coin, "ETH");
    assert_eq!(fill.side, Side::Ask);
    assert_eq!(fill.layer, 2);
    assert_eq!(fill.price, d("1800.5"));
    assert_eq!(fill.size_usd, d("24"));
    assert_eq!(fill.fill_ts_ms, 77);
    assert_eq!(fill.maker_rebate_usd, d("0.0024"));
    assert_eq!(Side::Bid.name(), "bid");
    assert_eq!(Side::Ask.name(), "ask");
}

#[test]
fn session_report() {
    let mut session = ShadowSession::default();
    assert_eq!(session.report(), "Shadow PnL: $0.0000 | Volume: $0.00 | Rebates: $0.0000 | Fills: 0");
    session.record_fill(ShadowFill::new("BTC", &quote(Side::Bid, 1, "99.98", "12.345"), 1));
    session.record_fill(ShadowFill::new("BTC", &quote(Side::Ask, 1, "100.02", "24"), 2));
    assert_eq!(
        session.report(),
        "Shadow PnL: $0.0036 | Volume: $36.35 | Rebates: $0.0036 | Fills: 2"
    );
}
