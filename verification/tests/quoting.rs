use mm_engine::decimal::SCALE;
use mm_engine::live::OpenOrder;
use mm_engine::market_maker::{compute_quote_grid, GridQuote, MmAssetConfig, Regime, Side};
use mm_engine::quoting::{
    inventory_guard, inventory_usd, is_sticky, is_taker_buy, live_targets,
    quoting_allowed, reconcile_due, refresh_due, shadow_key, size_in_coins, sticky_threshold,
    sum_notional, whitelist_contracted, QuoteClock,
};
use mm_engine::wire::parse_decimal;

fn d(text: &str) -> i64 {
    parse_decimal(text).unwrap()
}

fn config() -> MmAssetConfig {
    MmAssetConfig {
        asset: "BTC".to_string(),
        tick_size: d("0.001"),
        min_order_usd: d("10"),
        max_inv_usd: d("20"),
        base_spread_bps: d("2"),
        atr_fraction: 0,
        regime: Regime::Calm,
    }
}

fn resting(side: &str, px: &str) -> OpenOrder {
    OpenOrder {
        coin: Some("BTC".to_string()),
        oid: Some(1),
        side: side.to_string(),
        limit_px: px.to_string(),
        timestamp: Some(0),
    }
}

fn names(list: &[&str]) -> Vec<String> {
    list.iter().map(|s| s.to_string()).collect()
}

#[test]
fn halts_stop_quoting() {
    assert!(quoting_allowed(false, false, Regime::Calm));
    assert!(quoting_allowed(false, false, Regime::Uncertain));
    assert!(!quoting_allowed(true, false, Regime::Calm));
    assert!(!quoting_allowed(false, true, Regime::Calm));
    assert!(!quoting_allowed(false, false, Regime::Halt));
}

#[test]
fn inventory_guard_suppresses_the_growing_side() {
    assert_eq!(inventory_usd(d("0.5"), d("100")), d("50"));
    assert_eq!(inventory_guard(d("0.2"), d("100"), d("20")), (false, false));
    assert_eq!(inventory_guard(d("0.21"), d("100"), d("20")), (true, false));
    assert_eq!(inventory_guard(d("-0.21"), d("100"), d("20")), (false, true));
    assert_eq!(inventory_guard(d("-0.2"), d("100"), d("20")), (false, false));
    assert_eq!(inventory_guard(0, d("100"), 0), (false, false));
}

#[test]
fn refresh_every_thirty_seconds() {
    assert!(!refresh_due(29_999, 0));
    assert!(refresh_due(30_000, 0));
    assert!(!refresh_due(5, 10));
    assert!(!reconcile_due(120_000, 0));
    assert!(reconcile_due(120_001, 0));
    let mut clock = QuoteClock::new();
    assert!(clock.begin_refresh("BTC", 30_000));
    assert!(!clock.begin_refresh("BTC", 59_999));
    assert!(clock.begin_refresh("ETH", 59_999));
    assert!(clock.begin_refresh("BTC", 60_000));
    // The trade watermark is a clock of its own.
    assert_eq!(clock.watermark("BTC"), 0);
    clock.set_watermark("BTC", 1_234);
    assert_eq!(clock.watermark("BTC"), 1_234);
    assert!(!clock.begin_refresh("BTC", 60_001));
}

#[test]
fn targets_leave_out_the_suppressed_side() {
    let grid = compute_quote_grid(d("100"), &config(), 0, SCALE, false, false, 2);
    let all = live_targets(&grid, false, false);
    assert_eq!(all.len(), 4);
    assert_eq!(all[0].side, Side::Bid);
    assert_eq!(all[2].side, Side::Ask);
    let asks = live_targets(&grid, true, false);
    assert_eq!(asks.len(), 2);
    assert!(asks.iter().all(|q| q.side == Side::Ask));
    let bids = live_targets(&grid, false, true);
    assert!(bids.iter().all(|q| q.side == Side::Bid));
    assert!(live_targets(&grid, true, true).is_empty());
    assert_eq!(sum_notional(&live_targets(&grid, false, false)), d("72"));
    assert_eq!(sum_notional(&live_targets(&grid, true, false)), d("36"));
    assert_eq!(sum_notional(&Vec::new()), 0);
    assert_eq!(sum_notional(&grid.bids), d("36"));
    assert_eq!(size_in_coins(d("12"), d("100")), d("0.12"));
}

#[test]
fn sticky_skip() {
    let grid = compute_quote_grid(d("100"), &config(), 0, SCALE, false, false, 1);
    let targets = live_targets(&grid, false, false);
    // bid 99.98, ask 100.02; threshold is half of 0.02.
    let threshold = sticky_threshold(d("100"), d("2"));
    assert_eq!(threshold, d("0.01"));
    let exact = vec![resting("B", "99.98"), resting("A", "100.02")];
    assert!(is_sticky(&targets, &exact, threshold));
    let near = vec![resting("A", "100.0299"), resting("B", "99.9701")];
    assert!(is_sticky(&targets, &near, threshold));
    let far = vec![resting("B", "99.97"), resting("A", "100.02")];
    assert!(!is_sticky(&targets, &far, threshold));
    let wrong_side = vec![resting("A", "99.98"), resting("A", "100.02")];
    assert!(!is_sticky(&targets, &wrong_side, threshold));
    let extra = vec![resting("B", "99.98"), resting("A", "100.02"), resting("A", "100.02")];
    assert!(!is_sticky(&targets, &extra, threshold));
    let missing = vec![resting("B", "99.98")];
    assert!(!is_sticky(&targets, &missing, threshold));
    assert!(!is_sticky(&targets, &Vec::new(), threshold));
    // Nothing to quote and nothing resting: the orders stand for the targets.
    assert!(is_sticky(&Vec::<GridQuote>::new(), &Vec::new(), threshold));
    assert!(!is_sticky(&Vec::<GridQuote>::new(), &exact, threshold));
    let unreadable = vec![resting("B", "?"), resting("A", "100.02")];
    assert!(!is_sticky(&targets, &unreadable, threshold));
}

#[test]
fn whitelist_changes() {
    assert!(whitelist_contracted(&names(&["BTC", "ETH"]), &names(&["BTC"])));
    assert!(!whitelist_contracted(&names(&["BTC"]), &names(&["ETH", "BTC"])));
    assert!(!whitelist_contracted(&names(&[]), &names(&["BTC"])));
    assert!(whitelist_contracted(&names(&["BTC"]), &names(&[])));
}

#[test]
fn shadow_keys_and_sides() {
    assert_eq!(shadow_key("BTC", Side::Bid, 1), "BTC_bid_L1");
    assert_eq!(shadow_key("kPEPE", Side::Ask, 3), "kPEPE_ask_L3");
    assert_eq!(shadow_key("", Side::Ask, 255), "_ask_L255");
    assert!(is_taker_buy("B"));
    assert!(!is_taker_buy("A"));
    assert!(!is_taker_buy("b"));
}
