use mm_engine::decimal::{snap_to_tick, SCALE};
use mm_engine::market_maker::{compute_quote_grid, MmAssetConfig, QuoteGrid, Regime, Side};
use mm_engine::wire::parse_decimal;

fn d(text: &str) -> i64 {
    parse_decimal(text).unwrap()
}

fn config(tick: &str, bps: &str) -> MmAssetConfig {
    MmAssetConfig {
        asset: "BTC".to_string(),
        tick_size: d(tick),
        min_order_usd: d("10"),
        max_inv_usd: d("20"),
        base_spread_bps: d(bps),
        atr_fraction: d("0.002"),
        regime: Regime::Calm,
    }
}

#[test]
fn default_config_is_valid() {
    let c = MmAssetConfig::default();
    assert_eq!(c.asset, "BTC");
    assert_eq!(c.tick_size, d("0.1"));
    assert_eq!(c.min_order_usd, d("10"));
    assert_eq!(c.max_inv_usd, d("20"));
    assert_eq!(c.base_spread_bps, d("1.5"));
    assert_eq!(c.atr_fraction, d("0.002"));
    assert_eq!(c.regime, Regime::Calm);
    assert!(c.is_valid());
    let mut bad = MmAssetConfig::default();
    bad.tick_size = 0;
    assert!(!bad.is_valid());
}

#[test]
fn calm_grid_neutral_inventory() {
    // A fine tick shows the targets themselves: 1.5 bps on each side.
    let grid = compute_quote_grid(d("100"), &config("0.001", "1.5"), 0, SCALE, false, false, 1);
    assert_eq!(grid.bids.len(), 1);
    assert_eq!(grid.asks.len(), 1);
    assert_eq!(grid.bids[0].price, d("99.985"));
    assert_eq!(grid.asks[0].price, d("100.015"));
    assert_eq!(grid.bids[0].side, Side::Bid);
    assert_eq!(grid.asks[0].side, Side::Ask);
    assert_eq!(grid.bids[0].layer, 1);
    assert_eq!(grid.bids[0].size_usd, d("12"));
    assert_eq!(grid.bids[0].oid, None);
    assert!(d("100") - grid.bids[0].price >= d("0.015"));
    assert!(grid.asks[0].price - d("100") >= d("0.015"));
}

#[test]
fn calm_grid_on_coarser_ticks() {
    let cent = compute_quote_grid(d("100"), &config("0.01", "1.5"), 0, SCALE, false, false, 1);
    assert_eq!(cent.bids[0].price, d("99.99"));
    assert_eq!(cent.asks[0].price, d("100.02"));
    // With a tick of 0.1 the bid target of 99.985 rounds up to mid itself.
    let dime = compute_quote_grid(d("100"), &config("0.1", "1.5"), 0, SCALE, false, false, 1);
    assert_eq!(dime.bids[0].price, d("100"));
    assert_eq!(dime.asks[0].price, d("100"));
}

#[test]
fn long_inventory_at_cap_with_engaged_skew_cap() {
    let neutral = compute_quote_grid(d("100"), &config("0.001", "1.5"), 0, SCALE, false, false, 1);
    let long = compute_quote_grid(d("100"), &config("0.001", "1.5"), d("20"), SCALE, false, false, 1);
    assert_eq!(long.bids[0].price, neutral.bids[0].price);
    assert_eq!(long.asks[0].price, neutral.asks[0].price);
}

#[test]
fn regime_widening_and_suppressed_bids() {
    let grid = compute_quote_grid(d("100"), &config("0.001", "1.5"), 0, 2 * SCALE, true, false, 1);
    assert!(grid.bids.is_empty());
    assert_eq!(grid.asks.len(), 1);
    assert_eq!(grid.asks[0].price, d("100.03"));
    let other = compute_quote_grid(d("100"), &config("0.001", "1.5"), 0, 2 * SCALE, false, true, 1);
    assert!(other.asks.is_empty());
    assert_eq!(other.bids[0].price, d("99.97"));
}

#[test]
fn three_layers_spread_and_size() {
    let grid = compute_quote_grid(d("100"), &config("0.001", "2"), 0, SCALE, false, false, 3);
    let bids: Vec<i64> = grid.bids.iter().map(|q| q.price).collect();
    let asks: Vec<i64> = grid.asks.iter().map(|q| q.price).collect();
    assert_eq!(bids, vec![d("99.98"), d("99.95"), d("99.9")]);
    assert_eq!(asks, vec![d("100.02"), d("100.05"), d("100.1")]);
    let sizes: Vec<i64> = grid.asks.iter().map(|q| q.size_usd).collect();
    assert_eq!(sizes, vec![d("12"), d("24"), d("36")]);
    let layers: Vec<u8> = grid.bids.iter().map(|q| q.layer).collect();
    assert_eq!(layers, vec![1, 2, 3]);
    // More than three layers are not quoted, and none means an empty grid.
    let five = compute_quote_grid(d("100"), &config("0.001", "2"), 0, SCALE, false, false, 5);
    assert_eq!(five.bids.len(), 3);
    let none = compute_quote_grid(d("100"), &config("0.001", "2"), 0, SCALE, false, false, 0);
    assert!(none.is_empty());
}

#[test]
fn min_order_above_twelve_sets_the_base_size() {
    let mut cfg = config("0.001", "2");
    cfg.min_order_usd = d("50");
    let grid = compute_quote_grid(d("100"), &cfg, 0, SCALE, false, false, 2);
    assert_eq!(grid.bids[0].size_usd, d("50"));
    assert_eq!(grid.bids[1].size_usd, d("100"));
}

#[test]
fn nothing_is_quoted_on_halt_or_without_a_mid() {
    let mut cfg = config("0.001", "1.5");
    cfg.regime = Regime::Halt;
    assert!(compute_quote_grid(d("100"), &cfg, 0, SCALE, false, false, 3).is_empty());
    let cfg = config("0.001", "1.5");
    assert!(compute_quote_grid(0, &cfg, 0, SCALE, false, false, 3).is_empty());
    assert!(compute_quote_grid(d("-5"), &cfg, 0, SCALE, false, false, 3).is_empty());
    assert!(QuoteGrid::default().is_empty());
}

#[test]
fn zero_cap_and_zero_inventory_quote_nothing() {
    let mut cfg = config("0.001", "3");
    cfg.max_inv_usd = 0;
    assert!(compute_quote_grid(d("100"), &cfg, 0, SCALE, false, false, 1).is_empty());
    // Any inventory against a zero cap counts as a full one.
    let long = compute_quote_grid(d("100"), &cfg, d("1"), SCALE, false, false, 1);
    assert_eq!(long.bids[0].price, d("99.955"));
}

#[test]
fn skew_moves_both_sides_down_as_inventory_grows() {
    // eff = 0.03, min_dist = 0.015, so the skew is capped at 0.015.
    let cfg = config("0.001", "3");
    let mut last_bid = i64::MAX;
    let mut last_ask = i64::MAX;
    for inv in ["-20", "-10", "-2", "0", "2", "10", "20"] {
        let grid = compute_quote_grid(d("100"), &cfg, d(inv), SCALE, false, false, 1);
        assert!(grid.bids[0].price <= last_bid);
        assert!(grid.asks[0].price <= last_ask);
        last_bid = grid.bids[0].price;
        last_ask = grid.asks[0].price;
    }
    let short = compute_quote_grid(d("100"), &cfg, d("-20"), SCALE, false, false, 1);
    let small = compute_quote_grid(d("100"), &cfg, d("2"), SCALE, false, false, 1);
    let long = compute_quote_grid(d("100"), &cfg, d("20"), SCALE, false, false, 1);
    assert_eq!(short.bids[0].price, d("99.985"));
    assert_eq!(short.asks[0].price, d("100.045"));
    // fraction 0.1, raw skew 0.1 * 0.03 * 1.5 = 0.0045
    // targets 99.9655 and 100.0255, each half a tick from its neighbours
    assert_eq!(small.bids[0].price, d("99.966"));
    assert_eq!(small.asks[0].price, d("100.026"));
    assert_eq!(long.bids[0].price, d("99.955"));
    assert_eq!(long.asks[0].price, d("100.015"));
}

#[test]
fn quotes_keep_the_fee_distance_and_the_tick() {
    let cfg = config("0.005", "3");
    for inv in ["-30", "-20", "-7", "0", "7", "20", "30"] {
        for mult in [SCALE, 2 * SCALE, 4 * SCALE] {
            let grid = compute_quote_grid(d("250"), &cfg, d(inv), mult, false, false, 3);
            for q in grid.bids.iter() {
                assert!(q.price < d("250"));
                assert!(q.price > 0);
                assert_eq!(q.price % cfg.tick_size, 0);
            }
            for q in grid.asks.iter() {
                assert!(q.price * 10 > d("250") * 9);
                assert_eq!(q.price % cfg.tick_size, 0);
            }
        }
    }
}

#[test]
fn a_bid_that_would_not_be_positive_is_dropped() {
    // A half-spread of the whole price puts the first bid at zero.
    let cfg = config("0.001", "10000");
    let grid = compute_quote_grid(d("100"), &cfg, 0, SCALE, false, false, 3);
    assert!(grid.bids.is_empty());
    assert_eq!(grid.asks.len(), 3);
    assert_eq!(grid.asks[0].price, d("200"));
}

#[test]
fn snap_rounds_half_away_from_zero() {
    assert_eq!(snap_to_tick(d("99.985"), d("0.1")), d("100"));
    assert_eq!(snap_to_tick(d("99.94"), d("0.1")), d("99.9"));
    assert_eq!(snap_to_tick(-15, 10), -20);
    assert_eq!(snap_to_tick(-14, 10), -10);
    assert_eq!(snap_to_tick(14, 10), 10);
    assert_eq!(snap_to_tick(15, 10), 20);
    assert_eq!(snap_to_tick(0, 10), 0);
    assert_eq!(snap_to_tick(123, 0), 123);
    assert_eq!(snap_to_tick(123, -5), 123);
}
