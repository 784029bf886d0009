use mm_engine::ingestor::{
    new_stall_panic_flag, StallMonitor, L2BookSnapshot, L2Level, LatencyAuditor,
    MarketContext, MarketDataBuffer, StallAction, Trade, UserFill,
};
use mm_engine::wire::parse_decimal;

fn d(text: &str) -> i64 {
    parse_decimal(text).unwrap()
}

fn level(px: &str) -> L2Level {
    L2Level { px: px.to_string(), sz: "1".to_string(), n: 1 }
}

fn snap(coin: &str, bid: Option<&str>, ask: Option<&str>) -> L2BookSnapshot {
    L2BookSnapshot {
        coin: coin.to_string(),
        bids: bid.map(|b| vec![level(b), level("1")]).unwrap_or_default(),
        asks: ask.map(|a| vec![level(a), level("999999")]).unwrap_or_default(),
        received_at_ms: 5,
    }
}

fn trade(coin: &str, time: u64) -> Trade {
    Trade {
        coin: coin.to_string(),
        side: "B".to_string(),
        px: "1".to_string(),
        sz: "1".to_string(),
        time,
    }
}

fn fill(tid: u64) -> UserFill {
    UserFill {
        coin: "BTC".to_string(),
        px: "1".to_string(),
        sz: "1".to_string(),
        side: "B".to_string(),
        dir: "Open Long".to_string(),
        closed_pnl: "0".to_string(),
        hash: "0x".to_string(),
        tid,
    }
}

#[test]
fn mid_spread_and_basis_points() {
    let s = snap("BTC", Some("99.5"), Some("100.5"));
    assert_eq!(s.mid_price(), Some(d("100")));
    assert_eq!(s.spread(), Some(d("1")));
    assert_eq!(s.spread_bps(), Some(d("100")));
    let odd = snap("BTC", Some("0.00000001"), Some("0.00000002"));
    assert_eq!(odd.mid_price(), Some(1));
    let crossed = snap("BTC", Some("101"), Some("100"));
    assert_eq!(crossed.spread(), Some(d("-1")));
    assert_eq!(crossed.spread_bps(), Some(-9_950_248_756));
}

#[test]
fn no_mid_without_both_sides_or_with_bad_prices() {
    assert_eq!(snap("BTC", None, Some("1")).mid_price(), None);
    assert_eq!(snap("BTC", Some("1"), None).spread(), None);
    assert_eq!(snap("BTC", Some("x"), Some("1")).mid_price(), None);
    assert_eq!(snap("BTC", Some("1"), Some("1e3")).spread_bps(), None);
    // Without a positive mid there are no basis points.
    assert_eq!(snap("BTC", Some("-1"), Some("1")).mid_price(), Some(0));
    assert_eq!(snap("BTC", Some("-1"), Some("1")).spread_bps(), None);
}

#[test]
fn stall_after_thirty_seconds() {
    let mut b = MarketDataBuffer::new(1_000);
    assert!(!b.is_stalled(1_000));
    assert!(!b.is_stalled(31_000));
    assert!(b.is_stalled(31_001));
    assert!(!b.is_stalled(0));
    b.touch(31_001);
    assert!(!b.is_stalled(32_000));
    assert!(b.is_stalled(62_002));
}

#[test]
fn book_updates_keep_the_latest_and_a_price_history() {
    let mut b = MarketDataBuffer::new(0);
    b.update_l2(snap("BTC", Some("99"), Some("101")), 1_000);
    b.update_l2(snap("BTC", Some("100"), Some("102")), 2_000);
    b.update_l2(snap("ETH", None, Some("102")), 2_500);
    assert_eq!(b.last_ws_message_ms, 2_500);
    assert_eq!(b.l2_books.len(), 2);
    assert_eq!(b.l2_books.get("BTC").unwrap().mid_price(), Some(d("101")));
    let history: Vec<(u64, i64)> = b.price_histories.get("BTC").unwrap().iter().cloned().collect();
    assert_eq!(history, vec![(1_000, d("100")), (2_000, d("101"))]);
    assert!(b.price_histories.get("ETH").is_none());
    // Five minutes later the old mids leave; the newest always stays.
    b.update_l2(snap("BTC", Some("100"), Some("104")), 302_000);
    let history: Vec<(u64, i64)> = b.price_histories.get("BTC").unwrap().iter().cloned().collect();
    assert_eq!(history, vec![(2_000, d("101")), (302_000, d("102"))]);
    b.update_l2(snap("BTC", Some("100"), Some("104")), 1_000_000);
    assert_eq!(b.price_histories.get("BTC").unwrap().len(), 1);
}

#[test]
fn trade_buffer_keeps_a_thousand() {
    let mut b = MarketDataBuffer::new(0);
    for t in 0..1_005 {
        b.add_trade(trade("BTC", t), t);
    }
    b.add_trade(trade("ETH", 7), 2_000);
    let btc = b.trade_buffers.get("BTC").unwrap();
    assert_eq!(btc.len(), 1_000);
    assert_eq!(btc.front().unwrap().time, 5);
    assert_eq!(btc.back().unwrap().time, 1_004);
    assert_eq!(b.trade_buffers.get("ETH").unwrap().len(), 1);
    assert_eq!(b.last_ws_message_ms, 2_000);
}

#[test]
fn fill_queue_keeps_five_hundred() {
    let mut b = MarketDataBuffer::new(0);
    for t in 0..502 {
        b.add_user_fill(fill(t), t);
    }
    assert_eq!(b.user_fills.len(), 500);
    assert_eq!(b.user_fills.front().unwrap().tid, 2);
    assert_eq!(b.last_ws_message_ms, 501);
}

#[test]
fn contexts_are_replaced() {
    let mut b = MarketDataBuffer::new(9);
    let ctx = MarketContext { funding_rate: 1, open_interest: 2, oracle_px: 3, day_ntl_vlm: 4, last_update: 5 };
    b.update_context("BTC", ctx);
    b.update_context("BTC", MarketContext { funding_rate: 10, ..ctx });
    assert_eq!(b.contexts.len(), 1);
    assert_eq!(b.contexts.get("BTC").unwrap().funding_rate, 10);
    assert_eq!(b.last_ws_message_ms, 9);
}

#[test]
fn stall_flag_and_monitor() {
    let mut flag = new_stall_panic_flag();
    assert!(!flag.raised);
    assert!(!flag.watch(false));
    assert!(flag.watch(true));
    assert!(flag.raised);
    assert!(!flag.watch(true));
    assert!(!flag.watch(false));
    assert!(flag.raised);
    flag.clear();
    assert!(!flag.raised);
}

#[test]
fn stall_monitor_cancels_on_rise_and_clears_after_reconcile() {
    let mut flag = new_stall_panic_flag();
    let mut monitor = StallMonitor::new();
    // Nothing to do while the flag is down, stalled or not.
    assert_eq!(monitor.step(&flag, false), StallAction::Nothing);
    assert_eq!(monitor.step(&flag, true), StallAction::Nothing);
    // The watcher raises the flag: one cancel-all, then waiting.
    assert!(flag.watch(true));
    assert_eq!(monitor.step(&flag, true), StallAction::CancelAll);
    assert_eq!(monitor.step(&flag, true), StallAction::Nothing);
    assert_eq!(monitor.step(&flag, true), StallAction::Nothing);
    assert!(flag.raised);
    // The feed is back: the flag stays up until the engine has reconciled.
    assert_eq!(monitor.step(&flag, false), StallAction::Reconcile);
    assert!(flag.raised);
    monitor.reconciled(&mut flag);
    assert!(!flag.raised);
    assert_eq!(monitor.step(&flag, false), StallAction::Nothing);
    // A second stall is answered anew.
    assert!(flag.watch(true));
    assert_eq!(monitor.step(&flag, true), StallAction::CancelAll);
}

#[test]
fn stall_monitor_cancels_before_it_reconciles() {
    // The flag rose and the feed came back between two looks: the rise is
    // answered first, the return at the next look.
    let mut flag = new_stall_panic_flag();
    let mut monitor = StallMonitor::new();
    assert!(flag.watch(true));
    assert_eq!(monitor.step(&flag, false), StallAction::CancelAll);
    assert_eq!(monitor.step(&flag, false), StallAction::Reconcile);
}

#[test]
fn latency_percentile() {
    let mut a = LatencyAuditor::default();
    assert_eq!(a.p95_us(), 0);
    assert!(!a.is_too_slow());
    assert_eq!(a.report(), "No samples yet");
    // Recorded out of order: 100, 99, ..., 1 microseconds.
    for i in 0..100u64 {
        a.record(1_000, 1_000 + 100 - i);
    }
    assert_eq!(a.p95_us(), 96);
    assert!(!a.is_too_slow());
    assert_eq!(a.report(), "Latency: avg=50µs, p95=96µs, too_slow=false");
    let mut one = LatencyAuditor::default();
    one.record(5, 50_006);
    assert_eq!(one.p95_us(), 50_001);
    assert!(one.is_too_slow());
    assert_eq!(one.report(), "Latency: avg=50001µs, p95=50001µs, too_slow=true");
    let mut early = LatencyAuditor::default();
    early.record(10, 5);
    assert_eq!(early.p95_us(), 0);
}

#[test]
fn latency_window_keeps_ten_thousand() {
    let mut a = LatencyAuditor::default();
    for i in 0..10_003u64 {
        a.record(0, i);
    }
    assert_eq!(a.samples.len(), 10_000);
    assert_eq!(*a.samples.front().unwrap(), 3);
    // Sorted they are 3..=10002; index 9500 holds 9503.
    assert_eq!(a.p95_us(), 9_503);
}
