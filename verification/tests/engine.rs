use mm_engine::coin_map::CoinMap;
use mm_engine::exchange::{Direction, OrderError, Position};
use mm_engine::execution::{FlushCall, MmEngineConfig, MmExecutionEngine, ReconcileCall};
use mm_engine::ingestor::{new_stall_panic_flag, MarketDataBuffer, StallAction, StallMonitor};
use mm_engine::wire::parse_decimal;

fn d(text: &str) -> i64 {
    parse_decimal(text).unwrap()
}

fn live_config() -> MmEngineConfig {
    MmEngineConfig { shadow_mode: false, ..MmEngineConfig::default() }
}

fn engine(config: MmEngineConfig, balance: &str) -> MmExecutionEngine {
    MmExecutionEngine::new(config, Ok(d(balance)), "session".to_string(), 1_700_000_000)
}

fn position(coin: &str, direction: Direction, size: &str, entry: &str) -> Position {
    Position {
        coin: coin.to_string(),
        direction,
        size: d(size),
        entry_price: d(entry),
        margin_used: 0,
        leverage: 0,
        tp_price: 0,
        sl_price: 0,
        liquidation_price: 0,
        entry_time: 0,
        unrealized_pnl: 0,
    }
}

#[test]
fn default_config() {
    let c = MmEngineConfig::default();
    assert_eq!(c.global_halt_drawdown_pct, d("0.05"));
    assert_eq!(c.max_cancel_fill_ratio, d("50"));
    assert_eq!(c.ofi_halt_threshold, d("0.7"));
    assert!(c.shadow_mode);
}

#[test]
fn new_engine_anchors_the_balance() {
    let e = engine(MmEngineConfig::default(), "5000");
    assert!(e.is_shadow_mode());
    assert!(!e.is_halted());
    assert_eq!(e.stats.starting_balance, d("5000"));
    assert_eq!(e.session_id, "session");
    assert_eq!(e.risk_manager.start_of_day_balance, d("5000"));
    let none = MmExecutionEngine::new(
        live_config(),
        Err(OrderError::NetworkError("down".to_string())),
        "s".to_string(),
        0,
    );
    assert_eq!(none.stats.starting_balance, 0);
    assert!(!none.is_shadow_mode());
}

#[test]
fn cancel_all_is_a_no_op_in_shadow_mode() {
    let mut e = engine(MmEngineConfig::default(), "5000");
    assert_eq!(e.cancel_all(Some(Ok(7))), 0);
    assert_eq!(e.cancel_all(Some(Err(OrderError::RateLimited))), 0);
    assert_eq!(e.cancel_all(None), 0);
    assert_eq!(e.stats.total_cancels, 0);
    assert!(!e.is_halted());
}

#[test]
fn cancel_all_counts_or_halts() {
    let mut e = engine(live_config(), "5000");
    assert_eq!(e.cancel_all(Some(Ok(7))), 7);
    assert_eq!(e.cancel_all(Some(Ok(3))), 3);
    assert_eq!(e.stats.total_cancels, 10);
    assert!(!e.is_halted());
    assert_eq!(e.cancel_all(Some(Err(OrderError::NetworkError("x".to_string())))), 0);
    assert!(e.is_halted());
    assert_eq!(e.stats.total_cancels, 10);
    e.stats.total_cancels = u64::MAX - 1;
    assert_eq!(e.cancel_all(Some(Ok(5))), 5);
    assert_eq!(e.stats.total_cancels, u64::MAX);
}

#[test]
fn stall_then_recovery() {
    let mut e = engine(live_config(), "0");
    let now: u64 = 1_700_000_000_000;
    let mut buffer = MarketDataBuffer::new(now - 31_000);
    let mut flag = new_stall_panic_flag();
    let mut monitor = StallMonitor::new();
    assert_eq!(monitor.step(&flag, buffer.is_stalled(now)), StallAction::Nothing);
    // The watcher sees the stall and raises the flag.
    assert!(buffer.is_stalled(now));
    assert!(flag.watch(buffer.is_stalled(now)));
    // The monitor answers with the stall panic: the orders are cancelled
    // and the engine halts, though the cancel-all went through.
    assert_eq!(monitor.step(&flag, buffer.is_stalled(now)), StallAction::CancelAll);
    assert_eq!(e.stall_panic(Some(Ok(3))), 3);
    assert!(e.is_halted());
    assert_eq!(e.stats.total_cancels, 3);
    assert_eq!(monitor.step(&flag, buffer.is_stalled(now + 250)), StallAction::Nothing);
    // The next message: the feed is back, the flag still stands.
    buffer.touch(now + 400);
    assert!(!flag.watch(buffer.is_stalled(now + 500)));
    assert!(flag.raised);
    assert_eq!(monitor.step(&flag, buffer.is_stalled(now + 500)), StallAction::Reconcile);
    // Reconcile: cancel-all, positions, balance; then the flag falls.
    let live = vec![position("BTC", Direction::Short, "0.25", "100")];
    let diffs = e.reconcile_after_reconnect(Some(Ok(2)), Ok(live), Some(Ok(d("1234"))));
    monitor.reconciled(&mut flag);
    assert!(!flag.raised);
    assert!(!e.is_halted());
    assert_eq!(monitor.step(&flag, buffer.is_stalled(now + 750)), StallAction::Nothing);
    assert_eq!(e.stats.total_cancels, 5);
    assert_eq!(diffs.len(), 1);
    assert_eq!(diffs[0].delta, d("-0.25"));
    assert_eq!(e.inventory.position("BTC"), d("-0.25"));
    assert_eq!(e.stats.starting_balance, d("1234"));
}

#[test]
fn reconcile_keeps_a_set_starting_balance() {
    let mut e = engine(live_config(), "5000");
    e.reconcile_after_reconnect(Some(Ok(0)), Ok(vec![]), Some(Ok(d("1"))));
    assert_eq!(e.stats.starting_balance, d("5000"));
    assert!(!e.is_halted());
}

#[test]
fn reconcile_anchors_only_a_zero_starting_balance() {
    let mut zero = engine(live_config(), "0");
    zero.reconcile_after_reconnect(Some(Ok(0)), Ok(vec![]), Some(Ok(d("750.5"))));
    assert_eq!(zero.stats.starting_balance, d("750.5"));
    // A negative starting balance is no unset one: it stays.
    let mut negative = engine(live_config(), "0");
    negative.stats.starting_balance = d("-20");
    negative.reconcile_after_reconnect(Some(Ok(0)), Ok(vec![]), Some(Ok(d("750.5"))));
    assert_eq!(negative.stats.starting_balance, d("-20"));
    assert!(!negative.is_halted());
    // A balance that did not come anchors nothing.
    let mut failed = engine(live_config(), "0");
    failed.reconcile_after_reconnect(Some(Ok(0)), Ok(vec![]), Some(Err(OrderError::RateLimited)));
    assert_eq!(failed.stats.starting_balance, 0);
    assert!(!failed.is_halted());
}

#[test]
fn reconcile_failure_halts() {
    let mut e = engine(live_config(), "5000");
    e.inventory.apply_fill("BTC", true, d("1"));
    let diffs = e.reconcile_after_reconnect(
        Some(Ok(1)),
        Err(OrderError::RateLimited),
        None,
    );
    assert!(diffs.is_empty());
    assert!(e.is_halted());
    assert_eq!(e.inventory.position("BTC"), d("1"));
    // A failed cancel-all does not keep a good reconcile from resuming.
    let again = e.reconcile_after_reconnect(Some(Err(OrderError::RateLimited)), Ok(vec![]), None);
    assert!(again.is_empty());
    assert!(!e.is_halted());
}

#[test]
fn drawdown_stop() {
    let mut e = engine(live_config(), "1000");
    e.stats.daily_pnl_usd = d("-49.99");
    assert!(!e.drawdown_breached());
    assert!(!e.check_global_drawdown_stop(None));
    assert!(!e.is_halted());
    e.stats.daily_pnl_usd = d("-50");
    assert!(e.drawdown_breached());
    assert!(e.check_global_drawdown_stop(Some(Ok(4))));
    assert!(e.is_halted());
    assert_eq!(e.stats.total_cancels, 4);
}

#[test]
fn cancel_fill_ratio_guard() {
    let mut e = engine(live_config(), "1000");
    e.stats.total_cancels = 50;
    assert!(!e.is_cancel_fill_ratio_breached());
    e.stats.total_cancels = 51;
    assert!(e.is_cancel_fill_ratio_breached());
    e.stats.total_fills = 2;
    assert!(!e.is_cancel_fill_ratio_breached());
}

#[test]
fn margin_guard() {
    let shadow = engine(MmEngineConfig::default(), "0");
    assert!(shadow.has_sufficient_margin(d("1000000"), None));
    let live = engine(live_config(), "0");
    assert!(live.has_sufficient_margin(d("240"), Some(Ok(d("24")))));
    assert!(!live.has_sufficient_margin(d("240"), Some(Ok(d("23.99999999")))));
    assert!(!live.has_sufficient_margin(d("240"), Some(Err(OrderError::RateLimited))));
    assert!(!live.has_sufficient_margin(d("240"), None));
}

#[test]
fn taker_trades_feed_the_imbalance() {
    let mut e = engine(MmEngineConfig::default(), "0");
    assert!(!e.ofi_bids_blocked("BTC"));
    assert!(!e.ofi_asks_blocked("BTC"));
    for _ in 0..20 {
        e.record_taker_trade("BTC", false, d("100"), d("3"));
    }
    // 20 sells of 300 USD each: 6 000 USD of pure selling.
    assert!(e.ofi_bids_blocked("BTC"));
    assert!(!e.ofi_asks_blocked("BTC"));
    assert!(!e.ofi_bids_blocked("ETH"));
    for _ in 0..200 {
        e.record_taker_trade("BTC", true, d("100"), d("3"));
    }
    assert!(!e.ofi_bids_blocked("BTC"));
    assert!(e.ofi_asks_blocked("BTC"));
}

#[test]
fn whitelist_contraction_flush() {
    let e = engine(live_config(), "1000");
    let live = vec![
        position("BTC", Direction::Long, "0.1", "27000"),
        position("ETH", Direction::Long, "2", "1800"),
        position("SOL", Direction::Short, "5", "20"),
        position("DUST", Direction::Long, "0.00000001", "1"),
    ];
    let active = vec!["BTC".to_string()];
    let mut mids: CoinMap<i64> = CoinMap::new();
    mids.insert("ETH", d("1850.5"));
    let plan = e.flush_orphaned_positions(&live, &active, &mids);
    // Two orphans, and for each the cancelling before the order.
    assert_eq!(plan.len(), 4);
    match &plan[0] {
        FlushCall::CancelCoinOrders(coin) => assert_eq!(coin, "ETH"),
        other => panic!("expected a cancel, got {:?}", other),
    }
    match &plan[1] {
        FlushCall::Place(order) => {
            assert_eq!(order.coin, "ETH");
            assert_eq!(order.direction, Direction::Short);
            assert_eq!(order.size, d("2"));
            assert_eq!(order.price, d("1850.5"));
            assert_eq!(order.leverage, d("1"));
            assert!(order.post_only);
        }
        other => panic!("expected an order, got {:?}", other),
    }
    match &plan[2] {
        FlushCall::CancelCoinOrders(coin) => assert_eq!(coin, "SOL"),
        other => panic!("expected a cancel, got {:?}", other),
    }
    // Without a mid the entry price stands in.
    match &plan[3] {
        FlushCall::Place(order) => {
            assert_eq!(order.coin, "SOL");
            assert_eq!(order.direction, Direction::Long);
            assert_eq!(order.size, d("5"));
            assert_eq!(order.price, d("20"));
        }
        other => panic!("expected an order, got {:?}", other),
    }

    let shadow = engine(MmEngineConfig::default(), "1000");
    assert!(shadow.flush_orphaned_positions(&live, &active, &mids).is_empty());
}

#[test]
fn reconcile_cancels_before_it_fetches() {
    let e = engine(live_config(), "1000");
    assert_eq!(e.next_reconcile_call(false, None, false), Some(ReconcileCall::CancelAll));
    // Whatever else is known, the cancel-all comes first.
    assert_eq!(e.next_reconcile_call(false, Some(true), true), Some(ReconcileCall::CancelAll));
    assert_eq!(e.next_reconcile_call(true, None, false), Some(ReconcileCall::FetchPositions));
    assert_eq!(e.next_reconcile_call(true, Some(true), false), Some(ReconcileCall::FetchBalance));
    assert_eq!(e.next_reconcile_call(true, Some(true), true), None);
    // Without positions no balance is asked for.
    assert_eq!(e.next_reconcile_call(true, Some(false), false), None);

    let shadow = engine(MmEngineConfig::default(), "1000");
    assert_eq!(shadow.next_reconcile_call(false, None, false), Some(ReconcileCall::FetchPositions));
    assert_eq!(shadow.next_reconcile_call(false, Some(true), false), Some(ReconcileCall::FetchBalance));
    assert_eq!(shadow.next_reconcile_call(false, Some(true), true), None);
}

#[test]
fn stall_panic_halts_whatever_the_venue_answers() {
    let mut fine = engine(live_config(), "1000");
    assert_eq!(fine.stall_panic(Some(Ok(4))), 4);
    assert!(fine.is_halted());
    assert_eq!(fine.stats.total_cancels, 4);

    let mut failed = engine(live_config(), "1000");
    assert_eq!(failed.stall_panic(Some(Err(OrderError::RateLimited))), 0);
    assert!(failed.is_halted());
    assert_eq!(failed.stats.total_cancels, 0);

    let mut silent = engine(live_config(), "1000");
    assert_eq!(silent.stall_panic(None), 0);
    assert!(silent.is_halted());

    // In shadow mode nothing is cancelled, and the engine halts all the same.
    let mut shadow = engine(MmEngineConfig::default(), "1000");
    assert_eq!(shadow.stall_panic(Some(Ok(9))), 0);
    assert!(shadow.is_halted());
    assert_eq!(shadow.stats.total_cancels, 0);
    // Only a reconcile that succeeds brings it back.
    shadow.reconcile_after_reconnect(None, Err(OrderError::RateLimited), None);
    assert!(shadow.is_halted());
    shadow.reconcile_after_reconnect(None, Ok(vec![]), None);
    assert!(!shadow.is_halted());
}
