use mm_engine::monitor::{FeedbackAction, MonitorConfig, PerformanceMonitor};
use mm_engine::wire::parse_decimal;

fn d(text: &str) -> i64 {
    parse_decimal(text).unwrap()
}

#[test]
fn test_monitor_initial_state() {
    let config = MonitorConfig::default();
    let monitor = PerformanceMonitor::new(config);
    let metrics = monitor.get_metrics();

    assert_eq!(metrics.trade_count, 0);
    assert_eq!(metrics.win_rate, d("0.0"));
    assert_eq!(metrics.suggested_action, FeedbackAction::NoAction);
}

#[test]
fn test_monitor_normal_operation() {
    let config = MonitorConfig {
        window_size: 10,
        min_trades_for_action: 5,
        pf_threshold_warning: d("1.5"),
        pf_threshold_critical: d("1.0"),
    };
    let mut monitor = PerformanceMonitor::new(config);

    for _ in 0..5 {
        monitor.record_trade(d("10.0"));
    }

    let metrics = monitor.get_metrics();
    assert_eq!(metrics.trade_count, 5);
    assert_eq!(metrics.win_rate, d("100.0"));
    assert_eq!(metrics.profit_factor, d("100.0"));
    assert_eq!(metrics.suggested_action, FeedbackAction::NoAction);
}

#[test]
fn test_reduce_size_action() {
    let config = MonitorConfig {
        window_size: 10,
        min_trades_for_action: 5,
        pf_threshold_warning: d("1.5"),
        pf_threshold_critical: d("0.5"),
    };
    let mut monitor = PerformanceMonitor::new(config);

    for _ in 0..3 {
        monitor.record_trade(d("10.0"));
    }
    for _ in 0..3 {
        monitor.record_trade(d("-8.33"));
    }

    let metrics = monitor.get_metrics();
    match metrics.suggested_action {
        FeedbackAction::ReduceSize(x) => assert_eq!(x, d("0.5")),
        _ => panic!("Expected ReduceSize, got {:?}", metrics.suggested_action),
    }
}

#[test]
fn test_halt_trading_action() {
    let config = MonitorConfig {
        window_size: 10,
        min_trades_for_action: 5,
        pf_threshold_warning: d("1.5"),
        pf_threshold_critical: d("0.8"),
    };
    let mut monitor = PerformanceMonitor::new(config);

    monitor.record_trade(d("10.0"));
    for _ in 0..5 {
        monitor.record_trade(d("-10.0"));
    }

    let metrics = monitor.get_metrics();
    assert_eq!(metrics.suggested_action, FeedbackAction::HaltTrading);
}

#[test]
fn test_window_rolling() {
    let config = MonitorConfig {
        window_size: 3,
        min_trades_for_action: 1,
        pf_threshold_warning: d("0.0"),
        pf_threshold_critical: d("0.0"),
    };
    let mut monitor = PerformanceMonitor::new(config);

    monitor.record_trade(d("1.0"));
    monitor.record_trade(d("2.0"));
    monitor.record_trade(d("3.0"));

    assert_eq!(monitor.history.len(), 3);
    assert_eq!(monitor.history.front().unwrap().pnl, d("1.0"));

    monitor.record_trade(d("4.0"));
    assert_eq!(monitor.history.len(), 3);
    assert_eq!(monitor.history.front().unwrap().pnl, d("2.0"));
    assert_eq!(monitor.history.back().unwrap().pnl, d("4.0"));
}

#[test]
fn profit_factor_and_win_rate_are_exact() {
    let mut monitor = PerformanceMonitor::new(MonitorConfig::default());
    monitor.record_trade(d("30"));
    monitor.record_trade(d("-25"));
    monitor.record_trade(d("0"));
    let metrics = monitor.get_metrics();
    assert_eq!(metrics.profit_factor, d("1.2"));
    assert_eq!(metrics.win_rate, 3_333_333_333);
    assert_eq!(monitor.win_rate(), 3_333_333_333);
    // Three trades are fewer than the twenty that an action needs.
    assert_eq!(metrics.suggested_action, FeedbackAction::NoAction);
}

#[test]
fn losses_without_profit_give_factor_zero() {
    let config = MonitorConfig {
        window_size: 10,
        min_trades_for_action: 1,
        pf_threshold_warning: d("1.0"),
        pf_threshold_critical: d("0.8"),
    };
    let mut monitor = PerformanceMonitor::new(config);
    monitor.record_trade(d("-1"));
    let metrics = monitor.get_metrics();
    assert_eq!(metrics.profit_factor, 0);
    assert_eq!(metrics.suggested_action, FeedbackAction::HaltTrading);
    assert_eq!(monitor.evaluate_action(d("0.9"), 1), FeedbackAction::ReduceSize(d("0.5")));
    assert_eq!(monitor.evaluate_action(d("0.9"), 0), FeedbackAction::NoAction);
}
