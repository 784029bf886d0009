use mm_engine::exchange::{Direction, OrderError, Position, SimExchange};
use mm_engine::wire::parse_decimal;

fn d(text: &str) -> i64 {
    parse_decimal(text).unwrap()
}

fn position(direction: Direction) -> Position {
    Position {
        coin: "BTC".to_string(),
        direction,
        size: d("2"),
        entry_price: d("100"),
        margin_used: d("20"),
        leverage: d("10"),
        tp_price: d("110"),
        sl_price: d("95"),
        liquidation_price: 0,
        entry_time: 10_000,
        unrealized_pnl: 0,
    }
}

#[test]
fn position_profit_and_stops() {
    let long = position(Direction::Long);
    assert_eq!(long.calc_pnl(d("105")), d("10"));
    assert_eq!(long.calc_pnl(d("90")), d("-20"));
    assert!(long.is_tp_hit(d("110")));
    assert!(!long.is_tp_hit(d("109.99")));
    assert!(long.is_sl_hit(d("95")));
    assert!(!long.is_sl_hit(d("95.01")));
    let short = position(Direction::Short);
    assert_eq!(short.calc_pnl(d("105")), d("-10"));
    assert_eq!(short.calc_pnl(d("90")), d("20"));
    assert!(short.is_tp_hit(d("110")));
    assert!(short.is_tp_hit(d("100")));
    assert!(!short.is_tp_hit(d("110.01")));
    assert!(short.is_sl_hit(d("95")));
    assert!(!short.is_sl_hit(d("94")));
}

#[test]
fn time_stop() {
    let p = position(Direction::Long);
    assert!(!p.is_time_stop_hit(10_000, 0));
    assert!(!p.is_time_stop_hit(9_000, 0));
    assert!(p.is_time_stop_hit(10_001, 0));
    assert!(!p.is_time_stop_hit(69_999, 60));
    assert!(p.is_time_stop_hit(70_000, 60));
}

#[test]
fn directions() {
    assert_eq!(Direction::Long.name(), "LONG");
    assert_eq!(Direction::Short.name(), "SHORT");
    assert_eq!(Direction::Long.opposite(), Direction::Short);
    assert_eq!(Direction::Short.opposite(), Direction::Long);
    assert_eq!(Direction::from_name("LONG"), Some(Direction::Long));
    assert_eq!(Direction::from_name("SHORT"), Some(Direction::Short));
    assert_eq!(Direction::from_name("long"), None);
}

#[test]
fn error_texts() {
    assert_eq!(OrderError::InsufficientFunds("x".to_string()).message(), "Insufficient Funds: x");
    assert_eq!(OrderError::MaxPositionsReached.message(), "Max Positions Reached");
    assert_eq!(OrderError::InvalidOrder("bad".to_string()).message(), "Invalid Order: bad");
    assert_eq!(OrderError::NetworkError("down".to_string()).message(), "Network Error: down");
    assert_eq!(OrderError::RateLimited.message(), "Rate Limited (429)");
    assert!(OrderError::RateLimited.is_transient());
    assert!(OrderError::NetworkError(String::new()).is_transient());
    assert!(!OrderError::InvalidOrder(String::new()).is_transient());
    assert!(!OrderError::InsufficientFunds(String::new()).is_transient());
    assert!(!OrderError::MaxPositionsReached.is_transient());
}

#[test]
fn sim_open_takes_margin_and_fee() {
    // Maker fee of -0.01 % is a rebate, taker fee 0.035 %.
    let mut sim = SimExchange::new(d("5000"), d("-0.0001"), d("0.00035"));
    let action = sim
        .open_order("BTC", Direction::Long, d("2"), d("100"), d("10"), d("110"), d("95"), true, 77)
        .unwrap();
    assert_eq!(action.action, "OPEN");
    assert_eq!(action.coin, "BTC");
    assert_eq!(action.direction, Direction::Long);
    assert_eq!(action.price, d("100"));
    assert_eq!(action.size, d("2"));
    assert_eq!(action.fee, Some(d("-0.02")));
    assert_eq!(action.pnl, None);
    assert_eq!(action.ts, 77);
    // notional 200, margin 20, fee -0.02
    assert_eq!(sim.balance, d("4980.02"));
    assert_eq!(sim.total_fees, d("-0.02"));
    let held = sim.get_positions();
    assert_eq!(held.len(), 1);
    assert_eq!(held[0].margin_used, d("20"));
    assert_eq!(held[0].entry_time, 77);
    assert_eq!(sim.get_balance().unwrap(), d("4980.02"));

    let taker = sim
        .open_order("ETH", Direction::Short, d("1"), d("2000"), d("20"), 0, 0, false, 78)
        .unwrap();
    assert_eq!(taker.fee, Some(d("0.7")));
    assert_eq!(sim.balance, d("4879.32"));
}

#[test]
fn sim_refuses_a_second_position_and_a_short_balance() {
    let mut sim = SimExchange::new(d("100"), d("0.0002"), d("0.0005"));
    sim.open_order("BTC", Direction::Long, d("1"), d("100"), d("10"), 0, 0, true, 1).unwrap();
    match sim.open_order("BTC", Direction::Long, d("1"), d("100"), d("10"), 0, 0, true, 2) {
        Err(OrderError::InvalidOrder(text)) => assert_eq!(text, "Already have position in BTC"),
        other => panic!("{:?}", other),
    }
    let before = sim.balance;
    match sim.open_order("ETH", Direction::Long, d("10"), d("100"), d("1"), 0, 0, true, 3) {
        Err(OrderError::InsufficientFunds(text)) => {
            assert_eq!(text, "Balance 89.98 < Margin 1000.00 + Fee 0.20")
        }
        other => panic!("{:?}", other),
    }
    assert_eq!(sim.balance, before);
    assert_eq!(sim.get_positions().len(), 1);
}

#[test]
fn sim_close_returns_margin_and_profit() {
    let mut sim = SimExchange::new(d("1000"), 0, d("0.001"));
    sim.open_order("BTC", Direction::Long, d("2"), d("100"), d("10"), 0, 0, true, 1).unwrap();
    assert_eq!(sim.balance, d("980"));
    let action = sim.close_position("BTC", d("110"), "TP", 99).unwrap();
    assert_eq!(action.action, "CLOSE");
    assert_eq!(action.pnl, Some(d("20")));
    assert_eq!(action.fee, Some(d("0.22")));
    assert_eq!(action.reason, "TP");
    assert_eq!(action.exit_type, Some("TP".to_string()));
    assert_eq!(action.ts, 99);
    // 980 + 20 margin + 20 profit - 0.22 fee
    assert_eq!(sim.balance, d("1019.78"));
    assert_eq!(sim.trade_count, 1);
    assert_eq!(sim.total_fees, d("0.22"));
    assert!(sim.get_positions().is_empty());
    match sim.close_position("BTC", d("110"), "TP", 100) {
        Err(OrderError::InvalidOrder(text)) => assert_eq!(text, "No position in BTC"),
        other => panic!("{:?}", other),
    }
}

#[test]
fn sim_balance_never_falls_below_zero() {
    let mut sim = SimExchange::new(d("10"), 0, 0);
    sim.open_order("BTC", Direction::Long, d("1"), d("100"), d("10"), 0, 0, true, 1).unwrap();
    sim.close_position("BTC", d("50"), "SL", 2).unwrap();
    assert_eq!(sim.balance, 0);
}

#[test]
fn sim_withdraw_and_cancels() {
    let mut sim = SimExchange::new(d("100"), 0, 0);
    assert_eq!(sim.withdraw(d("40")).unwrap(), d("40"));
    assert_eq!(sim.balance, d("60"));
    match sim.withdraw(d("60.01")) {
        Err(OrderError::InsufficientFunds(text)) => {
            assert_eq!(text, "Cannot withdraw 60.01, balance 60.00")
        }
        other => panic!("{:?}", other),
    }
    assert_eq!(sim.balance, d("60"));
    // Amounts are written with two decimals, rounded.
    match sim.withdraw(d("1234.5678")) {
        Err(OrderError::InsufficientFunds(text)) => {
            assert_eq!(text, "Cannot withdraw 1234.57, balance 60.00")
        }
        other => panic!("{:?}", other),
    }
    assert_eq!(sim.cancel_all_orders().unwrap(), 0);
    assert_eq!(sim.cancel_coin_orders("BTC").unwrap(), 0);
}

#[test]
fn sim_restore() {
    let mut sim = SimExchange::new(d("1"), 0, 0);
    let mut second = position(Direction::Short);
    second.size = d("9");
    sim.restore(d("500"), vec![position(Direction::Long), second]);
    assert_eq!(sim.balance, d("500"));
    let held = sim.get_positions();
    assert_eq!(held.len(), 1);
    assert_eq!(held[0].size, d("9"));
    assert_eq!(held[0].direction, Direction::Short);
}
