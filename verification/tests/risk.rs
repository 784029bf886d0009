use mm_engine::persistence::{load_state, EngineState};
use mm_engine::risk::{halt_notice, RiskConfig, RiskManager, RiskState};
use mm_engine::wire::parse_decimal;

fn d(text: &str) -> i64 {
    parse_decimal(text).unwrap()
}

// 2024-01-31 12:00:00 UTC
const NOON: i64 = 1_706_702_400;
const MIDNIGHT_AFTER: i64 = 1_706_745_600;

#[test]
fn default_limits() {
    let c = RiskConfig::default();
    assert_eq!(c.max_daily_drawdown_percent, d("0.1"));
    assert_eq!(c.max_consecutive_losses, 5);
    assert_eq!(c.trading_halt_duration_secs, 3_600);
}

#[test]
fn kill_switch_blocks_trading() {
    let mut m = RiskManager::new(RiskConfig::default(), d("1000"), NOON);
    assert!(m.can_trade(NOON).is_ok());
    m.set_kill_switch(true);
    assert_eq!(m.can_trade(NOON), Err("Kill switch is ACTIVE".to_string()));
    m.set_kill_switch(false);
    assert!(m.can_trade(NOON).is_ok());
}

#[test]
fn five_losses_in_a_row_pause_for_an_hour() {
    let mut m = RiskManager::new(RiskConfig::default(), d("1000"), NOON);
    for i in 0..4 {
        m.update_trade_result(d("-1"), d("999"), NOON + i);
        assert!(m.can_trade(NOON + i).is_ok());
    }
    assert_eq!(m.consecutive_loss_count, 4);
    m.update_trade_result(d("-1"), d("995"), NOON + 10);
    assert_eq!(m.consecutive_loss_count, 0);
    assert_eq!(m.halt_until, Some(NOON + 10 + 3_600));
    assert_eq!(
        m.can_trade(NOON + 3_609),
        Err("Trading halted until 2024-01-31 13:00:10 UTC".to_string())
    );
    assert!(m.can_trade(NOON + 3_610).is_ok());
    m.clear_halt();
    assert!(m.can_trade(NOON + 11).is_ok());
}

#[test]
fn a_win_ends_the_streak() {
    let mut m = RiskManager::new(RiskConfig::default(), d("1000"), NOON);
    for _ in 0..4 {
        m.update_trade_result(d("-1"), d("999"), NOON);
    }
    m.update_trade_result(0, d("999"), NOON);
    assert_eq!(m.consecutive_loss_count, 0);
    m.update_trade_result(d("-1"), d("999"), NOON);
    assert_eq!(m.consecutive_loss_count, 1);
    assert_eq!(m.halt_until, None);
}

#[test]
fn drawdown_halts_until_midnight() {
    let mut m = RiskManager::new(RiskConfig::default(), d("1000"), NOON);
    m.update_trade_result(d("-100"), d("900"), NOON + 5);
    // Exactly ten percent is not yet beyond the limit.
    assert_eq!(m.halt_until, None);
    m.update_trade_result(d("5"), d("899.99"), NOON + 6);
    assert_eq!(m.halt_until, Some(MIDNIGHT_AFTER));
    assert!(m.can_trade(MIDNIGHT_AFTER - 1).is_err());
    assert!(m.can_trade(MIDNIGHT_AFTER).is_ok());
}

#[test]
fn a_new_day_takes_a_new_start() {
    let mut m = RiskManager::new(RiskConfig::default(), d("1000"), NOON);
    m.update_trade_result(d("-300"), d("700"), MIDNIGHT_AFTER + 1);
    assert_eq!(m.start_of_day_balance, d("700"));
    assert_eq!(m.last_day_reset, MIDNIGHT_AFTER + 1);
    assert_eq!(m.halt_until, None);
    m.update_trade_result(d("-1"), d("699"), MIDNIGHT_AFTER + 2);
    assert_eq!(m.start_of_day_balance, d("700"));
    assert_eq!(m.last_day_reset, MIDNIGHT_AFTER + 1);
}

#[test]
fn state_is_saved_and_restored() {
    let mut m = RiskManager::new(RiskConfig::default(), d("1000"), NOON);
    m.update_trade_result(d("-1"), d("999"), NOON);
    let state = m.get_state();
    assert_eq!(state.start_of_day_balance, d("1000"));
    assert_eq!(state.last_day_reset, NOON);
    assert_eq!(state.consecutive_loss_count, 1);
    assert_eq!(state.halt_until, None);
    assert!(!state.is_kill_switch_active);
    let mut other = RiskManager::new(RiskConfig::default(), 0, 0);
    other.restore_state(RiskState { halt_until: Some(NOON + 9), is_kill_switch_active: true, ..state });
    assert_eq!(other.start_of_day_balance, d("1000"));
    assert_eq!(other.consecutive_loss_count, 1);
    assert_eq!(other.halt_until, Some(NOON + 9));
    assert!(other.is_kill_switch_active);
}

#[test]
fn engine_state_defaults() {
    let fresh = EngineState::new(d("5000"));
    assert_eq!(fresh.balance, d("5000"));
    assert!(fresh.positions.is_empty());
    assert!(fresh.risk_state.is_none());
    assert!(fresh.vault_balance.is_none());
    let loaded = load_state(None, d("42"));
    assert_eq!(loaded.balance, d("42"));
    let mut stored = EngineState::new(d("7"));
    stored.vault_balance = Some(d("1"));
    let kept = load_state(Some(stored), d("42"));
    assert_eq!(kept.balance, d("7"));
    assert_eq!(kept.vault_balance, Some(d("1")));
}

#[test]
fn halt_notices_name_the_end_as_a_utc_time() {
    let mut m = RiskManager::new(RiskConfig::default(), d("1000"), NOON);
    for end in [0i64, 1, NOON, MIDNIGHT_AFTER, 1_431_648_000, 253_402_300_799] {
        m.halt_until = Some(end);
        let written = chrono::DateTime::<chrono::Utc>::from_timestamp(end, 0).unwrap().to_string();
        assert_eq!(m.can_trade(-1), Err(format!("Trading halted until {}", written)));
    }
    m.halt_until = Some(MIDNIGHT_AFTER);
    assert_eq!(
        m.can_trade(NOON),
        Err("Trading halted until 2024-02-01 00:00:00 UTC".to_string())
    );
    m.halt_until = Some(1_431_648_000);
    assert!(m.can_trade(NOON).is_ok());
    assert_eq!(
        m.can_trade(1_431_647_999),
        Err("Trading halted until 2015-05-15 00:00:00 UTC".to_string())
    );
    // A time that cannot be written as a date is named in seconds.
    m.halt_until = Some(i64::MAX);
    assert_eq!(
        m.can_trade(NOON),
        Err("Trading halted until 9223372036854775807".to_string())
    );
    assert_eq!(halt_notice(7, Some("noon")), "Trading halted until noon");
    assert_eq!(halt_notice(-7, None), "Trading halted until -7");
}
