use mm_engine::coin_map::CoinMap;
use mm_engine::market_maker::{Regime, ShadowFill, Side};
use mm_engine::publisher::{
    asset_config_channel, engine_status_channel, engine_status_json, prefixed_channel,
    shadow_fill_json, shadow_fills_channel,
};
use mm_engine::text::{contains_name, str_contains, str_eq};
use mm_engine::wire::parse_decimal;
use serde_json::Value;

fn d(text: &str) -> i64 {
    parse_decimal(text).unwrap()
}

#[test]
fn map_keeps_one_value_per_name() {
    let mut m: CoinMap<i64> = CoinMap::new();
    assert_eq!(m.len(), 0);
    assert!(!m.contains_key("BTC"));
    assert_eq!(m.get("BTC"), None);
    m.insert("BTC", 1);
    m.insert("ETH", 2);
    m.insert("BTC", 3);
    assert_eq!(m.len(), 2);
    assert_eq!(m.get("BTC"), Some(&3));
    assert_eq!(m.get("ETH"), Some(&2));
    assert_eq!(m.find("ETH"), Some(1));
    assert_eq!(m.key_at(0), "BTC");
    assert_eq!(*m.value_at(1), 2);
    assert_eq!(m.remove("BTC"), Some(3));
    assert_eq!(m.remove("BTC"), None);
    assert_eq!(m.len(), 1);
    assert_eq!(m.key_at(0), "ETH");
    assert!(m.contains_key("ETH"));
    m.insert("", 9);
    assert_eq!(m.get(""), Some(&9));
}

#[test]
fn texts() {
    assert!(str_eq("", ""));
    assert!(str_eq("héllo", "héllo"));
    assert!(!str_eq("hello", "hellp"));
    assert!(!str_eq("hello", "hell"));
    assert!(str_contains("you are rate limited", "rate limited"));
    assert!(str_contains("rate limited", "rate limited"));
    assert!(str_contains("abc", ""));
    assert!(str_contains("", ""));
    assert!(!str_contains("", "a"));
    assert!(!str_contains("rate limite", "rate limited"));
    assert!(!str_contains("ab", "abc"));
    let names = vec!["BTC".to_string(), "ETH".to_string()];
    assert!(contains_name(&names, "ETH"));
    assert!(!contains_name(&names, "eth"));
    assert!(!contains_name(&Vec::new(), ""));
}

#[test]
fn regime_names() {
    assert_eq!(Regime::Calm.name(), "calm");
    assert_eq!(Regime::Uncertain.name(), "uncertain");
    assert_eq!(Regime::Halt.name(), "halt");
    assert_eq!(Regime::from_name("halt"), Regime::Halt);
    assert_eq!(Regime::from_name("uncertain"), Regime::Uncertain);
    assert_eq!(Regime::from_name("calm"), Regime::Calm);
    assert_eq!(Regime::from_name("HALT"), Regime::Calm);
    assert_eq!(Regime::from_name(""), Regime::Calm);
}

#[test]
fn channels() {
    assert_eq!(asset_config_channel(), "mm:asset_config");
    assert_eq!(shadow_fills_channel(), "mm:shadow_fills");
    assert_eq!(engine_status_channel(), "mm:engine_status");
    assert_eq!(prefixed_channel("bot:", "status"), "bot:status");
}

#[test]
fn status_message() {
    let bytes = engine_status_json("abc-1", d("-12.5"), true, "shadow", 1_700_000_000_123);
    assert_eq!(
        String::from_utf8(bytes.clone()).unwrap(),
        "{\"session_id\":\"abc-1\",\"shadow_pnl_usd\":-12.5,\"is_halted\":true,\"regime\":\"shadow\",\"ts_ms\":1700000000123}"
    );
    let parsed: Value = serde_json::from_slice(&bytes).unwrap();
    assert_eq!(parsed["is_halted"], Value::from(true));
    assert_eq!(parsed["ts_ms"], Value::from(1_700_000_000_123u64));
    let zero = engine_status_json("", 0, false, "calm", 0);
    assert_eq!(
        String::from_utf8(zero).unwrap(),
        "{\"session_id\":\"\",\"shadow_pnl_usd\":0,\"is_halted\":false,\"regime\":\"calm\",\"ts_ms\":0}"
    );
}

#[test]
fn shadow_fill_message() {
    let fill = ShadowFill {
        coin: "BTC".to_string(),
        side: Side::Bid,
        layer: 2,
        price: d("27000.5"),
        size_usd: d("24"),
        fill_ts_ms: 99,
        maker_rebate_usd: d("0.0024"),
    };
    assert_eq!(
        String::from_utf8(shadow_fill_json(&fill)).unwrap(),
        "{\"coin\":\"BTC\",\"side\":\"bid\",\"layer\":2,\"price\":27000.5,\"size_usd\":24,\"fill_ts_ms\":99,\"maker_rebate_usd\":0.0024}"
    );
}
