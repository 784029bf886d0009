//! What the engine tells the selector: the channels and the messages.

use vstd::prelude::*;
use vstd::string::*;
use vstd::utf8::encode_utf8;
use crate::exchange::join;
use crate::json::{number_at, number_of, text_at, text_of, Json};
use crate::market_maker::{MmAssetConfig, Regime, ShadowFill, Side};
use crate::signing::{
    json_bool, json_string, lit, push_bytes, push_json_bool, push_json_string, push_lit,
};
use crate::wire::{dec_digits, push_decimal, wire_bytes, wire_spec};

verus! {

/// Seconds before the selector's channel is subscribed to again.
pub const RESUBSCRIBE_DELAY_SECS: u64 = 5;

/// The channel on which the selector publishes asset configurations.
pub fn asset_config_channel() -> (c: &'static str)
    ensures
        c@ == "mm:asset_config"@,
{
    "mm:asset_config"
}

/// The channel on which simulated fills are published.
pub fn shadow_fills_channel() -> (c: &'static str)
    ensures
        c@ == "mm:shadow_fills"@,
{
    "mm:shadow_fills"
}

/// The channel on which the engine's status is published.
pub fn engine_status_channel() -> (c: &'static str)
    ensures
        c@ == "mm:engine_status"@,
{
    "mm:engine_status"
}

/// A channel under a prefix.
pub fn prefixed_channel(prefix: &str, channel: &str) -> (c: String)
    ensures
        c@ == prefix@ + channel@,
{
    join(prefix, channel)
}

impl Regime {
    /// `calm`, `uncertain` or `halt`.
    pub open spec fn name_spec(self) -> Seq<char> {
        match self {
            Regime::Calm => "calm"@,
            Regime::Uncertain => "uncertain"@,
            Regime::Halt => "halt"@,
        }
    }

    /// `calm`, `uncertain` or `halt`.
    pub fn name(self) -> (r: &'static str)
        ensures
            r@ == self.name_spec(),
    {
        match self {
            Regime::Calm => "calm",
            Regime::Uncertain => "uncertain",
            Regime::Halt => "halt",
        }
    }

    /// The regime of a name: `halt` halts, `uncertain` is uncertain, and
    /// every other name quotes as calm.
    pub fn from_name(name: &str) -> (r: Self)
        ensures
            r == (if name@ == "halt"@ {
                Regime::Halt
            } else if name@ == "uncertain"@ {
                Regime::Uncertain
            } else {
                Regime::Calm
            }),
    {
        if crate::text::str_eq(name, "halt") {
            Regime::Halt
        } else if crate::text::str_eq(name, "uncertain") {
            Regime::Uncertain
        } else {
            Regime::Calm
        }
    }
}

/// The status message: session, shadow PnL, whether the engine is halted,
/// the regime and the time.
pub open spec fn engine_status_spec(
    session_id: Seq<char>,
    shadow_pnl_usd: int,
    is_halted: bool,
    regime: Seq<char>,
    ts_ms: u64,
) -> Seq<u8> {
    lit("{\"session_id\":") + json_string(encode_utf8(session_id)) + lit(",\"shadow_pnl_usd\":")
        + wire_spec(shadow_pnl_usd) + lit(",\"is_halted\":") + json_bool(is_halted) + lit(
        ",\"regime\":",
    ) + json_string(encode_utf8(regime)) + lit(",\"ts_ms\":") + dec_digits(ts_ms as nat) + lit("}")
}

/// Writes the status message, as UTF-8 bytes of JSON.
pub fn engine_status_json(
    session_id: &str,
    shadow_pnl_usd: i64,
    is_halted: bool,
    regime: &str,
    ts_ms: u64,
) -> (out: Vec<u8>)
    ensures
        out@ == engine_status_spec(session_id@, shadow_pnl_usd as int, is_halted, regime@, ts_ms),
{
    let mut out: Vec<u8> = Vec::new();
    push_lit(&mut out, "{\"session_id\":");
    let ghost acc = lit("{\"session_id\":");
    assert(out@ =~= acc);
    push_json_string(&mut out, session_id);
    let ghost acc = acc + json_string(encode_utf8(session_id@));
    push_lit(&mut out, ",\"shadow_pnl_usd\":");
    let ghost acc = acc + lit(",\"shadow_pnl_usd\":");
    let pnl = wire_bytes(shadow_pnl_usd);
    push_bytes(&mut out, pnl.as_slice());
    let ghost acc = acc + wire_spec(shadow_pnl_usd as int);
    push_lit(&mut out, ",\"is_halted\":");
    let ghost acc = acc + lit(",\"is_halted\":");
    push_json_bool(&mut out, is_halted);
    let ghost acc = acc + json_bool(is_halted);
    push_lit(&mut out, ",\"regime\":");
    let ghost acc = acc + lit(",\"regime\":");
    push_json_string(&mut out, regime);
    let ghost acc = acc + json_string(encode_utf8(regime@));
    push_lit(&mut out, ",\"ts_ms\":");
    let ghost acc = acc + lit(",\"ts_ms\":");
    push_decimal(&mut out, ts_ms);
    let ghost acc = acc + dec_digits(ts_ms as nat);
    push_lit(&mut out, "}");
    let ghost acc = acc + lit("}");
    assert(out@ == acc);
    out
}

/// `bid` or `ask`.
pub open spec fn side_name(side: Side) -> Seq<char> {
    if side == Side::Bid {
        "bid"@
    } else {
        "ask"@
    }
}

/// The message of a simulated fill.
pub open spec fn shadow_fill_spec(fill: ShadowFill) -> Seq<u8> {
    lit("{\"coin\":") + json_string(encode_utf8(fill.coin@)) + lit(",\"side\":") + json_string(
        encode_utf8(side_name(fill.side)),
    ) + lit(",\"layer\":") + dec_digits(fill.layer as nat) + lit(",\"price\":") + wire_spec(
        fill.price as int,
    ) + lit(",\"size_usd\":") + wire_spec(fill.size_usd as int) + lit(",\"fill_ts_ms\":")
        + dec_digits(fill.fill_ts_ms as nat) + lit(",\"maker_rebate_usd\":") + wire_spec(
        fill.maker_rebate_usd as int,
    ) + lit("}")
}

/// Writes the message of a simulated fill, as UTF-8 bytes of JSON.
pub fn shadow_fill_json(fill: &ShadowFill) -> (out: Vec<u8>)
    ensures
        out@ == shadow_fill_spec(*fill),
{
    let mut out: Vec<u8> = Vec::new();
    push_lit(&mut out, "{\"coin\":");
    let ghost acc = lit("{\"coin\":");
    assert(out@ =~= acc);
    push_json_string(&mut out, fill.coin.as_str());
    let ghost acc = acc + json_string(encode_utf8(fill.coin@));
    push_lit(&mut out, ",\"side\":");
    let ghost acc = acc + lit(",\"side\":");
    push_json_string(&mut out, fill.side.name());
    let ghost acc = acc + json_string(encode_utf8(side_name(fill.side)));
    push_lit(&mut out, ",\"layer\":");
    let ghost acc = acc + lit(",\"layer\":");
    push_decimal(&mut out, fill.layer as u64);
    let ghost acc = acc + dec_digits(fill.layer as nat);
    push_lit(&mut out, ",\"price\":");
    let ghost acc = acc + lit(",\"price\":");
    let price = wire_bytes(fill.price);
    push_bytes(&mut out, price.as_slice());
    let ghost acc = acc + wire_spec(fill.price as int);
    push_lit(&mut out, ",\"size_usd\":");
    let ghost acc = acc + lit(",\"size_usd\":");
    let size = wire_bytes(fill.size_usd);
    push_bytes(&mut out, size.as_slice());
    let ghost acc = acc + wire_spec(fill.size_usd as int);
    push_lit(&mut out, ",\"fill_ts_ms\":");
    let ghost acc = acc + lit(",\"fill_ts_ms\":");
    push_decimal(&mut out, fill.fill_ts_ms);
    let ghost acc = acc + dec_digits(fill.fill_ts_ms as nat);
    push_lit(&mut out, ",\"maker_rebate_usd\":");
    let ghost acc = acc + lit(",\"maker_rebate_usd\":");
    let rebate = wire_bytes(fill.maker_rebate_usd);
    push_bytes(&mut out, rebate.as_slice());
    let ghost acc = acc + wire_spec(fill.maker_rebate_usd as int);
    push_lit(&mut out, "}");
    let ghost acc = acc + lit("}");
    assert(out@ == acc);
    out
}

/// An asset configuration as plain values.
pub struct AssetConfigView {
    pub asset: Seq<char>,
    pub tick_size: int,
    pub min_order_usd: int,
    pub max_inv_usd: int,
    pub base_spread_bps: int,
    pub atr_fraction: int,
    pub regime: Regime,
}

/// The regime that a name stands for.
pub open spec fn regime_for(name: Seq<char>) -> Regime {
    if name == "halt"@ {
        Regime::Halt
    } else if name == "uncertain"@ {
        Regime::Uncertain
    } else {
        Regime::Calm
    }
}

/// The asset configurations of a list as plain values.
pub open spec fn asset_config_views(s: Seq<MmAssetConfig>) -> Seq<AssetConfigView> {
    Seq::new(s.len(), |i: int| config_view(s[i]))
}

/// An asset configuration as plain values.
pub open spec fn config_view(c: MmAssetConfig) -> AssetConfigView {
    AssetConfigView {
        asset: c.asset@,
        tick_size: c.tick_size as int,
        min_order_usd: c.min_order_usd as int,
        max_inv_usd: c.max_inv_usd as int,
        base_spread_bps: c.base_spread_bps as int,
        atr_fraction: c.atr_fraction as int,
        regime: c.regime,
    }
}

/// The asset configuration that a JSON object stands for: none unless the
/// asset and the regime are texts and the five amounts are numbers.
pub open spec fn asset_config_of(v: Json) -> Option<AssetConfigView> {
    match (text_of(v.member("asset"@)), text_of(v.member("regime"@))) {
        (Some(asset), Some(regime)) => match (
            number_of(v.member("tick_size"@)),
            number_of(v.member("min_order_usd"@)),
            number_of(v.member("max_inv_usd"@)),
            number_of(v.member("base_spread_bps"@)),
            number_of(v.member("atr_fraction"@)),
        ) {
            (Some(tick), Some(min_order), Some(max_inv), Some(bps), Some(atr)) => Some(
                AssetConfigView {
                    asset,
                    tick_size: tick,
                    min_order_usd: min_order,
                    max_inv_usd: max_inv,
                    base_spread_bps: bps,
                    atr_fraction: atr,
                    regime: regime_for(regime),
                },
            ),
            _ => None,
        },
        _ => None,
    }
}

/// Whether every item of a list is an asset configuration.
pub open spec fn all_configs(items: Seq<Json>) -> bool {
    forall|i: int| 0 <= i < items.len() ==> asset_config_of(#[trigger] items[i]) is Some
}

/// Reads one asset configuration.
pub fn read_asset_config(v: &Json) -> (r: Option<MmAssetConfig>)
    ensures
        match asset_config_of(*v) {
            Some(c) => r matches Some(config) && config_view(config) == c,
            None => r is None,
        },
{
    let asset = text_at(v, "asset");
    let regime = text_at(v, "regime");
    let tick = number_at(v, "tick_size");
    let min_order = number_at(v, "min_order_usd");
    let max_inv = number_at(v, "max_inv_usd");
    let bps = number_at(v, "base_spread_bps");
    let atr = number_at(v, "atr_fraction");
    match (asset, regime) {
        (Some(asset), Some(regime)) => match (tick, min_order, max_inv, bps, atr) {
            (Some(tick), Some(min_order), Some(max_inv), Some(bps), Some(atr)) => Some(
                MmAssetConfig {
                    asset: String::from_str(asset),
                    tick_size: tick,
                    min_order_usd: min_order,
                    max_inv_usd: max_inv,
                    base_spread_bps: bps,
                    atr_fraction: atr,
                    regime: Regime::from_name(regime),
                },
            ),
            _ => None,
        },
        _ => None,
    }
}

/// Reads the selector's message: a list of asset configurations. None
/// unless the message is a list and every item of it a configuration.
pub fn read_asset_configs(message: &Json) -> (r: Option<Vec<MmAssetConfig>>)
    ensures
        match message.items() {
            Some(items) => if all_configs(items) {
                r matches Some(configs) && configs@.len() == items.len() && forall|i: int|
                    0 <= i < items.len() ==> Some(config_view(#[trigger] configs@[i]))
                        == asset_config_of(items[i])
            } else {
                r is None
            },
            None => r is None,
        },
{
    let items = match message.as_array() {
        Some(items) => items,
        None => {
            return None;
        },
    };
    let mut out: Vec<MmAssetConfig> = Vec::new();
    let mut i: usize = 0;
    while i < items.len()
        invariant
            i <= items@.len(),
            out@.len() == i,
            message.items() == Some(items@),
            forall|k: int|
                0 <= k < i ==> Some(config_view(#[trigger] out@[k])) == asset_config_of(items@[k]),
        decreases items@.len() - i,
    {
        match read_asset_config(&items[i]) {
            Some(config) => {
                out.push(config);
            },
            None => {
                proof {
                    assert(asset_config_of(items@[i as int]) is None);
                    assert(!all_configs(items@));
                }
                return None;
            },
        }
        i += 1;
    }
    proof {
        assert(all_configs(items@)) by {
            assert forall|k: int| 0 <= k < items@.len() implies asset_config_of(
                #[trigger] items@[k],
            ) is Some by {
                assert(Some(config_view(out@[k])) == asset_config_of(items@[k]));
            }
        }
    }
    Some(out)
}

} // verus!
