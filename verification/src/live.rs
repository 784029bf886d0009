//! The live venue client's decisions: what is cached and for how long, how
//! an order is put on the wire, which replies are errors, and which resting
//! orders are cancelled.

use std::collections::HashMap;
use vstd::prelude::*;
use vstd::string::*;
use vstd::utf8::encode_utf8;
use crate::coin_map::CoinMap;
use crate::decimal::{mul_sat, mul_sat_spec, MAX_RAW};
use crate::exchange::{join, AssetInfo, Direction, OrderError, Position, TradeAction};
use crate::json::{
    amount_at, amount_of_json, member_of, text_at, text_of, uint_at, uint_of, Json, JsonMember,
};
use crate::signing::{
    action_hash_spec, action_json_spec, cancel_json_spec, is_wire_signature, lemma_short_text,
    pack_action_spec, pack_cancel_spec, sign_cancel_action, sign_l1_action, signed_as, ActionView,
    ActionWire, LimitOrderWire, OrderRequest, OrderTypeWire, OrderView, Signature,
};
use crate::text::{contains_text, str_contains, str_eq};
use crate::wire::{
    float_to_wire, lemma_wire_len, parse_decimal, parse_decimal_spec, round_decimals_spec,
    round_f64, round_to_5_sig_figs, round_to_5_sig_figs_spec, wire_spec,
};

verus! {

/// Milliseconds for which a read endpoint's answer is reused.
pub const CACHE_DURATION_MS: u64 = 2_000;

/// Age in milliseconds from which a resting order is dead: fifteen minutes.
pub const DEAD_ORDER_AGE_MS: u64 = 900_000;

/// Size decimals of an asset whose metadata gives none.
pub const DEFAULT_SZ_DECIMALS: u32 = 4;

/// Maximum leverage of an asset whose metadata gives none.
pub const DEFAULT_MAX_LEVERAGE: u32 = 20;

/// Factor on the price of an aggressive buy: 1.05.
pub const AGGRESSIVE_BUY: i64 = 105_000_000;

/// Factor on the price of an aggressive sell: 0.95.
pub const AGGRESSIVE_SELL: i64 = 95_000_000;

/// HTTP status of a rate-limited request.
pub const HTTP_TOO_MANY_REQUESTS: u16 = 429;

/// An order resting at the venue, as the venue lists it.
#[derive(Debug)]
pub struct OpenOrder {
    pub coin: Option<String>,
    pub oid: Option<u64>,
    /// `"B"` for a bid, `"A"` for an ask.
    pub side: String,
    /// Limit price, as decimal text.
    pub limit_px: String,
    /// Placement time in epoch milliseconds.
    pub timestamp: Option<u64>,
}

impl OpenOrder {
    /// A copy of the order.
    pub fn duplicate(&self) -> (r: Self)
        ensures
            r == *self,
    {
        OpenOrder {
            coin: match &self.coin {
                Some(c) => Some(c.clone()),
                None => None,
            },
            oid: self.oid,
            side: self.side.clone(),
            limit_px: self.limit_px.clone(),
            timestamp: self.timestamp,
        }
    }

    /// Whether the order belongs to a coin; every order belongs to the
    /// empty coin, which stands for all coins.
    pub open spec fn is_of(&self, coin: Seq<char>) -> bool {
        coin.len() == 0 || (self.coin matches Some(c) && c@ == coin)
    }
}

/// The orders of one coin, in their order; all orders for the empty coin.
pub open spec fn orders_of(orders: Seq<OpenOrder>, coin: Seq<char>) -> Seq<OpenOrder>
    decreases orders.len(),
{
    if orders.len() == 0 {
        Seq::empty()
    } else if orders.last().is_of(coin) {
        orders_of(orders.drop_last(), coin).push(orders.last())
    } else {
        orders_of(orders.drop_last(), coin)
    }
}

/// The orders of one coin; all orders for the empty coin.
pub fn filter_orders(orders: &Vec<OpenOrder>, coin: &str) -> (r: Vec<OpenOrder>)
    ensures
        r@ == orders_of(orders@, coin@),
{
    let mut out: Vec<OpenOrder> = Vec::new();
    let all = coin.unicode_len() == 0;
    let mut i: usize = 0;
    assert(orders@.subrange(0, 0) =~= Seq::<OpenOrder>::empty());
    while i < orders.len()
        invariant
            i <= orders@.len(),
            all == (coin@.len() == 0),
            out@ == orders_of(orders@.subrange(0, i as int), coin@),
        decreases orders@.len() - i,
    {
        proof {
            let next = orders@.subrange(0, i as int + 1);
            assert(next.drop_last() =~= orders@.subrange(0, i as int));
            assert(next.last() == orders@[i as int]);
        }
        let keep = all || match &orders[i].coin {
            Some(c) => str_eq(c.as_str(), coin),
            None => false,
        };
        if keep {
            out.push(orders[i].duplicate());
        }
        i += 1;
    }
    proof {
        assert(orders@.subrange(0, orders@.len() as int) =~= orders@);
    }
    out
}

/// Whether an answer fetched at `fetched_at_ms` may still be reused at
/// `now_ms`: for less than two seconds.
pub open spec fn is_fresh(fetched_at_ms: u64, now_ms: u64) -> bool {
    now_ms < fetched_at_ms || now_ms - fetched_at_ms < CACHE_DURATION_MS
}

/// Whether a cached answer may still be reused.
pub fn cache_fresh(fetched_at_ms: u64, now_ms: u64) -> (r: bool)
    ensures
        r == is_fresh(fetched_at_ms, now_ms),
{
    now_ms < fetched_at_ms || now_ms - fetched_at_ms < CACHE_DURATION_MS
}

/// One asset of the venue's universe, as its metadata lists it.
#[derive(Debug)]
pub struct UniverseAsset {
    pub name: Option<String>,
    pub sz_decimals: Option<u64>,
    pub max_leverage: Option<u64>,
}

impl UniverseAsset {
    /// The metadata kept of the asset: four size decimals and a maximum
    /// leverage of twenty where the venue gives none; none for an asset
    /// without a name.
    pub open spec fn info(&self) -> Option<AssetInfo> {
        if self.name is Some {
            Some(
                AssetInfo {
                    sz_decimals: match self.sz_decimals {
                        Some(d) => (d % 0x1_0000_0000) as u32,
                        None => DEFAULT_SZ_DECIMALS,
                    },
                    max_leverage: match self.max_leverage {
                        Some(l) => (l % 0x1_0000_0000) as u32,
                        None => DEFAULT_MAX_LEVERAGE,
                    },
                },
            )
        } else {
            None
        }
    }
}

/// Asset index by coin for a universe: an asset's index is its place in the
/// list; of two assets with one name the later stays.
pub open spec fn universe_index(universe: Seq<UniverseAsset>) -> Map<Seq<char>, u32>
    decreases universe.len(),
{
    if universe.len() == 0 {
        Map::empty()
    } else {
        match universe.last().name {
            Some(name) => universe_index(universe.drop_last()).insert(
                name@,
                (universe.len() - 1) as u32,
            ),
            None => universe_index(universe.drop_last()),
        }
    }
}

/// The metadata of a universe, by asset index: that of every named asset,
/// under its place in the list.
pub open spec fn universe_info(universe: Seq<UniverseAsset>) -> Map<u32, AssetInfo>
    decreases universe.len(),
{
    if universe.len() == 0 {
        Map::empty()
    } else {
        match universe.last().info() {
            Some(info) => universe_info(universe.drop_last()).insert(
                (universe.len() - 1) as u32,
                info,
            ),
            None => universe_info(universe.drop_last()),
        }
    }
}

/// A resting order to cancel.
#[derive(Debug)]
pub struct CancelTarget {
    pub coin: String,
    pub oid: u64,
    pub asset_idx: u32,
}

/// A cancel target as plain values.
pub struct CancelTargetView {
    pub coin: Seq<char>,
    pub oid: u64,
    pub asset_idx: u32,
}

impl CancelTarget {
    pub open spec fn view(&self) -> CancelTargetView {
        CancelTargetView { coin: self.coin@, oid: self.oid, asset_idx: self.asset_idx }
    }
}

/// The cancel targets of a list as plain values.
pub open spec fn cancel_target_views(s: Seq<CancelTarget>) -> Seq<CancelTargetView> {
    Seq::new(s.len(), |i: int| s[i]@)
}

/// The coin an order is cancelled under: its own, or the fallback.
pub open spec fn cancel_coin(order: OpenOrder, fallback: Option<Seq<char>>) -> Option<Seq<char>> {
    match order.coin {
        Some(c) => Some(c@),
        None => fallback,
    }
}

/// The cancel target of an order: none without an order id, without a
/// coin, or for a coin that the venue's universe does not hold.
pub open spec fn cancel_target_of(
    order: OpenOrder,
    fallback: Option<Seq<char>>,
    assets: Map<Seq<char>, u32>,
) -> Option<CancelTargetView> {
    match (order.oid, cancel_coin(order, fallback)) {
        (Some(oid), Some(coin)) => if assets.contains_key(coin) {
            Some(CancelTargetView { coin, oid, asset_idx: assets[coin] })
        } else {
            None
        },
        _ => None,
    }
}

/// The cancel targets of a list of orders, in their order.
pub open spec fn cancel_targets_spec(
    orders: Seq<OpenOrder>,
    fallback: Option<Seq<char>>,
    assets: Map<Seq<char>, u32>,
) -> Seq<CancelTargetView>
    decreases orders.len(),
{
    if orders.len() == 0 {
        Seq::empty()
    } else {
        match cancel_target_of(orders.last(), fallback, assets) {
            Some(t) => cancel_targets_spec(orders.drop_last(), fallback, assets).push(t),
            None => cancel_targets_spec(orders.drop_last(), fallback, assets),
        }
    }
}

/// Whether an order is dead at `now_ms`: it carries a coin, an id and a
/// placement time, and was placed more than fifteen minutes ago.
pub open spec fn is_dead(order: OpenOrder, now_ms: u64) -> bool {
    &&& order.coin is Some
    &&& order.oid is Some
    &&& order.timestamp matches Some(ts) && now_ms > ts && now_ms - ts > DEAD_ORDER_AGE_MS
}

/// The dead orders of a list, in their order.
pub open spec fn dead_orders(orders: Seq<OpenOrder>, now_ms: u64) -> Seq<OpenOrder>
    decreases orders.len(),
{
    if orders.len() == 0 {
        Seq::empty()
    } else if is_dead(orders.last(), now_ms) {
        dead_orders(orders.drop_last(), now_ms).push(orders.last())
    } else {
        dead_orders(orders.drop_last(), now_ms)
    }
}

/// Counts confirmed cancellations and spaces the nonces of one run.
#[derive(Clone, Copy, Debug)]
pub struct CancelTally {
    pub cancelled: u64,
}

impl CancelTally {
    /// A tally of nothing yet.
    pub fn new() -> (t: Self)
        ensures
            t.cancelled == 0,
    {
        CancelTally { cancelled: 0 }
    }

    /// The nonce of the next cancel: the time plus the cancellations
    /// confirmed so far, held at the end of the `u64` range.
    pub fn nonce(&self, now_ms: u64) -> (n: u64)
        ensures
            n == (if now_ms + self.cancelled > u64::MAX {
                u64::MAX as int
            } else {
                now_ms + self.cancelled
            }),
    {
        if self.cancelled > u64::MAX - now_ms {
            u64::MAX
        } else {
            now_ms + self.cancelled
        }
    }

    /// Takes in whether the venue confirmed a cancel.
    pub fn record(&mut self, confirmed: bool)
        requires
            old(self).cancelled < u64::MAX,
        ensures
            final(self).cancelled == old(self).cancelled + (if confirmed {
                1int
            } else {
                0
            }),
    {
        if confirmed {
            self.cancelled = self.cancelled + 1;
        }
    }
}

/// What the venue answered to a signed action: the `status` field, the
/// `response` as text, and the first error among the per-order statuses.
#[derive(Debug)]
pub struct ExchangeReply {
    pub status: Option<String>,
    /// The `response` field as JSON text.
    pub response_json: String,
    /// The first `error` text among the entries of `response.data.statuses`;
    /// none where no entry carries one.
    pub status_error: Option<String>,
}

impl ExchangeReply {
    /// Whether the venue reports an error status.
    pub open spec fn is_err(&self) -> bool {
        self.status matches Some(s) && s@ == "err"@
    }

    /// Whether the venue reports an error status.
    pub fn has_error_status(&self) -> (r: bool)
        ensures
            r == self.is_err(),
    {
        match &self.status {
            Some(s) => str_eq(s.as_str(), "err"),
            None => false,
        }
    }
}

/// Whether a text tells of a rate limit: it holds `rate limited` or
/// `cumulative requests`.
pub open spec fn tells_rate_limit(text: Seq<char>) -> bool {
    contains_text(encode_utf8(text), encode_utf8("rate limited"@)) || contains_text(
        encode_utf8(text),
        encode_utf8("cumulative requests"@),
    )
}

/// Whether a text tells of a rate limit.
pub fn is_rate_limit_text(text: &str) -> (r: bool)
    ensures
        r == tells_rate_limit(text@),
{
    str_contains(text, "rate limited") || str_contains(text, "cumulative requests")
}

/// Classifies an answer of the venue, to a read or to a signed action, by
/// its HTTP status and its body: rate limited on HTTP 429, and on a body
/// that tells of a rate limit whatever the HTTP status; else no error.
pub fn rate_limit_error(http_status: u16, body: &str) -> (r: Option<OrderError>)
    ensures
        r is Some <==> (http_status == HTTP_TOO_MANY_REQUESTS || tells_rate_limit(body@)),
        r matches Some(e) ==> e is RateLimited,
{
    if http_status == HTTP_TOO_MANY_REQUESTS || is_rate_limit_text(body) {
        Some(OrderError::RateLimited)
    } else {
        None
    }
}

/// Whether the venue confirmed a cancel: it answered, and not with an
/// error status.
pub fn cancel_confirmed(reply: &Result<ExchangeReply, OrderError>) -> (r: bool)
    ensures
        r == (reply matches Ok(rep) && !rep.is_err()),
{
    match reply {
        Ok(rep) => !rep.has_error_status(),
        Err(_) => false,
    }
}

/// The outcome of a single cancel: an invalid-order error with the venue's
/// response where it answered with an error status.
pub fn cancel_result(reply: &ExchangeReply) -> (r: Result<(), OrderError>)
    ensures
        reply.is_err() ==> (r matches Err(OrderError::InvalidOrder(t)) && t@
            == reply.response_json@),
        !reply.is_err() ==> r is Ok,
{
    if reply.has_error_status() {
        Err(OrderError::InvalidOrder(reply.response_json.clone()))
    } else {
        Ok(())
    }
}

/// The outcome of placing an order, from the venue's reply and the receipt
/// prepared for it: an invalid-order error with the venue's response on an
/// error status; an invalid-order error with the first error text where any
/// entry of the per-order statuses carries one; else the receipt.
pub fn order_result(reply: &ExchangeReply, receipt: TradeAction) -> (r: Result<
    TradeAction,
    OrderError,
>)
    ensures
        reply.is_err() ==> (r matches Err(OrderError::InvalidOrder(t)) && t@
            == reply.response_json@),
        !reply.is_err() && reply.status_error is Some ==> (r matches Err(
            OrderError::InvalidOrder(t),
        ) && t@ == reply.status_error->0@),
        !reply.is_err() && reply.status_error is None ==> r == Ok::<TradeAction, OrderError>(
            receipt,
        ),
{
    if reply.has_error_status() {
        return Err(OrderError::InvalidOrder(reply.response_json.clone()));
    }
    match &reply.status_error {
        Some(e) => Err(OrderError::InvalidOrder(e.clone())),
        None => Ok(receipt),
    }
}

/// A position as the venue's account state lists it, from its texts: none
/// for a size that reads as zero or does not read at all. The sign of the
/// size gives the direction; prices that do not read count as zero.
pub fn position_from_wire(
    coin: &str,
    szi: Option<&str>,
    entry_px: Option<&str>,
    unrealized_pnl: Option<&str>,
) -> (r: Option<Position>)
    ensures
        ({
            let sz = match szi {
                Some(t) => match parse_decimal_spec(t.spec_bytes()) {
                    Some(v) => v,
                    None => 0,
                },
                None => 0,
            };
            let entry = match entry_px {
                Some(t) => match parse_decimal_spec(t.spec_bytes()) {
                    Some(v) => v,
                    None => 0,
                },
                None => 0,
            };
            let pnl = match unrealized_pnl {
                Some(t) => match parse_decimal_spec(t.spec_bytes()) {
                    Some(v) => v,
                    None => 0,
                },
                None => 0,
            };
            if sz == 0 {
                r is None
            } else {
                &&& r matches Some(p)
                &&& p.coin@ == coin@
                &&& p.direction == (if sz > 0 {
                    Direction::Long
                } else {
                    Direction::Short
                })
                &&& p.size == (if sz > 0 {
                    sz
                } else {
                    -sz
                })
                &&& p.entry_price == entry
                &&& p.unrealized_pnl == pnl
                &&& p.margin_used == 0
                &&& p.leverage == 0
                &&& p.tp_price == 0
                &&& p.sl_price == 0
                &&& p.liquidation_price == 0
                &&& p.entry_time == 0
            }
        }),
{
    let sz: i64 = decimal_or_zero(szi);
    if sz == 0 {
        return None;
    }
    let entry: i64 = decimal_or_zero(entry_px);
    let pnl: i64 = decimal_or_zero(unrealized_pnl);
    Some(
        Position {
            coin: String::from_str(coin),
            direction: if sz > 0 {
                Direction::Long
            } else {
                Direction::Short
            },
            size: if sz > 0 {
                sz
            } else {
                -sz
            },
            entry_price: entry,
            margin_used: 0,
            leverage: 0,
            tp_price: 0,
            sl_price: 0,
            liquidation_price: 0,
            entry_time: 0,
            unrealized_pnl: pnl,
        },
    )
}

/// The quantity a text writes; zero where there is no text or it does not
/// read as a decimal.
pub fn decimal_or_zero(text: Option<&str>) -> (r: i64)
    ensures
        r == (match text {
            Some(t) => match parse_decimal_spec(t.spec_bytes()) {
                Some(v) => v,
                None => 0,
            },
            None => 0,
        }),
        r > i64::MIN,
{
    match text {
        Some(t) => match parse_decimal(t) {
            Some(v) => v,
            None => 0,
        },
        None => 0,
    }
}

/// An order that is signed and ready to be sent.
#[derive(Debug)]
pub struct SignedOrder {
    pub signature: Signature,
    /// The action's JSON form, as UTF-8 bytes.
    pub action_json: Vec<u8>,
    pub nonce: u64,
    /// What is reported once the venue accepts the order.
    pub receipt: TradeAction,
}

/// The live venue client's state.
pub struct LiveExchange {
    pub base_url: String,
    pub account_address: String,
    pub private_key: String,
    /// Asset index by coin.
    pub coin_to_asset: CoinMap<u32>,
    /// Metadata by asset index.
    pub asset_info: HashMap<u32, AssetInfo>,
    /// The balance and when it was fetched.
    pub cached_balance: Option<(i64, u64)>,
    /// The positions and when they were fetched.
    pub cached_positions: Option<(Vec<Position>, u64)>,
    /// The mids and when they were fetched.
    pub cached_mids: Option<(CoinMap<i64>, u64)>,
    /// The open orders of all coins and when they were fetched.
    pub cached_open_orders: Option<(Vec<OpenOrder>, u64)>,
}

/// The wire price of an order: the price itself for a post-only order, else
/// moved by five percent against the taker, rounded to five significant
/// figures.
pub open spec fn wire_price(price: int, is_buy: bool, post_only: bool) -> int {
    round_to_5_sig_figs_spec(
        if post_only {
            price
        } else if is_buy {
            mul_sat_spec(price, AGGRESSIVE_BUY as int)
        } else {
            mul_sat_spec(price, AGGRESSIVE_SELL as int)
        },
    )
}

/// Bounds on the product of an amount and a factor near one.
pub proof fn lemma_aggressive_bounds(price: int, factor: int)
    requires
        -MAX_RAW <= price <= MAX_RAW,
        0 <= factor <= 200_000_000,
    ensures
        -2 * MAX_RAW <= mul_sat_spec(price, factor) <= 2 * MAX_RAW,
{
    let p = crate::decimal::abs_spec(price);
    crate::decimal::lemma_mul_bound(p, MAX_RAW as int, factor, 200_000_000);
    assert(crate::decimal::abs_spec(price * factor) == p * factor) by (nonlinear_arith)
        requires
            p == crate::decimal::abs_spec(price),
            factor >= 0,
    ;
    crate::decimal::lemma_div_bounds(p * factor, crate::decimal::SCALE as int);
    crate::decimal::lemma_div_monotone(
        p * factor,
        MAX_RAW * 200_000_000,
        crate::decimal::SCALE as int,
    );
}

impl LiveExchange {
    pub open spec fn wf(&self) -> bool {
        &&& self.coin_to_asset.wf()
        &&& self.cached_mids matches Some(m) ==> m.0.wf()
    }

    /// Size decimals of an asset; four where its metadata is not known.
    pub open spec fn sz_decimals_of(&self, asset_idx: u32) -> u32 {
        if self.asset_info@.contains_key(asset_idx) {
            self.asset_info@[asset_idx].sz_decimals
        } else {
            DEFAULT_SZ_DECIMALS
        }
    }

    /// Maximum leverage of an asset; twenty where its metadata is not known.
    pub open spec fn max_leverage_of(&self, asset_idx: u32) -> u32 {
        if self.asset_info@.contains_key(asset_idx) {
            self.asset_info@[asset_idx].max_leverage
        } else {
            DEFAULT_MAX_LEVERAGE
        }
    }

    /// A client for an account, with nothing cached and no universe yet.
    pub fn new(account_address: String, private_key: String) -> (e: Self)
        ensures
            e.wf(),
            e.base_url@ == "https://api.hyperliquid.xyz"@,
            e.account_address == account_address,
            e.private_key == private_key,
            e.coin_to_asset@ == Map::<Seq<char>, u32>::empty(),
            e.asset_info@ == Map::<u32, AssetInfo>::empty(),
            e.cached_balance is None,
            e.cached_positions is None,
            e.cached_mids is None,
            e.cached_open_orders is None,
    {
        LiveExchange {
            base_url: String::from_str("https://api.hyperliquid.xyz"),
            account_address,
            private_key,
            coin_to_asset: CoinMap::new(),
            asset_info: HashMap::new(),
            cached_balance: None,
            cached_positions: None,
            cached_mids: None,
            cached_open_orders: None,
        }
    }

    /// Takes in the venue's universe: every named asset gets its place in
    /// the list as its index, and its metadata.
    pub fn init(&mut self, universe: &Vec<UniverseAsset>)
        requires
            old(self).wf(),
            universe@.len() <= u32::MAX,
        ensures
            final(self).wf(),
            final(self).coin_to_asset@ == universe_index(universe@),
            final(self).asset_info@ == universe_info(universe@),
            final(self).cached_balance == old(self).cached_balance,
            final(self).cached_positions == old(self).cached_positions,
            final(self).cached_mids == old(self).cached_mids,
            final(self).cached_open_orders == old(self).cached_open_orders,
            final(self).private_key == old(self).private_key,
            final(self).account_address == old(self).account_address,
            final(self).base_url == old(self).base_url,
    {
        self.coin_to_asset = CoinMap::new();
        self.asset_info = HashMap::new();
        let mut i: usize = 0;
        assert(universe@.subrange(0, 0) =~= Seq::<UniverseAsset>::empty());
        while i < universe.len()
            invariant
                i <= universe@.len(),
                universe@.len() <= u32::MAX,
                self.coin_to_asset.wf(),
                self.coin_to_asset@ == universe_index(universe@.subrange(0, i as int)),
                self.asset_info@ == universe_info(universe@.subrange(0, i as int)),
                self.cached_balance == old(self).cached_balance,
                self.cached_positions == old(self).cached_positions,
                self.cached_mids == old(self).cached_mids,
                self.cached_open_orders == old(self).cached_open_orders,
                self.private_key == old(self).private_key,
                self.account_address == old(self).account_address,
                self.base_url == old(self).base_url,
            decreases universe@.len() - i,
        {
            proof {
                let next = universe@.subrange(0, i as int + 1);
                assert(next.drop_last() =~= universe@.subrange(0, i as int));
                assert(next.last() == universe@[i as int]);
            }
            let asset = &universe[i];
            match &asset.name {
                Some(name) => {
                    self.coin_to_asset.insert(name.as_str(), i as u32);
                    let sz_decimals: u32 = match asset.sz_decimals {
                        Some(d) => (d % 0x1_0000_0000) as u32,
                        None => DEFAULT_SZ_DECIMALS,
                    };
                    let max_leverage: u32 = match asset.max_leverage {
                        Some(l) => (l % 0x1_0000_0000) as u32,
                        None => DEFAULT_MAX_LEVERAGE,
                    };
                    self.asset_info.insert(i as u32, AssetInfo { sz_decimals, max_leverage });
                },
                None => {},
            }
            i += 1;
        }
        proof {
            assert(universe@.subrange(0, universe@.len() as int) =~= universe@);
        }
    }

    /// The cached balance, while it is fresh.
    pub fn get_balance(&self, now_ms: u64) -> (r: Option<i64>)
        ensures
            r == (match self.cached_balance {
                Some((b, t)) if is_fresh(t, now_ms) => Some(b),
                _ => None,
            }),
    {
        match self.cached_balance {
            Some((b, t)) => if cache_fresh(t, now_ms) {
                Some(b)
            } else {
                None
            },
            None => None,
        }
    }

    /// Caches a balance fetched at `now_ms`.
    pub fn store_balance(&mut self, balance: i64, now_ms: u64)
        ensures
            final(self).cached_balance == Some((balance, now_ms)),
            final(self).coin_to_asset == old(self).coin_to_asset,
            final(self).asset_info == old(self).asset_info,
            final(self).cached_positions == old(self).cached_positions,
            final(self).cached_mids == old(self).cached_mids,
            final(self).cached_open_orders == old(self).cached_open_orders,
    {
        self.cached_balance = Some((balance, now_ms));
    }

    /// The cached positions, while they are fresh.
    pub fn get_positions(&self, now_ms: u64) -> (r: Option<&Vec<Position>>)
        ensures
            match self.cached_positions {
                Some((p, t)) => if is_fresh(t, now_ms) {
                    r == Some(&p)
                } else {
                    r is None
                },
                None => r is None,
            },
    {
        match &self.cached_positions {
            Some((p, t)) => if cache_fresh(*t, now_ms) {
                Some(p)
            } else {
                None
            },
            None => None,
        }
    }

    /// Caches positions fetched at `now_ms`.
    pub fn store_positions(&mut self, positions: Vec<Position>, now_ms: u64)
        ensures
            final(self).cached_positions == Some((positions, now_ms)),
            final(self).coin_to_asset == old(self).coin_to_asset,
            final(self).asset_info == old(self).asset_info,
            final(self).cached_balance == old(self).cached_balance,
            final(self).cached_mids == old(self).cached_mids,
            final(self).cached_open_orders == old(self).cached_open_orders,
    {
        self.cached_positions = Some((positions, now_ms));
    }

    /// The cached mids, while they are fresh.
    pub fn get_all_mids(&self, now_ms: u64) -> (r: Option<&CoinMap<i64>>)
        ensures
            match self.cached_mids {
                Some((m, t)) => if is_fresh(t, now_ms) {
                    r == Some(&m)
                } else {
                    r is None
                },
                None => r is None,
            },
    {
        match &self.cached_mids {
            Some((m, t)) => if cache_fresh(*t, now_ms) {
                Some(m)
            } else {
                None
            },
            None => None,
        }
    }

    /// Caches mids fetched at `now_ms`.
    pub fn store_mids(&mut self, mids: CoinMap<i64>, now_ms: u64)
        requires
            mids.wf(),
            old(self).wf(),
        ensures
            final(self).wf(),
            final(self).cached_mids == Some((mids, now_ms)),
            final(self).coin_to_asset == old(self).coin_to_asset,
            final(self).asset_info == old(self).asset_info,
            final(self).cached_balance == old(self).cached_balance,
            final(self).cached_positions == old(self).cached_positions,
            final(self).cached_open_orders == old(self).cached_open_orders,
    {
        self.cached_mids = Some((mids, now_ms));
    }

    /// The cached open orders of a coin, while the cache is fresh; the
    /// empty coin stands for all coins.
    pub fn get_open_orders(&self, coin: &str, now_ms: u64) -> (r: Option<Vec<OpenOrder>>)
        ensures
            match self.cached_open_orders {
                Some((orders, t)) => if is_fresh(t, now_ms) {
                    r matches Some(v) && v@ == orders_of(orders@, coin@)
                } else {
                    r is None
                },
                None => r is None,
            },
    {
        match &self.cached_open_orders {
            Some((orders, t)) => if cache_fresh(*t, now_ms) {
                Some(filter_orders(orders, coin))
            } else {
                None
            },
            None => None,
        }
    }

    /// Caches the open orders of all coins fetched at `now_ms` and hands
    /// back those of one coin.
    pub fn store_open_orders(&mut self, orders: Vec<OpenOrder>, coin: &str, now_ms: u64) -> (r: Vec<
        OpenOrder,
    >)
        ensures
            r@ == orders_of(orders@, coin@),
            final(self).cached_open_orders == Some((orders, now_ms)),
            final(self).coin_to_asset == old(self).coin_to_asset,
            final(self).asset_info == old(self).asset_info,
            final(self).cached_balance == old(self).cached_balance,
            final(self).cached_positions == old(self).cached_positions,
            final(self).cached_mids == old(self).cached_mids,
    {
        let filtered = filter_orders(&orders, coin);
        self.cached_open_orders = Some((orders, now_ms));
        filtered
    }

    /// Size decimals of an asset.
    pub fn sz_decimals(&self, asset_idx: u32) -> (r: u32)
        ensures
            r == self.sz_decimals_of(asset_idx),
    {
        match self.asset_info.get(&asset_idx) {
            Some(info) => info.sz_decimals,
            None => DEFAULT_SZ_DECIMALS,
        }
    }

    /// Maximum leverage of an asset.
    pub fn max_leverage(&self, asset_idx: u32) -> (r: u32)
        ensures
            r == self.max_leverage_of(asset_idx),
    {
        match self.asset_info.get(&asset_idx) {
            Some(info) => info.max_leverage,
            None => DEFAULT_MAX_LEVERAGE,
        }
    }

    /// The leverage an order may use: the hint, held to the asset's
    /// maximum.
    pub fn clamp_leverage(&self, asset_idx: u32, leverage: i64) -> (r: i64)
        ensures
            r == (if leverage > self.max_leverage_of(asset_idx) * crate::decimal::SCALE {
                self.max_leverage_of(asset_idx) * crate::decimal::SCALE
            } else {
                leverage as int
            }),
    {
        let max_lev: i64 = (self.max_leverage(asset_idx) as i64) * crate::decimal::SCALE;
        if leverage > max_lev {
            max_lev
        } else {
            leverage
        }
    }

    /// The cancel targets among a list of orders: those with an order id
    /// and a coin of the venue's universe. Where `fallback` is given, an
    /// order without a coin counts as of that coin.
    pub fn cancel_targets(&self, orders: &Vec<OpenOrder>, fallback: Option<&str>) -> (targets: Vec<
        CancelTarget,
    >)
        requires
            self.wf(),
        ensures
            cancel_target_views(targets@) == cancel_targets_spec(
                orders@,
                match fallback {
                    Some(f) => Some(f@),
                    None => None,
                },
                self.coin_to_asset@,
            ),
    {
        let mut targets: Vec<CancelTarget> = Vec::new();
        let ghost fb: Option<Seq<char>> = match fallback {
            Some(f) => Some(f@),
            None => None,
        };
        let mut i: usize = 0;
        assert(orders@.subrange(0, 0) =~= Seq::<OpenOrder>::empty());
        assert(cancel_target_views(targets@) =~= cancel_targets_spec(
            orders@.subrange(0, 0),
            fb,
            self.coin_to_asset@,
        ));
        while i < orders.len()
            invariant
                i <= orders@.len(),
                self.wf(),
                fb == (match fallback {
                    Some(f) => Some(f@),
                    None => None,
                }),
                cancel_target_views(targets@) == cancel_targets_spec(
                    orders@.subrange(0, i as int),
                    fb,
                    self.coin_to_asset@,
                ),
            decreases orders@.len() - i,
        {
            proof {
                let next = orders@.subrange(0, i as int + 1);
                assert(next.drop_last() =~= orders@.subrange(0, i as int));
                assert(next.last() == orders@[i as int]);
            }
            let order = &orders[i];
            let coin: Option<&str> = match &order.coin {
                Some(c) => Some(c.as_str()),
                None => fallback,
            };
            match (order.oid, coin) {
                (Some(oid), Some(c)) => {
                    match self.coin_to_asset.get(c) {
                        Some(idx) => {
                            let ghost prior = targets@;
                            targets.push(
                                CancelTarget { coin: String::from_str(c), oid, asset_idx: *idx },
                            );
                            proof {
                                assert(cancel_target_views(targets@) =~= cancel_target_views(
                                    prior,
                                ).push(targets@.last()@));
                            }
                        },
                        None => {},
                    }
                },
                _ => {},
            }
            i += 1;
        }
        proof {
            assert(orders@.subrange(0, orders@.len() as int) =~= orders@);
        }
        targets
    }

    /// The cancel targets of the sweep: the dead orders whose coin the
    /// venue's universe holds.
    pub fn sweep_dead_orders(&self, orders: &Vec<OpenOrder>, now_ms: u64) -> (targets: Vec<
        CancelTarget,
    >)
        requires
            self.wf(),
        ensures
            cancel_target_views(targets@) == cancel_targets_spec(
                dead_orders(orders@, now_ms),
                None,
                self.coin_to_asset@,
            ),
    {
        let mut dead: Vec<OpenOrder> = Vec::new();
        let mut i: usize = 0;
        assert(orders@.subrange(0, 0) =~= Seq::<OpenOrder>::empty());
        while i < orders.len()
            invariant
                i <= orders@.len(),
                dead@ == dead_orders(orders@.subrange(0, i as int), now_ms),
            decreases orders@.len() - i,
        {
            proof {
                let next = orders@.subrange(0, i as int + 1);
                assert(next.drop_last() =~= orders@.subrange(0, i as int));
                assert(next.last() == orders@[i as int]);
            }
            let order = &orders[i];
            let is_dead_now = order.coin.is_some() && order.oid.is_some() && match order.timestamp {
                Some(ts) => now_ms > ts && now_ms - ts > DEAD_ORDER_AGE_MS,
                None => false,
            };
            if is_dead_now {
                dead.push(order.duplicate());
            }
            i += 1;
        }
        proof {
            assert(orders@.subrange(0, orders@.len() as int) =~= orders@);
        }
        self.cancel_targets(&dead, None)
    }
}

/// The time in force of an order: add-liquidity-only for a post-only
/// order, immediate-or-cancel else.
pub open spec fn tif_of(post_only: bool) -> Seq<char> {
    if post_only {
        "Alo"@
    } else {
        "Ioc"@
    }
}

/// The order action of a single order, as plain values.
pub open spec fn single_order_view(
    asset_idx: u32,
    is_buy: bool,
    px: int,
    sz: int,
    reduce_only: bool,
    post_only: bool,
) -> ActionView {
    ActionView {
        action_type: encode_utf8("order"@),
        orders: seq![
            OrderView {
                asset: asset_idx as nat,
                is_buy,
                limit_px: wire_spec(px),
                sz: wire_spec(sz),
                reduce_only,
                tif: encode_utf8(tif_of(post_only)),
            },
        ],
        grouping: encode_utf8("na"@),
    }
}

/// Builds the order action of a single order: price and size in their wire
/// forms, grouping `na`.
pub fn single_order_action(
    asset_idx: u32,
    is_buy: bool,
    px: i64,
    sz: i64,
    reduce_only: bool,
    post_only: bool,
) -> (action: ActionWire)
    ensures
        action@ == single_order_view(asset_idx, is_buy, px as int, sz as int, reduce_only, post_only),
        action.packable(),
{
    let tif = if post_only {
        String::from_str("Alo")
    } else {
        String::from_str("Ioc")
    };
    let order = OrderRequest {
        asset: asset_idx,
        is_buy,
        limit_px: float_to_wire(px),
        sz: float_to_wire(sz),
        reduce_only,
        order_type: OrderTypeWire::Limit(LimitOrderWire { tif }),
    };
    let mut orders: Vec<OrderRequest> = Vec::new();
    orders.push(order);
    let action = ActionWire {
        action_type: String::from_str("order"),
        orders,
        grouping: String::from_str("na"),
    };
    proof {
        reveal_strlit("Alo");
        reveal_strlit("Ioc");
        reveal_strlit("order");
        reveal_strlit("na");
        lemma_short_text("Alo"@);
        lemma_short_text("Ioc"@);
        lemma_short_text("order"@);
        lemma_short_text("na"@);
        lemma_wire_len(px as int);
        lemma_wire_len(sz as int);
        assert(action@.orders =~= single_order_view(
            asset_idx,
            is_buy,
            px as int,
            sz as int,
            reduce_only,
            post_only,
        ).orders);
    }
    action
}

/// The first position of a coin in a list.
pub open spec fn first_position_of(positions: Seq<Position>, coin: Seq<char>) -> Option<Position>
    decreases positions.len(),
{
    if positions.len() == 0 {
        None
    } else if positions[0].coin@ == coin {
        Some(positions[0])
    } else {
        first_position_of(positions.drop_first(), coin)
    }
}

/// The first position of a coin is the one before which no position is of
/// that coin.
pub proof fn lemma_first_position(positions: Seq<Position>, coin: Seq<char>, i: int)
    requires
        0 <= i <= positions.len(),
        forall|j: int| 0 <= j < i ==> (#[trigger] positions[j]).coin@ != coin,
        i < positions.len() ==> positions[i].coin@ == coin,
    ensures
        first_position_of(positions, coin) == (if i < positions.len() {
            Some(positions[i])
        } else {
            None
        }),
    decreases i,
{
    if i > 0 {
        let rest = positions.drop_first();
        assert forall|j: int| 0 <= j < i - 1 implies (#[trigger] rest[j]).coin@ != coin by {
            assert(rest[j] == positions[j + 1]);
        }
        if i < positions.len() {
            assert(rest[i - 1] == positions[i]);
        }
        lemma_first_position(rest, coin, i - 1);
    }
}

impl LiveExchange {
    /// Prepares and signs an order.
    ///
    /// An unknown coin is an invalid order. Otherwise the price is made
    /// aggressive unless the order is post-only and rounded to five
    /// significant figures, the size is rounded to the asset's size
    /// decimals, and the single-order action is signed for the nonce.
    pub fn open_order(
        &self,
        coin: &str,
        direction: Direction,
        size: i64,
        price: i64,
        post_only: bool,
        nonce: u64,
    ) -> (r: Result<SignedOrder, OrderError>)
        requires
            self.wf(),
            -MAX_RAW <= price <= MAX_RAW,
            -MAX_RAW <= size <= MAX_RAW,
        ensures
            !self.coin_to_asset@.contains_key(coin@) ==> (r matches Err(
                OrderError::InvalidOrder(t),
            ) && t@ == "Unknown coin: "@ + coin@),
            self.coin_to_asset@.contains_key(coin@) ==> ({
                let idx = self.coin_to_asset@[coin@];
                let is_buy = direction == Direction::Long;
                let px = wire_price(price as int, is_buy, post_only);
                let sz = round_decimals_spec(size as int, self.sz_decimals_of(idx) as int);
                let view = single_order_view(idx, is_buy, px, sz, false, post_only);
                &&& signed_as(
                    match r {
                        Ok(o) => Ok(o.signature),
                        Err(e) => Err(e),
                    },
                    self.private_key@,
                    action_hash_spec(pack_action_spec(view), nonce, None),
                )
                &&& r matches Ok(o) ==> {
                    &&& is_wire_signature(o.signature)
                    &&& o.action_json@ == action_json_spec(view)
                    &&& o.nonce == nonce
                    &&& o.receipt.coin@ == coin@
                    &&& o.receipt.action@ == "OPEN"@
                    &&& o.receipt.reason@ == "Live Order Placed"@
                    &&& o.receipt.direction == direction
                    &&& o.receipt.price == px
                    &&& o.receipt.size == sz
                    &&& o.receipt.pnl is None
                    &&& o.receipt.fee == Some(0i64)
                    &&& o.receipt.exit_type is None
                    &&& o.receipt.ts == nonce
                    &&& o.receipt.session_id@.len() == 0
                    &&& o.receipt.entry_rsi is None
                    &&& o.receipt.entry_bb_dist is None
                    &&& o.receipt.entry_score is None
                }
            }),
    {
        let is_buy = match direction {
            Direction::Long => true,
            Direction::Short => false,
        };
        let asset_idx: u32 = match self.coin_to_asset.get(coin) {
            Some(idx) => *idx,
            None => {
                return Err(OrderError::InvalidOrder(join("Unknown coin: ", coin)));
            },
        };
        proof {
            lemma_aggressive_bounds(price as int, AGGRESSIVE_BUY as int);
            lemma_aggressive_bounds(price as int, AGGRESSIVE_SELL as int);
        }
        let execution_price = if !post_only {
            if is_buy {
                mul_sat(price, AGGRESSIVE_BUY)
            } else {
                mul_sat(price, AGGRESSIVE_SELL)
            }
        } else {
            price
        };
        let price_rounded = round_to_5_sig_figs(execution_price);
        let size_rounded = round_f64(size, self.sz_decimals(asset_idx) as usize);
        let action = single_order_action(
            asset_idx,
            is_buy,
            price_rounded,
            size_rounded,
            false,
            post_only,
        );
        match sign_l1_action(self.private_key.as_str(), &action, nonce) {
            Ok((signature, action_json)) => Ok(
                SignedOrder {
                    signature,
                    action_json,
                    nonce,
                    receipt: TradeAction {
                        session_id: String::new(),
                        coin: String::from_str(coin),
                        action: String::from_str("OPEN"),
                        direction,
                        price: price_rounded,
                        size: size_rounded,
                        reason: String::from_str("Live Order Placed"),
                        pnl: None,
                        fee: Some(0),
                        exit_type: None,
                        ts: nonce,
                        entry_rsi: None,
                        entry_bb_dist: None,
                        entry_score: None,
                    },
                },
            ),
            Err(e) => Err(e),
        }
    }

    /// Prepares and signs the close of a coin's position: a reduce-only,
    /// immediate-or-cancel order against the position at an aggressive
    /// price.
    ///
    /// An invalid order where the positions hold none of the coin, or the
    /// coin is unknown.
    pub fn close_position(
        &self,
        positions: &Vec<Position>,
        coin: &str,
        price: i64,
        reason: &str,
        nonce: u64,
    ) -> (r: Result<SignedOrder, OrderError>)
        requires
            self.wf(),
            -MAX_RAW <= price <= MAX_RAW,
        ensures
            match first_position_of(positions@, coin@) {
                None => r matches Err(OrderError::InvalidOrder(t)) && t@
                    == "No live position to close for "@ + coin@,
                Some(pos) => if !self.coin_to_asset@.contains_key(coin@) {
                    r matches Err(OrderError::InvalidOrder(t)) && t@ == "Unknown coin: "@ + coin@
                } else {
                    let idx = self.coin_to_asset@[coin@];
                    let is_buy = pos.direction == Direction::Short;
                    let px = wire_price(price as int, is_buy, false);
                    let view = single_order_view(idx, is_buy, px, pos.size as int, true, false);
                    &&& signed_as(
                        match r {
                            Ok(o) => Ok(o.signature),
                            Err(e) => Err(e),
                        },
                        self.private_key@,
                        action_hash_spec(pack_action_spec(view), nonce, None),
                    )
                    &&& r matches Ok(o) ==> {
                        &&& is_wire_signature(o.signature)
                        &&& o.action_json@ == action_json_spec(view)
                        &&& o.nonce == nonce
                        &&& o.receipt.coin@ == coin@
                        &&& o.receipt.action@ == "CLOSE"@
                        &&& o.receipt.direction == pos.direction
                        &&& o.receipt.price == px
                        &&& o.receipt.size == pos.size
                        &&& o.receipt.reason@ == reason@
                        &&& o.receipt.exit_type matches Some(e) && e@ == reason@
                        &&& o.receipt.pnl == Some(pos.pnl_at(px) as i64)
                        &&& o.receipt.fee == Some(0i64)
                        &&& o.receipt.ts == nonce
                        &&& o.receipt.session_id@.len() == 0
                        &&& o.receipt.entry_rsi is None
                        &&& o.receipt.entry_bb_dist is None
                        &&& o.receipt.entry_score is None
                    }
                },
            },
    {
        let mut i: usize = 0;
        while i < positions.len() && !str_eq(positions[i].coin.as_str(), coin)
            invariant
                i <= positions@.len(),
                forall|j: int| 0 <= j < i ==> (#[trigger] positions@[j]).coin@ != coin@,
            decreases positions@.len() - i,
        {
            i += 1;
        }
        proof {
            lemma_first_position(positions@, coin@, i as int);
        }
        if i == positions.len() {
            return Err(OrderError::InvalidOrder(join("No live position to close for ", coin)));
        }
        let pos = &positions[i];
        let is_buy = match pos.direction {
            Direction::Short => true,
            Direction::Long => false,
        };
        proof {
            lemma_aggressive_bounds(price as int, AGGRESSIVE_BUY as int);
            lemma_aggressive_bounds(price as int, AGGRESSIVE_SELL as int);
        }
        let execution_price = if is_buy {
            mul_sat(price, AGGRESSIVE_BUY)
        } else {
            mul_sat(price, AGGRESSIVE_SELL)
        };
        let price_rounded = round_to_5_sig_figs(execution_price);
        let asset_idx: u32 = match self.coin_to_asset.get(coin) {
            Some(idx) => *idx,
            None => {
                return Err(OrderError::InvalidOrder(join("Unknown coin: ", coin)));
            },
        };
        let action = single_order_action(asset_idx, is_buy, price_rounded, pos.size, true, false);
        match sign_l1_action(self.private_key.as_str(), &action, nonce) {
            Ok((signature, action_json)) => Ok(
                SignedOrder {
                    signature,
                    action_json,
                    nonce,
                    receipt: TradeAction {
                        session_id: String::new(),
                        coin: String::from_str(coin),
                        action: String::from_str("CLOSE"),
                        direction: pos.direction,
                        price: price_rounded,
                        size: pos.size,
                        reason: String::from_str(reason),
                        pnl: Some(pos.calc_pnl(price_rounded)),
                        fee: Some(0),
                        exit_type: Some(String::from_str(reason)),
                        ts: nonce,
                        entry_rsi: None,
                        entry_bb_dist: None,
                        entry_score: None,
                    },
                },
            ),
            Err(e) => Err(e),
        }
    }

    /// Signs the cancel of one order of the account.
    pub fn cancel_order(&self, asset_idx: u32, oid: u64, nonce: u64) -> (r: Result<
        (Signature, Vec<u8>),
        OrderError,
    >)
        ensures
            signed_as(
                match r {
                    Ok(pair) => Ok(pair.0),
                    Err(e) => Err(e),
                },
                self.private_key@,
                action_hash_spec(pack_cancel_spec(asset_idx as nat, oid as nat), nonce, None),
            ),
            r matches Ok(pair) ==> pair.1@ == cancel_json_spec(asset_idx as nat, oid as nat)
                && is_wire_signature(pair.0),
    {
        sign_cancel_action(self.private_key.as_str(), asset_idx, oid, nonce)
    }

    /// Withdrawals are not offered by the live client.
    pub fn withdraw(&self, amount: i64) -> (r: Result<i64, OrderError>)
        ensures
            r matches Err(OrderError::InvalidOrder(t)) && t@
                == "Withdraw not implemented in engine yet"@,
    {
        Err(OrderError::InvalidOrder(String::from_str("Withdraw not implemented in engine yet")))
    }
}

/// An open order as plain values.
pub struct OpenOrderView {
    pub coin: Option<Seq<char>>,
    pub oid: Option<u64>,
    pub side: Seq<char>,
    pub limit_px: Seq<char>,
    pub timestamp: Option<u64>,
}

/// The open orders of a list as plain values.
pub open spec fn open_order_views(s: Seq<OpenOrder>) -> Seq<OpenOrderView> {
    Seq::new(s.len(), |i: int| s[i]@)
}

impl OpenOrder {
    pub open spec fn view(&self) -> OpenOrderView {
        OpenOrderView {
            coin: match self.coin {
                Some(c) => Some(c@),
                None => None,
            },
            oid: self.oid,
            side: self.side@,
            limit_px: self.limit_px@,
            timestamp: self.timestamp,
        }
    }

    /// The open order that a JSON object stands for: a side that is
    /// missing reads as empty, a limit price that is missing as `0`.
    pub open spec fn of_json(v: Json) -> OpenOrderView {
        OpenOrderView {
            coin: text_of(v.member("coin"@)),
            oid: uint_of(v.member("oid"@)),
            side: match text_of(v.member("side"@)) {
                Some(s) => s,
                None => ""@,
            },
            limit_px: match text_of(v.member("limitPx"@)) {
                Some(p) => p,
                None => "0"@,
            },
            timestamp: uint_of(v.member("timestamp"@)),
        }
    }

    /// Reads an open order.
    pub fn from_json(v: &Json) -> (r: OpenOrder)
        ensures
            r@ == Self::of_json(*v),
    {
        OpenOrder {
            coin: match text_at(v, "coin") {
                Some(c) => Some(String::from_str(c)),
                None => None,
            },
            oid: uint_at(v, "oid"),
            side: match text_at(v, "side") {
                Some(s) => String::from_str(s),
                None => String::from_str(""),
            },
            limit_px: match text_at(v, "limitPx") {
                Some(p) => String::from_str(p),
                None => String::from_str("0"),
            },
            timestamp: uint_at(v, "timestamp"),
        }
    }
}

/// The open orders that the venue's answer lists; none where the answer is
/// no list.
pub open spec fn open_orders_of(data: Json) -> Seq<OpenOrderView> {
    match data.items() {
        Some(items) => Seq::new(items.len(), |i: int| OpenOrder::of_json(items[i])),
        None => Seq::empty(),
    }
}

/// Reads the venue's list of open orders.
pub fn read_open_orders(data: &Json) -> (r: Vec<OpenOrder>)
    ensures
        open_order_views(r@) == open_orders_of(*data),
{
    let mut out: Vec<OpenOrder> = Vec::new();
    match data.as_array() {
        Some(items) => {
            let mut i: usize = 0;
            while i < items.len()
                invariant
                    i <= items@.len(),
                    out@.len() == i,
                    forall|k: int| 0 <= k < i ==> (#[trigger] out@[k])@ == OpenOrder::of_json(items@[k]),
                decreases items@.len() - i,
            {
                out.push(OpenOrder::from_json(&items[i]));
                i += 1;
            }
            proof {
                assert(open_order_views(out@) =~= open_orders_of(*data));
            }
        },
        None => {
            proof {
                assert(open_order_views(out@) =~= open_orders_of(*data));
            }
        },
    }
    out
}

/// A universe asset as plain values.
pub struct UniverseAssetView {
    pub name: Option<Seq<char>>,
    pub sz_decimals: Option<u64>,
    pub max_leverage: Option<u64>,
}

/// The universe assets of a list as plain values.
pub open spec fn universe_asset_views(s: Seq<UniverseAsset>) -> Seq<UniverseAssetView> {
    Seq::new(s.len(), |i: int| s[i]@)
}

impl UniverseAsset {
    pub open spec fn view(&self) -> UniverseAssetView {
        UniverseAssetView {
            name: match self.name {
                Some(n) => Some(n@),
                None => None,
            },
            sz_decimals: self.sz_decimals,
            max_leverage: self.max_leverage,
        }
    }

    /// The universe asset that a JSON object stands for.
    pub open spec fn of_json(v: Json) -> UniverseAssetView {
        UniverseAssetView {
            name: text_of(v.member("name"@)),
            sz_decimals: uint_of(v.member("szDecimals"@)),
            max_leverage: uint_of(v.member("maxLeverage"@)),
        }
    }

    /// Reads a universe asset.
    pub fn from_json(v: &Json) -> (r: UniverseAsset)
        ensures
            r@ == Self::of_json(*v),
    {
        UniverseAsset {
            name: match text_at(v, "name") {
                Some(n) => Some(String::from_str(n)),
                None => None,
            },
            sz_decimals: uint_at(v, "szDecimals"),
            max_leverage: uint_at(v, "maxLeverage"),
        }
    }
}

/// The universe that the venue's metadata lists under `universe`; empty
/// where it lists none.
pub open spec fn universe_of_meta(data: Json) -> Seq<UniverseAssetView> {
    match data.member("universe"@) {
        Some(u) => match u.items() {
            Some(items) => Seq::new(items.len(), |i: int| UniverseAsset::of_json(items[i])),
            None => Seq::empty(),
        },
        None => Seq::empty(),
    }
}

/// Reads the universe of the venue's metadata.
pub fn read_universe(data: &Json) -> (r: Vec<UniverseAsset>)
    ensures
        universe_asset_views(r@) == universe_of_meta(*data),
{
    let mut out: Vec<UniverseAsset> = Vec::new();
    let items = match data.get("universe") {
        Some(u) => match u.as_array() {
            Some(items) => items,
            None => {
                proof {
                    assert(universe_asset_views(out@) =~= universe_of_meta(*data));
                }
                return out;
            },
        },
        None => {
            proof {
                assert(universe_asset_views(out@) =~= universe_of_meta(*data));
            }
            return out;
        },
    };
    let mut i: usize = 0;
    while i < items.len()
        invariant
            i <= items@.len(),
            out@.len() == i,
            forall|k: int| 0 <= k < i ==> (#[trigger] out@[k])@ == UniverseAsset::of_json(items@[k]),
        decreases items@.len() - i,
    {
        out.push(UniverseAsset::from_json(&items[i]));
        i += 1;
    }
    proof {
        assert(universe_asset_views(out@) =~= universe_of_meta(*data));
    }
    out
}

/// The balance that the venue's account state gives: what can be
/// withdrawn, as a number or a decimal text; zero where it gives none.
pub open spec fn balance_of_state(data: Json) -> int {
    match amount_of_json(data.member("withdrawable"@)) {
        Some(v) => v,
        None => 0,
    }
}

/// Reads the balance of the venue's account state.
pub fn read_balance(data: &Json) -> (r: i64)
    ensures
        r == balance_of_state(*data),
{
    match amount_at(data, "withdrawable") {
        Some(v) => v,
        None => 0,
    }
}

/// A position as plain values.
pub struct PositionView {
    pub coin: Seq<char>,
    pub direction: Direction,
    pub size: int,
    pub entry_price: int,
    pub unrealized_pnl: int,
}

/// The positions of a list as plain values.
pub open spec fn position_views(s: Seq<Position>) -> Seq<PositionView> {
    Seq::new(
        s.len(),
        |i: int|
            PositionView {
                coin: s[i].coin@,
                direction: s[i].direction,
                size: s[i].size as int,
                entry_price: s[i].entry_price as int,
                unrealized_pnl: s[i].unrealized_pnl as int,
            },
    )
}

/// The quantity that an optional text writes; zero where it writes none.
pub open spec fn text_amount(t: Option<Seq<char>>) -> int {
    match t {
        Some(s) => match parse_decimal_spec(encode_utf8(s)) {
            Some(v) => v,
            None => 0,
        },
        None => 0,
    }
}

/// The position that an entry of the account state stands for: none for a
/// size of zero.
pub open spec fn position_of_entry(entry: Json) -> Option<PositionView> {
    let pos = entry.member("position"@);
    let sz = text_amount(text_of(member_of(pos, "szi"@)));
    if sz == 0 {
        None
    } else {
        Some(
            PositionView {
                coin: match text_of(member_of(pos, "coin"@)) {
                    Some(c) => c,
                    None => Seq::empty(),
                },
                direction: if sz > 0 {
                    Direction::Long
                } else {
                    Direction::Short
                },
                size: if sz > 0 {
                    sz
                } else {
                    -sz
                },
                entry_price: text_amount(text_of(member_of(pos, "entryPx"@))),
                unrealized_pnl: text_amount(text_of(member_of(pos, "unrealizedPnl"@))),
            },
        )
    }
}

/// The positions that the entries of a list stand for.
pub open spec fn positions_in(entries: Seq<Json>) -> Seq<PositionView>
    decreases entries.len(),
{
    if entries.len() == 0 {
        Seq::empty()
    } else {
        match position_of_entry(entries.last()) {
            Some(p) => positions_in(entries.drop_last()).push(p),
            None => positions_in(entries.drop_last()),
        }
    }
}

/// The positions of the venue's account state; none where it lists none.
pub open spec fn positions_of_state(data: Json) -> Seq<PositionView> {
    match data.member("assetPositions"@) {
        Some(list) => match list.items() {
            Some(entries) => positions_in(entries),
            None => Seq::empty(),
        },
        None => Seq::empty(),
    }
}

/// Reads one entry of the account state's positions.
pub fn read_position(entry: &Json) -> (r: Option<Position>)
    ensures
        match position_of_entry(*entry) {
            Some(v) => r matches Some(p) && position_views(seq![p])[0] == v && p.margin_used == 0
                && p.leverage == 0 && p.tp_price == 0 && p.sl_price == 0 && p.liquidation_price
                == 0 && p.entry_time == 0,
            None => r is None,
        },
{
    proof {
        reveal_strlit("");
        assert(""@ =~= Seq::<char>::empty());
    }
    match entry.get("position") {
        Some(pos) => {
            let coin = match text_at(pos, "coin") {
                Some(c) => c,
                None => "",
            };
            position_from_wire(
                coin,
                text_at(pos, "szi"),
                text_at(pos, "entryPx"),
                text_at(pos, "unrealizedPnl"),
            )
        },
        None => None,
    }
}

/// Reads the positions of the venue's account state.
pub fn read_positions(data: &Json) -> (r: Vec<Position>)
    ensures
        position_views(r@) == positions_of_state(*data),
        forall|i: int| 0 <= i < r@.len() ==> 0 < (#[trigger] r@[i]).size,
{
    let mut out: Vec<Position> = Vec::new();
    let entries = match data.get("assetPositions") {
        Some(list) => match list.as_array() {
            Some(entries) => entries,
            None => {
                proof {
                    assert(position_views(out@) =~= positions_of_state(*data));
                }
                return out;
            },
        },
        None => {
            proof {
                assert(position_views(out@) =~= positions_of_state(*data));
            }
            return out;
        },
    };
    let mut i: usize = 0;
    assert(entries@.subrange(0, 0) =~= Seq::<Json>::empty());
    assert(position_views(out@) =~= positions_in(entries@.subrange(0, 0)));
    while i < entries.len()
        invariant
            i <= entries@.len(),
            position_views(out@) == positions_in(entries@.subrange(0, i as int)),
            forall|k: int| 0 <= k < out@.len() ==> 0 < (#[trigger] out@[k]).size,
        decreases entries@.len() - i,
    {
        proof {
            let next = entries@.subrange(0, i as int + 1);
            assert(next.drop_last() =~= entries@.subrange(0, i as int));
            assert(next.last() == entries@[i as int]);
        }
        match read_position(&entries[i]) {
            Some(p) => {
                let ghost prior = out@;
                let ghost view = position_views(seq![p])[0];
                out.push(p);
                proof {
                    assert(position_views(out@) =~= position_views(prior).push(view));
                }
            },
            None => {},
        }
        i += 1;
    }
    proof {
        assert(entries@.subrange(0, entries@.len() as int) =~= entries@);
    }
    out
}

/// The mids after one member of the venue's answer: a member whose value is
/// a decimal text sets the mid of its coin.
pub open spec fn mids_with(mids: Map<Seq<char>, i64>, m: JsonMember) -> Map<Seq<char>, i64> {
    match m.value.text() {
        Some(t) => match parse_decimal_spec(encode_utf8(t)) {
            Some(v) => mids.insert(m.key@, v as i64),
            None => mids,
        },
        None => mids,
    }
}

/// The mids that the members of an object give, in order.
pub open spec fn mids_in(members: Seq<JsonMember>) -> Map<Seq<char>, i64>
    decreases members.len(),
{
    if members.len() == 0 {
        Map::empty()
    } else {
        mids_with(mids_in(members.drop_last()), members.last())
    }
}

/// The mids of the venue's answer; none where it is no object.
pub open spec fn mids_of(data: Json) -> Map<Seq<char>, i64> {
    match data {
        Json::Object(members) => mids_in(members@),
        _ => Map::empty(),
    }
}

/// Reads the mids of all coins.
pub fn read_mids(data: &Json) -> (r: CoinMap<i64>)
    ensures
        r.wf(),
        r@ == mids_of(*data),
{
    let mut out: CoinMap<i64> = CoinMap::new();
    match data {
        Json::Object(members) => {
            let mut i: usize = 0;
            assert(members@.subrange(0, 0) =~= Seq::<JsonMember>::empty());
            while i < members.len()
                invariant
                    i <= members@.len(),
                    out.wf(),
                    out@ == mids_in(members@.subrange(0, i as int)),
                decreases members@.len() - i,
            {
                proof {
                    let next = members@.subrange(0, i as int + 1);
                    assert(next.drop_last() =~= members@.subrange(0, i as int));
                    assert(next.last() == members@[i as int]);
                }
                match members[i].value.as_str() {
                    Some(t) => match parse_decimal(t) {
                        Some(v) => {
                            out.insert(members[i].key.as_str(), v);
                        },
                        None => {},
                    },
                    None => {},
                }
                i += 1;
            }
            proof {
                assert(members@.subrange(0, members@.len() as int) =~= members@);
            }
        },
        _ => {},
    }
    out
}

/// The error text that a status entry carries, where it carries one.
pub open spec fn entry_error(entry: Json) -> Option<Seq<char>> {
    text_of(entry.member("error"@))
}

/// The first error text among status entries; none where no entry carries
/// one.
pub open spec fn first_error_in(statuses: Seq<Json>) -> Option<Seq<char>>
    decreases statuses.len(),
{
    if statuses.len() == 0 {
        None
    } else {
        match entry_error(statuses[0]) {
            Some(e) => Some(e),
            None => first_error_in(statuses.drop_first()),
        }
    }
}

/// The first error among status entries is the error of the entry before
/// which no entry carries one.
pub proof fn lemma_first_error(statuses: Seq<Json>, i: int)
    requires
        0 <= i <= statuses.len(),
        forall|j: int| 0 <= j < i ==> entry_error(#[trigger] statuses[j]) is None,
        i < statuses.len() ==> entry_error(statuses[i]) is Some,
    ensures
        first_error_in(statuses) == (if i < statuses.len() {
            entry_error(statuses[i])
        } else {
            None
        }),
    decreases i,
{
    if i > 0 {
        let rest = statuses.drop_first();
        assert forall|j: int| 0 <= j < i - 1 implies entry_error(#[trigger] rest[j]) is None by {
            assert(rest[j] == statuses[j + 1]);
        }
        if i < statuses.len() {
            assert(rest[i - 1] == statuses[i]);
        }
        lemma_first_error(rest, i - 1);
    }
}

/// Status entries give no error exactly when none of them carries one.
pub proof fn lemma_no_error_iff_none(statuses: Seq<Json>)
    ensures
        first_error_in(statuses) is None <==> forall|j: int|
            0 <= j < statuses.len() ==> entry_error(#[trigger] statuses[j]) is None,
    decreases statuses.len(),
{
    if statuses.len() > 0 {
        let rest = statuses.drop_first();
        lemma_no_error_iff_none(rest);
        if entry_error(statuses[0]) is None {
            if first_error_in(rest) is None {
                assert forall|j: int| 0 <= j < statuses.len() implies entry_error(
                    #[trigger] statuses[j],
                ) is None by {
                    if j > 0 {
                        assert(rest[j - 1] == statuses[j]);
                    }
                }
            } else {
                let j = choose|j: int| 0 <= j < rest.len() && !(entry_error(#[trigger] rest[j]) is None);
                assert(rest[j] == statuses[j + 1]);
            }
        }
    }
}

/// The per-order statuses of the venue's answer: the entries of
/// `response.data.statuses`; none where the answer has no such list.
pub open spec fn statuses_of(data: Json) -> Seq<Json> {
    match member_of(member_of(data.member("response"@), "data"@), "statuses"@) {
        Some(list) => match list.items() {
            Some(items) => items,
            None => Seq::empty(),
        },
        None => Seq::empty(),
    }
}

/// Reads the first error text among status entries.
pub fn read_status_error(statuses: &Vec<Json>) -> (r: Option<String>)
    ensures
        (match r {
            Some(e) => Some(e@),
            None => None,
        }) == first_error_in(statuses@),
{
    let mut i: usize = 0;
    while i < statuses.len()
        invariant
            i <= statuses@.len(),
            forall|j: int| 0 <= j < i ==> entry_error(#[trigger] statuses@[j]) is None,
        decreases statuses@.len() - i,
    {
        match text_at(&statuses[i], "error") {
            Some(e) => {
                proof {
                    lemma_first_error(statuses@, i as int);
                }
                return Some(String::from_str(e));
            },
            None => {},
        }
        i += 1;
    }
    proof {
        lemma_first_error(statuses@, statuses@.len() as int);
    }
    None
}

impl ExchangeReply {
    /// Reads the venue's answer to a signed action; `response_json` is the
    /// answer's `response` written as JSON. The status error is the first
    /// error text among all entries of the per-order statuses.
    pub fn from_json(data: &Json, response_json: String) -> (r: ExchangeReply)
        ensures
            r.response_json == response_json,
            (match r.status {
                Some(s) => Some(s@),
                None => None,
            }) == text_of(data.member("status"@)),
            (match r.status_error {
                Some(s) => Some(s@),
                None => None,
            }) == first_error_in(statuses_of(*data)),
    {
        let response = data.get("response");
        let inner = match response {
            Some(r) => r.get("data"),
            None => None,
        };
        let status_error: Option<String> = match inner {
            Some(d) => match d.get("statuses") {
                Some(list) => match list.as_array() {
                    Some(items) => read_status_error(items),
                    None => None,
                },
                None => None,
            },
            None => None,
        };
        ExchangeReply {
            status: match text_at(data, "status") {
                Some(s) => Some(String::from_str(s)),
                None => None,
            },
            response_json,
            status_error,
        }
    }
}

/// The outcome of placing an order as the venue's answer gives it: an
/// invalid-order error on an error status and where any entry of the
/// per-order statuses carries an error text; else the receipt.
pub fn order_result_of(data: &Json, response_json: String, receipt: TradeAction) -> (r: Result<
    TradeAction,
    OrderError,
>)
    ensures
        r is Ok <==> (!(text_of(data.member("status"@)) == Some("err"@)) && forall|j: int|
            0 <= j < statuses_of(*data).len() ==> entry_error(#[trigger] statuses_of(*data)[j])
                is None),
        r matches Ok(action) ==> action == receipt,
        r matches Err(e) ==> e is InvalidOrder,
        text_of(data.member("status"@)) == Some("err"@) ==> (r matches Err(
            OrderError::InvalidOrder(t),
        ) && t@ == response_json@),
        !(text_of(data.member("status"@)) == Some("err"@)) && first_error_in(statuses_of(*data))
            is Some ==> (r matches Err(OrderError::InvalidOrder(t)) && Some(t@) == first_error_in(
            statuses_of(*data),
        )),
{
    proof {
        lemma_no_error_iff_none(statuses_of(*data));
    }
    let reply = ExchangeReply::from_json(data, response_json);
    order_result(&reply, receipt)
}

} // verus!
