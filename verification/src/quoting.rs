//! The per-tick quoting decisions: which side the inventory guard
//! suppresses, when a coin's orders are refreshed, when resting orders are
//! kept, and what a grid costs.

use vstd::prelude::*;
use vstd::string::*;
use vstd::utf8::encode_utf8;
use crate::coin_map::CoinMap;
use crate::decimal::{
    abs_i64, abs_spec, div_sat, div_sat_spec, mul_sat, mul_sat_spec, sat_add, sat_add_spec,
};
use crate::live::OpenOrder;
use crate::market_maker::{BPS_DENOM, GridQuote, QuoteGrid, Regime, Side};
use crate::text::{name_views, str_eq};
use crate::wire::{
    ascii_string, bytes_as_chars, dec_digits, lemma_dec_digits, parse_decimal, parse_decimal_spec,
    push_decimal,
};

verus! {

/// Milliseconds between two refreshes of one coin's live orders.
pub const REFRESH_INTERVAL_MS: u64 = 30_000;

/// Milliseconds between two global reconciliations.
pub const RECONCILE_INTERVAL_MS: u64 = 120_000;

/// Milliseconds of one tick of the quoting loop.
pub const TICK_MS: u64 = 100;

/// Whether a coin is quoted this tick at all: not while the engine is
/// halted, nor in a halted regime of the governor or of the coin.
pub fn quoting_allowed(engine_halted: bool, governor_halt: bool, regime: Regime) -> (r: bool)
    ensures
        r == (!engine_halted && !governor_halt && regime != Regime::Halt),
{
    !engine_halted && !governor_halt && !crate::market_maker::regime_eq(regime, Regime::Halt)
}

/// Inventory in USD: the position in coins times the mid.
pub fn inventory_usd(inv_coins: i64, mid: i64) -> (r: i64)
    ensures
        r == mul_sat_spec(inv_coins as int, mid as int),
{
    mul_sat(inv_coins, mid)
}

/// The sides that the inventory guard suppresses, bids first.
pub open spec fn inventory_guard_spec(inv_coins: int, mid: int, max_inv_usd: int) -> (bool, bool) {
    let over = abs_spec(mul_sat_spec(inv_coins, mid)) > max_inv_usd;
    (over && inv_coins > 0, over && inv_coins < 0)
}

/// The inventory guard: with the inventory beyond its cap, the side that
/// would grow it is suppressed: bids when long, asks when short.
pub fn inventory_guard(inv_coins: i64, mid: i64, max_inv_usd: i64) -> (r: (bool, bool))
    ensures
        r == inventory_guard_spec(inv_coins as int, mid as int, max_inv_usd as int),
{
    let inv_usd_abs: u64 = abs_i64(mul_sat(inv_coins, mid));
    let over = max_inv_usd < 0 || inv_usd_abs > max_inv_usd as u64;
    (over && inv_coins > 0, over && inv_coins < 0)
}

/// Whether a coin's live orders are due for a refresh: thirty seconds after
/// the last one.
pub fn refresh_due(now_ms: u64, last_refresh_ms: u64) -> (r: bool)
    ensures
        r == (now_ms >= last_refresh_ms && now_ms - last_refresh_ms >= REFRESH_INTERVAL_MS),
{
    now_ms >= last_refresh_ms && now_ms - last_refresh_ms >= REFRESH_INTERVAL_MS
}

/// Whether the global reconciliation is due: more than two minutes after
/// the last one.
pub fn reconcile_due(now_ms: u64, last_reconcile_ms: u64) -> (r: bool)
    ensures
        r == (now_ms >= last_reconcile_ms && now_ms - last_reconcile_ms > RECONCILE_INTERVAL_MS),
{
    now_ms >= last_reconcile_ms && now_ms - last_reconcile_ms > RECONCILE_INTERVAL_MS
}

/// Per-coin clocks of the quoting loop: when each coin's orders were last
/// refreshed, and up to which time its trades were fed to the queue
/// estimator.
pub struct QuoteClock {
    pub last_refresh_ms: CoinMap<u64>,
    pub trade_watermark_ms: CoinMap<u64>,
}

/// The time a clock holds for a coin; zero where it holds none.
pub open spec fn time_of(clock: Map<Seq<char>, u64>, coin: Seq<char>) -> u64 {
    if clock.contains_key(coin) {
        clock[coin]
    } else {
        0
    }
}

impl QuoteClock {
    pub open spec fn wf(&self) -> bool {
        self.last_refresh_ms.wf() && self.trade_watermark_ms.wf()
    }

    /// Clocks that have seen nothing yet.
    pub fn new() -> (c: Self)
        ensures
            c.wf(),
            c.last_refresh_ms@ == Map::<Seq<char>, u64>::empty(),
            c.trade_watermark_ms@ == Map::<Seq<char>, u64>::empty(),
    {
        QuoteClock { last_refresh_ms: CoinMap::new(), trade_watermark_ms: CoinMap::new() }
    }

    /// Asks for a refresh of a coin's orders at `now_ms`: where one is due,
    /// the time is noted and the refresh goes ahead.
    pub fn begin_refresh(&mut self, coin: &str, now_ms: u64) -> (due: bool)
        requires
            old(self).wf(),
        ensures
            final(self).wf(),
            final(self).trade_watermark_ms == old(self).trade_watermark_ms,
            due == (now_ms >= time_of(old(self).last_refresh_ms@, coin@) && now_ms - time_of(
                old(self).last_refresh_ms@,
                coin@,
            ) >= REFRESH_INTERVAL_MS),
            due ==> final(self).last_refresh_ms@ == old(self).last_refresh_ms@.insert(coin@, now_ms),
            !due ==> final(self).last_refresh_ms == old(self).last_refresh_ms,
    {
        let last: u64 = match self.last_refresh_ms.get(coin) {
            Some(t) => *t,
            None => 0,
        };
        if refresh_due(now_ms, last) {
            self.last_refresh_ms.insert(coin, now_ms);
            true
        } else {
            false
        }
    }

    /// The time up to which a coin's trades were fed.
    pub fn watermark(&self, coin: &str) -> (t: u64)
        requires
            self.wf(),
        ensures
            t == time_of(self.trade_watermark_ms@, coin@),
    {
        match self.trade_watermark_ms.get(coin) {
            Some(t) => *t,
            None => 0,
        }
    }

    /// Moves a coin's watermark to `ts`.
    pub fn set_watermark(&mut self, coin: &str, ts: u64)
        requires
            old(self).wf(),
        ensures
            final(self).wf(),
            final(self).last_refresh_ms == old(self).last_refresh_ms,
            final(self).trade_watermark_ms@ == old(self).trade_watermark_ms@.insert(coin@, ts),
    {
        self.trade_watermark_ms.insert(coin, ts);
    }
}

/// The quotes of a grid that are placed: bids, then asks, without the
/// suppressed side.
pub open spec fn live_targets_spec(grid: QuoteGrid, suppress_bids: bool, suppress_asks: bool) -> Seq<
    GridQuote,
> {
    (if suppress_bids {
        Seq::empty()
    } else {
        grid.bids@
    }) + (if suppress_asks {
        Seq::empty()
    } else {
        grid.asks@
    })
}

/// The quotes of a grid that are placed.
pub fn live_targets(grid: &QuoteGrid, suppress_bids: bool, suppress_asks: bool) -> (targets: Vec<
    GridQuote,
>)
    ensures
        targets@ == live_targets_spec(*grid, suppress_bids, suppress_asks),
{
    let mut targets: Vec<GridQuote> = Vec::new();
    if !suppress_bids {
        let mut i: usize = 0;
        while i < grid.bids.len()
            invariant
                i <= grid.bids@.len(),
                targets@ == grid.bids@.subrange(0, i as int),
            decreases grid.bids@.len() - i,
        {
            targets.push(grid.bids[i]);
            assert(targets@ =~= grid.bids@.subrange(0, i as int + 1));
            i += 1;
        }
        assert(grid.bids@.subrange(0, grid.bids@.len() as int) =~= grid.bids@);
    }
    let ghost head = targets@;
    if !suppress_asks {
        let mut i: usize = 0;
        assert(targets@ =~= head + grid.asks@.subrange(0, 0));
        while i < grid.asks.len()
            invariant
                i <= grid.asks@.len(),
                targets@ == head + grid.asks@.subrange(0, i as int),
            decreases grid.asks@.len() - i,
        {
            targets.push(grid.asks[i]);
            assert(targets@ =~= head + grid.asks@.subrange(0, i as int + 1));
            i += 1;
        }
        assert(grid.asks@.subrange(0, grid.asks@.len() as int) =~= grid.asks@);
    } else {
        assert(targets@ =~= head + Seq::<GridQuote>::empty());
    }
    targets
}

/// Distance within which a resting order counts as being at its target:
/// half the base half-spread.
pub open spec fn sticky_threshold_spec(mid: int, base_spread_bps: int) -> int {
    (mid * base_spread_bps) / (2 * BPS_DENOM)
}

/// The sticky threshold of a coin at a mid.
pub fn sticky_threshold(mid: i64, base_spread_bps: i64) -> (r: i64)
    requires
        0 <= mid <= crate::decimal::MAX_RAW,
        0 <= base_spread_bps <= crate::market_maker::MAX_SPREAD_BPS,
    ensures
        r == sticky_threshold_spec(mid as int, base_spread_bps as int),
{
    let q: u128 = crate::decimal::mul_div_floor(
        mid as u64,
        base_spread_bps as u64,
        2 * (BPS_DENOM as u64),
    );
    proof {
        crate::decimal::lemma_mul_bound(
            mid as int,
            crate::decimal::MAX_RAW as int,
            base_spread_bps as int,
            crate::market_maker::MAX_SPREAD_BPS as int,
        );
        crate::decimal::lemma_div_monotone(
            mid as int * base_spread_bps as int,
            crate::decimal::MAX_RAW * crate::market_maker::MAX_SPREAD_BPS,
            2 * BPS_DENOM,
        );
    }
    q as i64
}

/// The wire code of a side: `B` for a bid, `A` for an ask.
pub open spec fn side_code(side: Side) -> Seq<char> {
    if side == Side::Bid {
        "B"@
    } else {
        "A"@
    }
}

/// The limit price of a resting order; zero where it does not read.
pub open spec fn resting_price(o: OpenOrder) -> int {
    match parse_decimal_spec(encode_utf8(o.limit_px@)) {
        Some(v) => v,
        None => 0,
    }
}

/// Whether an order rests on a quote's side within the threshold of its
/// price.
pub open spec fn rests_near(q: GridQuote, o: OpenOrder, threshold: int) -> bool {
    o.side@ == side_code(q.side) && abs_spec(resting_price(o) - q.price) < threshold
}

/// Whether some order rests near a quote.
pub open spec fn has_resting(q: GridQuote, orders: Seq<OpenOrder>, threshold: int) -> bool {
    exists|i: int| 0 <= i < orders.len() && rests_near(q, #[trigger] orders[i], threshold)
}

/// Whether the resting orders already stand for the targets: there are as
/// many orders as targets, and near every target rests an order of its
/// side. With no target and no order this holds.
pub open spec fn is_sticky_spec(
    targets: Seq<GridQuote>,
    orders: Seq<OpenOrder>,
    threshold: int,
) -> bool {
    &&& orders.len() == targets.len()
    &&& forall|t: int| 0 <= t < targets.len() ==> has_resting(#[trigger] targets[t], orders, threshold)
}

/// Whether an order rests near a quote.
pub fn order_rests_near(q: &GridQuote, o: &OpenOrder, threshold: i64) -> (r: bool)
    ensures
        r == rests_near(*q, *o, threshold as int),
{
    let code = match q.side {
        Side::Bid => "B",
        Side::Ask => "A",
    };
    if !str_eq(o.side.as_str(), code) {
        return false;
    }
    let px: i64 = match parse_decimal(o.limit_px.as_str()) {
        Some(v) => v,
        None => 0,
    };
    let diff: i128 = px as i128 - q.price as i128;
    let mag: i128 = if diff < 0 {
        -diff
    } else {
        diff
    };
    mag < threshold as i128
}

/// The sticky check: whether the resting orders are kept as they are, so
/// that they keep their place in the queue.
pub fn is_sticky(targets: &Vec<GridQuote>, orders: &Vec<OpenOrder>, threshold: i64) -> (r: bool)
    ensures
        r == is_sticky_spec(targets@, orders@, threshold as int),
{
    if orders.len() != targets.len() {
        return false;
    }
    let mut t: usize = 0;
    while t < targets.len()
        invariant
            t <= targets@.len(),
            forall|s: int| 0 <= s < t ==> has_resting(#[trigger] targets@[s], orders@, threshold as int),
        decreases targets@.len() - t,
    {
        let mut found = false;
        let mut i: usize = 0;
        while i < orders.len() && !found
            invariant
                i <= orders@.len(),
                t < targets@.len(),
                found ==> has_resting(targets@[t as int], orders@, threshold as int),
                !found ==> forall|k: int|
                    0 <= k < i ==> !rests_near(targets@[t as int], #[trigger] orders@[k], threshold as int),
            decreases orders@.len() - i + (if found {
                0int
            } else {
                1
            }),
        {
            if order_rests_near(&targets[t], &orders[i], threshold) {
                found = true;
            } else {
                i += 1;
            }
        }
        if !found {
            proof {
                assert(!has_resting(targets@[t as int], orders@, threshold as int));
            }
            return false;
        }
        t += 1;
    }
    true
}

/// The sum of the sizes of a list of quotes, held at the ends of the `i64`
/// range.
pub open spec fn notional_sum(quotes: Seq<GridQuote>) -> int
    decreases quotes.len(),
{
    if quotes.len() == 0 {
        0
    } else {
        sat_add_spec(notional_sum(quotes.drop_last()), quotes.last().size_usd as int)
    }
}

/// The sum of the sizes of a list of quotes.
pub fn sum_notional(quotes: &Vec<GridQuote>) -> (r: i64)
    ensures
        r == notional_sum(quotes@),
{
    let mut sum: i64 = 0;
    let mut i: usize = 0;
    assert(quotes@.subrange(0, 0) =~= Seq::<GridQuote>::empty());
    while i < quotes.len()
        invariant
            i <= quotes@.len(),
            sum == notional_sum(quotes@.subrange(0, i as int)),
        decreases quotes@.len() - i,
    {
        proof {
            let next = quotes@.subrange(0, i as int + 1);
            assert(next.drop_last() =~= quotes@.subrange(0, i as int));
            assert(next.last() == quotes@[i as int]);
        }
        sum = sat_add(sum, quotes[i].size_usd);
        i += 1;
    }
    assert(quotes@.subrange(0, quotes@.len() as int) =~= quotes@);
    sum
}

/// The size in coins of a quote of a size in USD at a mid.
pub fn size_in_coins(size_usd: i64, mid: i64) -> (r: i64)
    requires
        mid > 0,
    ensures
        r == div_sat_spec(size_usd as int, mid as int),
{
    div_sat(size_usd, mid)
}

/// Whether a change of the whitelist took a coin away: some coin of the
/// last whitelist is not in the current one.
pub open spec fn coin_removed(last: Seq<Seq<char>>, current: Seq<Seq<char>>) -> bool {
    exists|i: int| 0 <= i < last.len() && !current.contains(#[trigger] last[i])
}

/// Whether the whitelist lost a coin, which calls for a flush of orphaned
/// positions.
pub fn whitelist_contracted(last: &Vec<String>, current: &Vec<String>) -> (r: bool)
    ensures
        r == coin_removed(name_views(last@), name_views(current@)),
{
    let mut i: usize = 0;
    while i < last.len()
        invariant
            i <= last@.len(),
            forall|k: int|
                0 <= k < i ==> name_views(current@).contains(#[trigger] name_views(last@)[k]),
        decreases last@.len() - i,
    {
        if !crate::text::contains_name(current, last[i].as_str()) {
            assert(name_views(last@)[i as int] == last@[i as int]@);
            return true;
        }
        assert(name_views(last@)[i as int] == last@[i as int]@);
        i += 1;
    }
    false
}

/// The key of a shadow order: the coin, the side and the layer, as in
/// `BTC_bid_L1`.
pub open spec fn shadow_key_spec(coin: Seq<char>, side: Side, layer: u8) -> Seq<char> {
    coin + (if side == Side::Bid {
        "_bid_L"@
    } else {
        "_ask_L"@
    }) + bytes_as_chars(dec_digits(layer as nat))
}

/// The key under which a shadow order is tracked.
pub fn shadow_key(coin: &str, side: Side, layer: u8) -> (key: String)
    ensures
        key@ == shadow_key_spec(coin@, side, layer),
{
    let mut digits: Vec<u8> = Vec::new();
    push_decimal(&mut digits, layer as u64);
    proof {
        lemma_dec_digits(layer as nat);
        assert(digits@ =~= dec_digits(layer as nat));
    }
    let number = ascii_string(&digits);
    let middle = match side {
        Side::Bid => "_bid_L",
        Side::Ask => "_ask_L",
    };
    String::from_str(coin).concat(middle).concat(number.as_str())
}

/// Whether a trade's side text tells of a taker buy.
pub fn is_taker_buy(side: &str) -> (r: bool)
    ensures
        r == (side@ == "B"@),
{
    str_eq(side, "B")
}

} // verus!
