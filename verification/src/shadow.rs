//! The shadow simulator: grid quotes rest as tracked orders, taker trades
//! wear down their queue, and an order that is likely filled becomes a
//! simulated maker fill.

use vstd::prelude::*;
use vstd::string::*;
use vstd::utf8::encode_utf8;
use crate::decimal::{div_sat, div_sat_spec, mul_sat, mul_sat_spec, sat_add_spec, sat_sub_spec};
use crate::execution::{held, InternalInventory};
use crate::ingestor::Trade;
use crate::market_maker::{
    maker_rebate, LIKELY_FILLED, GridQuote, QueueEntry, QueuePositionEstimator, ShadowFill,
    ShadowSession, Side,
};
use crate::quoting::{is_taker_buy, shadow_key, shadow_key_spec};
use crate::wire::{parse_decimal, parse_decimal_spec};

verus! {

/// The tracked order that a quote becomes when it is registered at `now`.
pub open spec fn entry_of(q: GridQuote, now_ms: u64) -> QueueEntry {
    QueueEntry {
        price: q.price,
        is_bid: q.side == Side::Bid,
        size_usd: q.size_usd,
        volume_traded_through: 0,
        placed_at_ms: now_ms,
    }
}

/// The tracked orders after a quote is registered: a quote that is already
/// tracked keeps its order.
pub open spec fn registered_one(
    orders: Map<Seq<char>, QueueEntry>,
    coin: Seq<char>,
    q: GridQuote,
    now_ms: u64,
) -> Map<Seq<char>, QueueEntry> {
    let key = shadow_key_spec(coin, q.side, q.layer);
    if orders.contains_key(key) {
        orders
    } else {
        orders.insert(key, entry_of(q, now_ms))
    }
}

/// The tracked orders after a list of quotes is registered, in order.
pub open spec fn registered(
    orders: Map<Seq<char>, QueueEntry>,
    coin: Seq<char>,
    quotes: Seq<GridQuote>,
    now_ms: u64,
) -> Map<Seq<char>, QueueEntry>
    decreases quotes.len(),
{
    if quotes.len() == 0 {
        orders
    } else {
        registered_one(registered(orders, coin, quotes.drop_last(), now_ms), coin, quotes.last(), now_ms)
    }
}

/// Registers the quotes of a coin that are not tracked yet.
pub fn register_quotes(
    estimator: &mut QueuePositionEstimator,
    coin: &str,
    quotes: &Vec<GridQuote>,
    now_ms: u64,
)
    requires
        old(estimator).wf(),
        forall|i: int| 0 <= i < quotes@.len() ==> (#[trigger] quotes@[i]).size_usd > 0,
    ensures
        final(estimator).wf(),
        final(estimator)@ == registered(old(estimator)@, coin@, quotes@, now_ms),
{
    let mut i: usize = 0;
    assert(quotes@.subrange(0, 0) =~= Seq::<GridQuote>::empty());
    while i < quotes.len()
        invariant
            i <= quotes@.len(),
            estimator.wf(),
            forall|k: int| 0 <= k < quotes@.len() ==> (#[trigger] quotes@[k]).size_usd > 0,
            estimator@ == registered(old(estimator)@, coin@, quotes@.subrange(0, i as int), now_ms),
        decreases quotes@.len() - i,
    {
        proof {
            let next = quotes@.subrange(0, i as int + 1);
            assert(next.drop_last() =~= quotes@.subrange(0, i as int));
            assert(next.last() == quotes@[i as int]);
        }
        let q = quotes[i];
        let key = shadow_key(coin, q.side, q.layer);
        if !estimator.is_registered(key.as_str()) {
            let is_bid = match q.side {
                Side::Bid => true,
                Side::Ask => false,
            };
            estimator.register_order(key.as_str(), q.price, is_bid, q.size_usd, now_ms);
        }
        i += 1;
    }
    assert(quotes@.subrange(0, quotes@.len() as int) =~= quotes@);
}

/// A taker trade as plain values.
#[derive(Clone, Copy, Debug)]
pub struct TakerTrade {
    pub time: u64,
    pub is_buy: bool,
    pub price: i64,
    /// Size in coins.
    pub size: i64,
    /// Price times size.
    pub volume_usd: i64,
}

/// The quantity a text writes; zero where it does not read as a decimal.
pub open spec fn amount_of(text: Seq<char>) -> int {
    match parse_decimal_spec(encode_utf8(text)) {
        Some(v) => v,
        None => 0,
    }
}

/// Reads a trade of the feed: a side of `B` is a taker buy; a price or
/// size that does not read counts as zero.
pub fn taker_trade(trade: &Trade) -> (t: TakerTrade)
    ensures
        t.time == trade.time,
        t.is_buy == (trade.side@ == "B"@),
        t.price == amount_of(trade.px@),
        t.size == amount_of(trade.sz@),
        t.volume_usd == mul_sat_spec(amount_of(trade.px@), amount_of(trade.sz@)),
{
    let px: i64 = match parse_decimal(trade.px.as_str()) {
        Some(v) => v,
        None => 0,
    };
    let sz: i64 = match parse_decimal(trade.sz.as_str()) {
        Some(v) => v,
        None => 0,
    };
    TakerTrade {
        time: trade.time,
        is_buy: is_taker_buy(trade.side.as_str()),
        price: px,
        size: sz,
        volume_usd: mul_sat(px, sz),
    }
}

/// The tracked orders after a trade meets the order under a key.
pub open spec fn traded_key(
    orders: Map<Seq<char>, QueueEntry>,
    key: Seq<char>,
    t: TakerTrade,
) -> Map<Seq<char>, QueueEntry> {
    if orders.contains_key(key) {
        orders.insert(key, orders[key].after_trade(t.price as int, t.is_buy, t.volume_usd as int))
    } else {
        orders
    }
}

/// The tracked orders after a trade meets the bid and the ask of a layer.
pub open spec fn traded_layer(
    orders: Map<Seq<char>, QueueEntry>,
    coin: Seq<char>,
    layer: u8,
    t: TakerTrade,
) -> Map<Seq<char>, QueueEntry> {
    traded_key(
        traded_key(orders, shadow_key_spec(coin, Side::Bid, layer), t),
        shadow_key_spec(coin, Side::Ask, layer),
        t,
    )
}

/// Whether a trade is fed: it is newer than the watermark and its volume is
/// not negative.
pub open spec fn is_fresh_trade(t: TakerTrade, watermark_ms: u64) -> bool {
    t.time > watermark_ms && t.volume_usd >= 0
}

/// The tracked orders after one trade: a trade that is fed meets the
/// orders of all three layers of its coin.
pub open spec fn fed_one(
    orders: Map<Seq<char>, QueueEntry>,
    coin: Seq<char>,
    t: TakerTrade,
    watermark_ms: u64,
) -> Map<Seq<char>, QueueEntry> {
    if is_fresh_trade(t, watermark_ms) {
        traded_layer(traded_layer(traded_layer(orders, coin, 1, t), coin, 2, t), coin, 3, t)
    } else {
        orders
    }
}

/// The tracked orders after a list of trades, in order.
pub open spec fn fed(
    orders: Map<Seq<char>, QueueEntry>,
    coin: Seq<char>,
    trades: Seq<TakerTrade>,
    watermark_ms: u64,
) -> Map<Seq<char>, QueueEntry>
    decreases trades.len(),
{
    if trades.len() == 0 {
        orders
    } else {
        fed_one(fed(orders, coin, trades.drop_last(), watermark_ms), coin, trades.last(), watermark_ms)
    }
}

/// The watermark after a list of trades: the latest time among those newer
/// than it, or itself.
pub open spec fn watermark_after(trades: Seq<TakerTrade>, watermark_ms: u64) -> u64
    decreases trades.len(),
{
    if trades.len() == 0 {
        watermark_ms
    } else {
        let before = watermark_after(trades.drop_last(), watermark_ms);
        if trades.last().time > before {
            trades.last().time
        } else {
            before
        }
    }
}

/// The watermark after a list of trades is at least the one before and at
/// least the time of each of them.
pub proof fn lemma_watermark_covers(trades: Seq<TakerTrade>, watermark_ms: u64)
    ensures
        watermark_after(trades, watermark_ms) >= watermark_ms,
        forall|i: int|
            0 <= i < trades.len() ==> (#[trigger] trades[i]).time <= watermark_after(
                trades,
                watermark_ms,
            ),
    decreases trades.len(),
{
    if trades.len() > 0 {
        lemma_watermark_covers(trades.drop_last(), watermark_ms);
        assert forall|i: int| 0 <= i < trades.len() implies (#[trigger] trades[i]).time
            <= watermark_after(trades, watermark_ms) by {
            if i < trades.len() - 1 {
                assert(trades.drop_last()[i] == trades[i]);
            }
        }
    }
}

/// No trade is fed twice: feeding trades that all lie at or before the
/// watermark changes nothing, and so does feeding a list again from the
/// watermark that its first feeding gave.
pub proof fn lemma_no_trade_fed_twice(
    orders: Map<Seq<char>, QueueEntry>,
    coin: Seq<char>,
    trades: Seq<TakerTrade>,
    watermark_ms: u64,
)
    ensures
        (forall|i: int| 0 <= i < trades.len() ==> (#[trigger] trades[i]).time <= watermark_ms)
            ==> fed(orders, coin, trades, watermark_ms) == orders,
        fed(orders, coin, trades, watermark_after(trades, watermark_ms)) == orders,
    decreases trades.len(),
{
    lemma_watermark_covers(trades, watermark_ms);
    lemma_stale_trades_feed_nothing(orders, coin, trades, watermark_ms);
    lemma_stale_trades_feed_nothing(orders, coin, trades, watermark_after(trades, watermark_ms));
}

/// Trades at or before the watermark change nothing.
pub proof fn lemma_stale_trades_feed_nothing(
    orders: Map<Seq<char>, QueueEntry>,
    coin: Seq<char>,
    trades: Seq<TakerTrade>,
    watermark_ms: u64,
)
    ensures
        (forall|i: int| 0 <= i < trades.len() ==> (#[trigger] trades[i]).time <= watermark_ms)
            ==> fed(orders, coin, trades, watermark_ms) == orders,
    decreases trades.len(),
{
    if trades.len() > 0 {
        lemma_stale_trades_feed_nothing(orders, coin, trades.drop_last(), watermark_ms);
        if forall|i: int| 0 <= i < trades.len() ==> (#[trigger] trades[i]).time <= watermark_ms {
            assert forall|i: int| 0 <= i < trades.drop_last().len() implies (
            #[trigger] trades.drop_last()[i]).time <= watermark_ms by {
                assert(trades.drop_last()[i] == trades[i]);
            }
            assert(trades.last() == trades[trades.len() - 1]);
        }
    }
}

/// Feeds the trades of a coin that are newer than its watermark to the
/// coin's tracked orders, and returns the new watermark.
pub fn feed_trades(
    estimator: &mut QueuePositionEstimator,
    coin: &str,
    trades: &Vec<TakerTrade>,
    watermark_ms: u64,
) -> (new_watermark_ms: u64)
    requires
        old(estimator).wf(),
    ensures
        final(estimator).wf(),
        final(estimator)@ == fed(old(estimator)@, coin@, trades@, watermark_ms),
        new_watermark_ms == watermark_after(trades@, watermark_ms),
{
    let mut latest: u64 = watermark_ms;
    let mut i: usize = 0;
    assert(trades@.subrange(0, 0) =~= Seq::<TakerTrade>::empty());
    while i < trades.len()
        invariant
            i <= trades@.len(),
            estimator.wf(),
            estimator@ == fed(old(estimator)@, coin@, trades@.subrange(0, i as int), watermark_ms),
            latest == watermark_after(trades@.subrange(0, i as int), watermark_ms),
        decreases trades@.len() - i,
    {
        proof {
            let next = trades@.subrange(0, i as int + 1);
            assert(next.drop_last() =~= trades@.subrange(0, i as int));
            assert(next.last() == trades@[i as int]);
        }
        let t = trades[i];
        if t.time > watermark_ms && t.volume_usd >= 0 {
            let mut layer: u8 = 1;
            let ghost start = estimator@;
            while layer <= 3
                invariant
                    1 <= layer <= 4,
                    estimator.wf(),
                    t.volume_usd >= 0,
                    estimator@ == (if layer == 1 {
                        start
                    } else if layer == 2 {
                        traded_layer(start, coin@, 1, t)
                    } else if layer == 3 {
                        traded_layer(traded_layer(start, coin@, 1, t), coin@, 2, t)
                    } else {
                        traded_layer(
                            traded_layer(traded_layer(start, coin@, 1, t), coin@, 2, t),
                            coin@,
                            3,
                            t,
                        )
                    }),
                decreases 4 - layer,
            {
                let bid_key = shadow_key(coin, Side::Bid, layer);
                estimator.on_trade(bid_key.as_str(), t.price, t.is_buy, t.volume_usd);
                let ask_key = shadow_key(coin, Side::Ask, layer);
                estimator.on_trade(ask_key.as_str(), t.price, t.is_buy, t.volume_usd);
                layer = layer + 1;
            }
        }
        if t.time > latest {
            latest = t.time;
        }
        i += 1;
    }
    assert(trades@.subrange(0, trades@.len() as int) =~= trades@);
    latest
}

/// A simulated fill as plain values.
pub struct ShadowFillView {
    pub coin: Seq<char>,
    pub side: Side,
    pub layer: u8,
    pub price: i64,
    pub size_usd: i64,
    pub fill_ts_ms: u64,
    pub maker_rebate_usd: i64,
}

/// The simulated fills of a list as plain values.
pub open spec fn fill_views(fills: Seq<ShadowFill>) -> Seq<ShadowFillView> {
    Seq::new(
        fills.len(),
        |i: int|
            ShadowFillView {
                coin: fills[i].coin@,
                side: fills[i].side,
                layer: fills[i].layer,
                price: fills[i].price,
                size_usd: fills[i].size_usd,
                fill_ts_ms: fills[i].fill_ts_ms,
                maker_rebate_usd: fills[i].maker_rebate_usd,
            },
    )
}

/// What settling changes: the tracked orders, the ledger and the session.
pub struct Settlement {
    pub orders: Map<Seq<char>, QueueEntry>,
    pub positions: Map<Seq<char>, i64>,
    pub fills: Seq<ShadowFillView>,
    pub total_volume_usd: int,
    pub total_rebates_usd: int,
    pub total_pnl_usd: int,
}

/// Whether the order of a quote is likely filled: it is tracked and its
/// fill probability has reached 0.70.
pub open spec fn is_filled(orders: Map<Seq<char>, QueueEntry>, coin: Seq<char>, q: GridQuote) -> bool {
    let key = shadow_key_spec(coin, q.side, q.layer);
    orders.contains_key(key) && orders[key].fill_probability() >= LIKELY_FILLED
}

/// The state after one quote is settled: where its order is likely filled
/// the fill is booked with its rebate, the order is no longer tracked, and
/// the ledger takes the fill's size in coins, a bid as a buy and an ask as
/// a sell.
pub open spec fn settled_one(s: Settlement, coin: Seq<char>, q: GridQuote, mid: int, now_ms: u64) -> Settlement {
    if is_filled(s.orders, coin, q) {
        let size_coins = div_sat_spec(q.size_usd as int, mid);
        let rebate = maker_rebate(q.size_usd as int);
        Settlement {
            orders: s.orders.remove(shadow_key_spec(coin, q.side, q.layer)),
            positions: s.positions.insert(
                coin,
                (if q.side == Side::Bid {
                    sat_add_spec(held(s.positions, coin), size_coins)
                } else {
                    sat_sub_spec(held(s.positions, coin), size_coins)
                }) as i64,
            ),
            fills: s.fills.push(
                ShadowFillView {
                    coin,
                    side: q.side,
                    layer: q.layer,
                    price: q.price,
                    size_usd: q.size_usd,
                    fill_ts_ms: now_ms,
                    maker_rebate_usd: rebate as i64,
                },
            ),
            total_volume_usd: sat_add_spec(s.total_volume_usd, q.size_usd as int),
            total_rebates_usd: sat_add_spec(s.total_rebates_usd, rebate),
            total_pnl_usd: sat_add_spec(s.total_pnl_usd, rebate),
        }
    } else {
        s
    }
}

/// The state after a list of quotes is settled, in order.
pub open spec fn settled(
    s: Settlement,
    coin: Seq<char>,
    quotes: Seq<GridQuote>,
    mid: int,
    now_ms: u64,
) -> Settlement
    decreases quotes.len(),
{
    if quotes.len() == 0 {
        s
    } else {
        settled_one(settled(s, coin, quotes.drop_last(), mid, now_ms), coin, quotes.last(), mid, now_ms)
    }
}

/// The settling state that estimator, ledger and session stand for.
pub open spec fn settlement_of(
    estimator: QueuePositionEstimator,
    inventory: InternalInventory,
    session: ShadowSession,
) -> Settlement {
    Settlement {
        orders: estimator@,
        positions: inventory@,
        fills: fill_views(session.fills@),
        total_volume_usd: session.total_volume_usd as int,
        total_rebates_usd: session.total_rebates_usd as int,
        total_pnl_usd: session.total_pnl_usd as int,
    }
}

/// Settles the quotes of a coin: each whose tracked order is likely filled
/// becomes a simulated maker fill.
pub fn settle_fills(
    estimator: &mut QueuePositionEstimator,
    inventory: &mut InternalInventory,
    session: &mut ShadowSession,
    coin: &str,
    quotes: &Vec<GridQuote>,
    mid: i64,
    now_ms: u64,
)
    requires
        old(estimator).wf(),
        old(inventory).wf(),
        mid > 0,
    ensures
        final(estimator).wf(),
        final(inventory).wf(),
        final(inventory).open_orders == old(inventory).open_orders,
        settlement_of(*final(estimator), *final(inventory), *final(session)) == settled(
            settlement_of(*old(estimator), *old(inventory), *old(session)),
            coin@,
            quotes@,
            mid as int,
            now_ms,
        ),
{
    let ghost start = settlement_of(*estimator, *inventory, *session);
    let mut i: usize = 0;
    assert(quotes@.subrange(0, 0) =~= Seq::<GridQuote>::empty());
    while i < quotes.len()
        invariant
            i <= quotes@.len(),
            estimator.wf(),
            inventory.wf(),
            mid > 0,
            inventory.open_orders == old(inventory).open_orders,
            settlement_of(*estimator, *inventory, *session) == settled(
                start,
                coin@,
                quotes@.subrange(0, i as int),
                mid as int,
                now_ms,
            ),
        decreases quotes@.len() - i,
    {
        proof {
            let next = quotes@.subrange(0, i as int + 1);
            assert(next.drop_last() =~= quotes@.subrange(0, i as int));
            assert(next.last() == quotes@[i as int]);
        }
        let q = quotes[i];
        let key = shadow_key(coin, q.side, q.layer);
        if estimator.is_likely_filled(key.as_str(), LIKELY_FILLED) {
            let ghost before = settlement_of(*estimator, *inventory, *session);
            let ghost fills_before = session.fills@;
            let fill = ShadowFill::new(coin, &q, now_ms);
            session.record_fill(fill);
            estimator.remove(key.as_str());
            let is_buy = match q.side {
                Side::Bid => true,
                Side::Ask => false,
            };
            inventory.apply_fill(coin, is_buy, div_sat(q.size_usd, mid));
            proof {
                assert(fill_views(session.fills@) =~= fill_views(fills_before).push(
                    ShadowFillView {
                        coin: coin@,
                        side: q.side,
                        layer: q.layer,
                        price: q.price,
                        size_usd: q.size_usd,
                        fill_ts_ms: now_ms,
                        maker_rebate_usd: maker_rebate(q.size_usd as int) as i64,
                    },
                ));
                assert(settlement_of(*estimator, *inventory, *session) == settled_one(
                    before,
                    coin@,
                    q,
                    mid as int,
                    now_ms,
                ));
            }
        }
        i += 1;
    }
    assert(quotes@.subrange(0, quotes@.len() as int) =~= quotes@);
}

} // verus!
