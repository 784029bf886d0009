//! Market data: book snapshots, trades and fills as they arrive, the shared
//! buffer that holds the latest of each, and the stall and latency guards.

use std::collections::VecDeque;
use vstd::prelude::*;
use vstd::utf8::encode_utf8;
use crate::coin_map::CoinMap;
use crate::json::{member_of, text_at, text_of, uint_at, uint_of, Json};
use crate::decimal::{clamp_spec, div_trunc, sat_sub, sat_sub_spec};
use crate::window::{push_rolling, rolled};
use crate::wire::{
    ascii_string, bytes_as_chars, dec_digits, lemma_dec_digits, parse_decimal, parse_decimal_spec,
    push_decimal,
};

verus! {

/// Milliseconds without any message after which the feed counts as stalled.
pub const STALL_TIMEOUT_MS: u64 = 30_000;

/// Milliseconds a mid stays in the price history: five minutes.
pub const HISTORY_WINDOW_MS: u64 = 300_000;

/// Trades kept per coin.
pub const TRADE_BUFFER_CAP: usize = 1_000;

/// Private fills kept until they are drained.
pub const USER_FILL_CAP: usize = 500;

/// Latency samples kept.
pub const LATENCY_SAMPLE_CAP: usize = 10_000;

/// P95 latency above which the engine counts as too slow: 50 ms.
pub const TOO_SLOW_US: u64 = 50_000;

/// One price level of the book, as the venue sends it.
#[derive(Debug)]
pub struct L2Level {
    /// Price, as decimal text.
    pub px: String,
    /// Size at the level, as decimal text.
    pub sz: String,
    /// Number of orders at the level.
    pub n: u64,
}

/// The book of one coin at one moment.
#[derive(Debug)]
pub struct L2BookSnapshot {
    pub coin: String,
    /// Bids, best (highest) first.
    pub bids: Vec<L2Level>,
    /// Asks, best (lowest) first.
    pub asks: Vec<L2Level>,
    /// Local receipt time in epoch milliseconds.
    pub received_at_ms: u64,
}

/// The price of the first level of one side, where it reads as a decimal.
pub open spec fn best_price(levels: Seq<L2Level>) -> Option<int> {
    if levels.len() == 0 {
        None
    } else {
        parse_decimal_spec(encode_utf8(levels[0].px@))
    }
}

/// Basis points per unit, as a factor on hundred-millionths.
pub const BPS_FACTOR: i64 = 1_000_000_000_000;

impl L2BookSnapshot {
    /// Mean of best bid and best ask, toward zero.
    pub open spec fn mid_price_spec(&self) -> Option<int> {
        match (best_price(self.bids@), best_price(self.asks@)) {
            (Some(b), Some(a)) => Some(div_trunc(b + a, 2)),
            _ => None,
        }
    }

    /// Best ask minus best bid, held at the ends of the `i64` range.
    pub open spec fn spread_spec(&self) -> Option<int> {
        match (best_price(self.bids@), best_price(self.asks@)) {
            (Some(b), Some(a)) => Some(sat_sub_spec(a, b)),
            _ => None,
        }
    }

    /// Spread over mid in basis points, toward zero and held at the ends of
    /// the `i64` range; none without a positive mid.
    pub open spec fn spread_bps_spec(&self) -> Option<int> {
        match (self.spread_spec(), self.mid_price_spec()) {
            (Some(s), Some(m)) => if m <= 0 {
                None
            } else {
                Some(clamp_spec(div_trunc(s * BPS_FACTOR, m), i64::MIN as int, i64::MAX as int))
            },
            _ => None,
        }
    }

    /// The best price of one side.
    fn best(levels: &Vec<L2Level>) -> (r: Option<i64>)
        ensures
            match best_price(levels@) {
                Some(v) => r == Some(v as i64) && i64::MIN < v <= i64::MAX,
                None => r is None,
            },
    {
        if levels.len() == 0 {
            return None;
        }
        parse_decimal(levels[0].px.as_str())
    }

    /// The mid price: the mean of best bid and best ask.
    pub fn mid_price(&self) -> (r: Option<i64>)
        ensures
            match self.mid_price_spec() {
                Some(v) => r == Some(v as i64),
                None => r is None,
            },
    {
        let bid = match Self::best(&self.bids) {
            Some(b) => b,
            None => {
                return None;
            },
        };
        let ask = match Self::best(&self.asks) {
            Some(a) => a,
            None => {
                return None;
            },
        };
        let sum: i128 = bid as i128 + ask as i128;
        if sum >= 0 {
            Some((sum / 2) as i64)
        } else {
            Some((-((-sum) / 2)) as i64)
        }
    }

    /// The bid-ask spread in price units.
    pub fn spread(&self) -> (r: Option<i64>)
        ensures
            match self.spread_spec() {
                Some(v) => r == Some(v as i64),
                None => r is None,
            },
    {
        let bid = match Self::best(&self.bids) {
            Some(b) => b,
            None => {
                return None;
            },
        };
        let ask = match Self::best(&self.asks) {
            Some(a) => a,
            None => {
                return None;
            },
        };
        Some(sat_sub(ask, bid))
    }

    /// The spread as basis points of the mid.
    pub fn spread_bps(&self) -> (r: Option<i64>)
        ensures
            match self.spread_bps_spec() {
                Some(v) => r == Some(v as i64),
                None => r is None,
            },
    {
        let spread = match self.spread() {
            Some(s) => s,
            None => {
                return None;
            },
        };
        let mid = match self.mid_price() {
            Some(m) => m,
            None => {
                return None;
            },
        };
        if mid <= 0 {
            return None;
        }
        let scaled: i128 = spread as i128 * BPS_FACTOR as i128;
        let q: i128 = if scaled >= 0 {
            scaled / (mid as i128)
        } else {
            -((-scaled) / (mid as i128))
        };
        proof {
            crate::decimal::lemma_div_bounds(crate::decimal::abs_spec(scaled as int), mid as int);
        }
        if q > i64::MAX as i128 {
            Some(i64::MAX)
        } else if q < i64::MIN as i128 {
            Some(i64::MIN)
        } else {
            Some(q as i64)
        }
    }
}

/// One taker trade.
#[derive(Debug)]
pub struct Trade {
    pub coin: String,
    /// `"B"` for a taker buy, `"A"` for a taker sell.
    pub side: String,
    pub px: String,
    pub sz: String,
    /// Trade time in epoch milliseconds.
    pub time: u64,
}

/// One fill of the account's own orders.
#[derive(Debug)]
pub struct UserFill {
    pub coin: String,
    pub px: String,
    pub sz: String,
    pub side: String,
    pub dir: String,
    pub closed_pnl: String,
    pub hash: String,
    pub tid: u64,
}

/// Funding and volume context of one coin.
#[derive(Clone, Copy, Debug)]
pub struct MarketContext {
    pub funding_rate: i64,
    pub open_interest: i64,
    pub oracle_px: i64,
    pub day_ntl_vlm: i64,
    pub last_update: u64,
}

/// Whether a history entry is older than the history window at `now`.
pub open spec fn is_stale(entry: (u64, i64), now: u64) -> bool {
    now > entry.0 && now - entry.0 > HISTORY_WINDOW_MS
}

/// A price history without its stale head; the last entry always stays.
pub open spec fn pruned(h: Seq<(u64, i64)>, now: u64) -> Seq<(u64, i64)>
    decreases h.len(),
{
    if h.len() > 1 && is_stale(h[0], now) {
        pruned(h.subrange(1, h.len() as int), now)
    } else {
        h
    }
}

/// Drops the stale head of a price history.
pub fn prune_history(h: &mut VecDeque<(u64, i64)>, now: u64)
    ensures
        final(h)@ == pruned(old(h)@, now),
{
    while h.len() > 1 && now > h[0].0 && now - h[0].0 > HISTORY_WINDOW_MS
        invariant
            pruned(h@, now) == pruned(old(h)@, now),
        decreases h@.len(),
    {
        let _ = h.pop_front();
    }
}

/// The latest market data of every coin, shared by the engine's tasks.
pub struct MarketDataBuffer {
    /// Latest book per coin.
    pub l2_books: CoinMap<L2BookSnapshot>,
    /// Recent taker trades per coin, oldest first.
    pub trade_buffers: CoinMap<VecDeque<Trade>>,
    /// Funding and volume context per coin.
    pub contexts: CoinMap<MarketContext>,
    /// Private fills not yet drained, oldest first.
    pub user_fills: VecDeque<UserFill>,
    /// `(time, mid)` history per coin, oldest first.
    pub price_histories: CoinMap<VecDeque<(u64, i64)>>,
    /// When the last message arrived, in epoch milliseconds.
    pub last_ws_message_ms: u64,
}

impl MarketDataBuffer {
    pub open spec fn wf(&self) -> bool {
        &&& self.l2_books.wf()
        &&& self.trade_buffers.wf()
        &&& self.contexts.wf()
        &&& self.price_histories.wf()
    }

    /// The trades held for a coin; none where the coin has no buffer.
    pub open spec fn trades_of(&self, coin: Seq<char>) -> Seq<Trade> {
        if self.trade_buffers@.contains_key(coin) {
            self.trade_buffers@[coin]@
        } else {
            Seq::empty()
        }
    }

    /// The price history of a coin; empty where the coin has none.
    pub open spec fn history_of(&self, coin: Seq<char>) -> Seq<(u64, i64)> {
        if self.price_histories@.contains_key(coin) {
            self.price_histories@[coin]@
        } else {
            Seq::empty()
        }
    }

    /// An empty buffer whose last message counts as arrived at `now_ms`.
    pub fn new(now_ms: u64) -> (b: Self)
        ensures
            b.wf(),
            b.last_ws_message_ms == now_ms,
            b.l2_books@ == Map::<Seq<char>, L2BookSnapshot>::empty(),
            b.trade_buffers@ == Map::<Seq<char>, VecDeque<Trade>>::empty(),
            b.contexts@ == Map::<Seq<char>, MarketContext>::empty(),
            b.price_histories@ == Map::<Seq<char>, VecDeque<(u64, i64)>>::empty(),
            b.user_fills@.len() == 0,
    {
        MarketDataBuffer {
            l2_books: CoinMap::new(),
            trade_buffers: CoinMap::new(),
            contexts: CoinMap::new(),
            user_fills: VecDeque::new(),
            price_histories: CoinMap::new(),
            last_ws_message_ms: now_ms,
        }
    }

    /// Whether more than the stall timeout has passed since the last
    /// message.
    pub fn is_stalled(&self, now_ms: u64) -> (r: bool)
        ensures
            r == (now_ms > self.last_ws_message_ms && now_ms - self.last_ws_message_ms
                > STALL_TIMEOUT_MS),
    {
        now_ms > self.last_ws_message_ms && now_ms - self.last_ws_message_ms > STALL_TIMEOUT_MS
    }

    /// Notes that a message arrived at `now_ms`.
    pub fn touch(&mut self, now_ms: u64)
        ensures
            final(self).last_ws_message_ms == now_ms,
            final(self).l2_books == old(self).l2_books,
            final(self).trade_buffers == old(self).trade_buffers,
            final(self).contexts == old(self).contexts,
            final(self).user_fills == old(self).user_fills,
            final(self).price_histories == old(self).price_histories,
    {
        self.last_ws_message_ms = now_ms;
    }

    /// Takes in a book snapshot: it becomes the coin's latest book, and
    /// where it has a mid, the mid joins the coin's price history, from
    /// which entries older than five minutes leave.
    pub fn update_l2(&mut self, snap: L2BookSnapshot, now_ms: u64)
        requires
            old(self).wf(),
        ensures
            final(self).wf(),
            final(self).last_ws_message_ms == now_ms,
            final(self).l2_books@ == old(self).l2_books@.insert(snap.coin@, snap),
            final(self).trade_buffers == old(self).trade_buffers,
            final(self).contexts == old(self).contexts,
            final(self).user_fills == old(self).user_fills,
            match snap.mid_price_spec() {
                Some(mid) => {
                    &&& final(self).price_histories@.dom() == old(
                        self,
                    ).price_histories@.dom().insert(snap.coin@)
                    &&& final(self).history_of(snap.coin@) == pruned(
                        old(self).history_of(snap.coin@).push((now_ms, mid as i64)),
                        now_ms,
                    )
                    &&& forall|k: Seq<char>|
                        k != snap.coin@ && old(self).price_histories@.contains_key(k)
                            ==> #[trigger] final(self).price_histories@[k] == old(
                            self,
                        ).price_histories@[k]
                },
                None => final(self).price_histories == old(self).price_histories,
            },
    {
        self.last_ws_message_ms = now_ms;
        match snap.mid_price() {
            Some(mid) => {
                let mut history = match self.price_histories.remove(snap.coin.as_str()) {
                    Some(h) => h,
                    None => VecDeque::new(),
                };
                history.push_back((now_ms, mid));
                prune_history(&mut history, now_ms);
                self.price_histories.insert(snap.coin.as_str(), history);
                proof {
                    assert(self.price_histories@.dom() =~= old(self).price_histories@.dom().insert(
                        snap.coin@,
                    ));
                }
            },
            None => {},
        }
        let coin = snap.coin.clone();
        self.l2_books.insert(coin.as_str(), snap);
    }

    /// Appends a taker trade to its coin's buffer, which keeps the latest
    /// thousand.
    pub fn add_trade(&mut self, trade: Trade, now_ms: u64)
        requires
            old(self).wf(),
        ensures
            final(self).wf(),
            final(self).last_ws_message_ms == now_ms,
            final(self).l2_books == old(self).l2_books,
            final(self).contexts == old(self).contexts,
            final(self).user_fills == old(self).user_fills,
            final(self).price_histories == old(self).price_histories,
            final(self).trade_buffers@.dom() == old(self).trade_buffers@.dom().insert(trade.coin@),
            final(self).trades_of(trade.coin@) == rolled(
                old(self).trades_of(trade.coin@),
                TRADE_BUFFER_CAP as int,
                trade,
            ),
            forall|k: Seq<char>|
                k != trade.coin@ && old(self).trade_buffers@.contains_key(k)
                    ==> #[trigger] final(self).trade_buffers@[k] == old(self).trade_buffers@[k],
    {
        self.last_ws_message_ms = now_ms;
        let coin = trade.coin.clone();
        let mut buffer = match self.trade_buffers.remove(coin.as_str()) {
            Some(b) => b,
            None => VecDeque::new(),
        };
        push_rolling(&mut buffer, TRADE_BUFFER_CAP, trade);
        self.trade_buffers.insert(coin.as_str(), buffer);
        proof {
            assert(self.trade_buffers@.dom() =~= old(self).trade_buffers@.dom().insert(
                trade.coin@,
            ));
        }
    }

    /// Sets the context of a coin.
    pub fn update_context(&mut self, coin: &str, ctx: MarketContext)
        requires
            old(self).wf(),
        ensures
            final(self).wf(),
            final(self).contexts@ == old(self).contexts@.insert(coin@, ctx),
            final(self).last_ws_message_ms == old(self).last_ws_message_ms,
            final(self).l2_books == old(self).l2_books,
            final(self).trade_buffers == old(self).trade_buffers,
            final(self).user_fills == old(self).user_fills,
            final(self).price_histories == old(self).price_histories,
    {
        self.contexts.insert(coin, ctx);
    }

    /// Queues a private fill; the queue keeps the latest five hundred.
    pub fn add_user_fill(&mut self, fill: UserFill, now_ms: u64)
        ensures
            final(self).last_ws_message_ms == now_ms,
            final(self).user_fills@ == rolled(old(self).user_fills@, USER_FILL_CAP as int, fill),
            final(self).l2_books == old(self).l2_books,
            final(self).trade_buffers == old(self).trade_buffers,
            final(self).contexts == old(self).contexts,
            final(self).price_histories == old(self).price_histories,
    {
        self.last_ws_message_ms = now_ms;
        push_rolling(&mut self.user_fills, USER_FILL_CAP, fill);
    }
}

/// The stall flag: raised by the stall watcher alone, when the feed stalls,
/// and cleared by the stall monitor alone, once the feed is back and the
/// engine has reconciled.
#[derive(Clone, Copy, Debug, PartialEq, Eq, Structural)]
pub struct StallPanicFlag {
    pub raised: bool,
}

/// A flag that is not raised.
pub fn new_stall_panic_flag() -> (f: StallPanicFlag)
    ensures
        !f.raised,
{
    StallPanicFlag { raised: false }
}

impl StallPanicFlag {
    /// One look of the stall watcher: a stalled feed raises the flag.
    /// Returns whether this look raised it.
    pub fn watch(&mut self, stalled: bool) -> (newly_raised: bool)
        ensures
            final(self).raised == (old(self).raised || stalled),
            newly_raised == (stalled && !old(self).raised),
    {
        if stalled && !self.raised {
            self.raised = true;
            true
        } else {
            false
        }
    }

    /// Clears the flag: what the stall monitor does once the engine has
    /// reconciled.
    pub fn clear(&mut self)
        ensures
            !final(self).raised,
    {
        self.raised = false;
    }
}

/// What the stall monitor asks of the engine.
#[derive(Clone, Copy, Debug, PartialEq, Eq, Structural)]
pub enum StallAction {
    Nothing,
    /// The flag rose: cancel everything and halt the engine.
    CancelAll,
    /// The feed is back while the flag is raised: reconcile before quoting
    /// resumes; the flag falls once that is done.
    Reconcile,
}

/// What the stall monitor does at one look: on a flag that rose since its
/// last look it cancels everything and halts the engine; on a raised flag that it has answered
/// already it reconciles as soon as the feed is no longer stalled.
pub open spec fn stall_decision(answered: bool, raised: bool, stalled: bool) -> StallAction {
    if raised && !answered {
        StallAction::CancelAll
    } else if raised && !stalled {
        StallAction::Reconcile
    } else {
        StallAction::Nothing
    }
}

/// The stall monitor: it answers the rising flag with a cancel-all that
/// halts the engine, and the returning feed with a reconcile, after which it
/// lets the flag fall.
#[derive(Clone, Copy, Debug)]
pub struct StallMonitor {
    /// Whether the raised flag has been answered with a cancel-all.
    pub answered: bool,
}

impl StallMonitor {
    /// A monitor that has seen no raised flag.
    pub fn new() -> (m: Self)
        ensures
            !m.answered,
    {
        StallMonitor { answered: false }
    }

    /// One look of the monitor at the flag and at whether the feed is
    /// stalled.
    pub fn step(&mut self, flag: &StallPanicFlag, stalled: bool) -> (a: StallAction)
        ensures
            a == stall_decision(old(self).answered, flag.raised, stalled),
            final(self).answered == flag.raised,
    {
        let action = if flag.raised && !self.answered {
            StallAction::CancelAll
        } else if flag.raised && !stalled {
            StallAction::Reconcile
        } else {
            StallAction::Nothing
        };
        self.answered = flag.raised;
        action
    }

    /// Takes in that the engine has reconciled: the flag falls, and the
    /// next rise will be answered anew.
    pub fn reconciled(&mut self, flag: &mut StallPanicFlag)
        ensures
            !final(flag).raised,
            !final(self).answered,
    {
        flag.clear();
        self.answered = false;
    }
}

/// Whether a sequence never falls.
pub open spec fn is_ascending(s: Seq<u64>) -> bool {
    forall|i: int, j: int| 0 <= i <= j < s.len() ==> s[i] <= s[j]
}

/// The sum of a sequence.
pub open spec fn sum_of(s: Seq<u64>) -> nat
    decreases s.len(),
{
    if s.len() == 0 {
        0
    } else {
        sum_of(s.drop_last()) + s.last() as nat
    }
}

/// Position of the 95th percentile among `len` ascending samples.
pub open spec fn p95_index(len: nat) -> int {
    ((len * 95) / 100) as int
}

/// Whether `r` is the 95th percentile of the samples: the entry at
/// `p95_index` once they are put in ascending order; zero without samples.
pub open spec fn is_p95(samples: Seq<u64>, r: u64) -> bool {
    if samples.len() == 0 {
        r == 0
    } else {
        exists|s: Seq<u64>|
            is_ascending(s) && s.to_multiset() == samples.to_multiset() && s.len() == samples.len()
                && #[trigger] s[p95_index(samples.len())] == r
    }
}

/// The samples in ascending order.
pub open spec fn ascending(samples: Seq<u64>) -> Seq<u64> {
    samples.sort_by(|a: u64, b: u64| a <= b)
}

/// The 95th percentile of the samples: the entry at `p95_index` once they
/// are put in ascending order; zero without samples.
pub open spec fn p95_of(samples: Seq<u64>) -> u64 {
    if samples.len() == 0 {
        0
    } else {
        ascending(samples)[p95_index(samples.len())]
    }
}

/// The ascending arrangement of samples never falls and holds the same
/// values, each as often as the samples do.
pub proof fn lemma_ascending(samples: Seq<u64>)
    ensures
        is_ascending(ascending(samples)),
        ascending(samples).to_multiset() == samples.to_multiset(),
        ascending(samples).len() == samples.len(),
{
    let leq = |a: u64, b: u64| a <= b;
    assert(vstd::relations::total_ordering(leq));
    samples.lemma_sort_by_ensures(leq);
    let s = ascending(samples);
    vstd::seq_lib::to_multiset_len(s);
    vstd::seq_lib::to_multiset_len(samples);
    assert forall|i: int, j: int| 0 <= i <= j < s.len() implies s[i] <= s[j] by {
        if i < j {
            assert(leq(s[i], s[j]));
        }
    }
}

/// There is one ascending arrangement only: a sequence that never falls
/// and holds the same values as the samples is their ascending arrangement.
pub proof fn lemma_ascending_unique(samples: Seq<u64>, s: Seq<u64>)
    requires
        is_ascending(s),
        s.to_multiset() == samples.to_multiset(),
    ensures
        s == ascending(samples),
{
    let leq = |a: u64, b: u64| a <= b;
    assert(vstd::relations::total_ordering(leq));
    samples.lemma_sort_by_ensures(leq);
    assert(vstd::relations::sorted_by(s, leq)) by {
        assert forall|i: int, j: int| 0 <= i < j < s.len() implies #[trigger] leq(s[i], s[j]) by {
            assert(s[i] <= s[j]);
        }
    }
    vstd::seq_lib::lemma_sorted_unique(s, ascending(samples), leq);
}

/// The 95th percentile is fixed by the samples: `is_p95` holds of exactly
/// one value, `p95_of`.
pub proof fn lemma_p95_unique(samples: Seq<u64>, r: u64)
    ensures
        is_p95(samples, r) <==> r == p95_of(samples),
{
    if samples.len() > 0 {
        lemma_ascending(samples);
        if is_p95(samples, r) {
            let s = choose|s: Seq<u64>|
                is_ascending(s) && s.to_multiset() == samples.to_multiset() && s.len()
                    == samples.len() && #[trigger] s[p95_index(samples.len())] == r;
            lemma_ascending_unique(samples, s);
        }
        if r == p95_of(samples) {
            let s = ascending(samples);
            assert(s[p95_index(samples.len())] == r);
        }
    }
}

/// `<[u64]>::sort_unstable` on a vector: afterwards the vector holds the
/// same values, each as often as before, in ascending order.
#[verifier::external_body]
fn sort_ascending(v: &mut Vec<u64>)
    ensures
        is_ascending(final(v)@),
        final(v)@.to_multiset() == old(v)@.to_multiset(),
        final(v)@.len() == old(v)@.len(),
{
    v.sort_unstable();
}

/// Round-trip latencies, in microseconds.
#[derive(Debug)]
pub struct LatencyAuditor {
    /// The latest samples, oldest first.
    pub samples: VecDeque<u64>,
}

impl Default for LatencyAuditor {
    fn default() -> (a: Self)
        ensures
            a.samples@.len() == 0,
    {
        LatencyAuditor { samples: VecDeque::new() }
    }
}

impl LatencyAuditor {
    /// The report text for an average, a percentile and the slowness flag.
    pub open spec fn report_text(avg: nat, p95: nat, too_slow: bool) -> Seq<char> {
        "Latency: avg="@ + bytes_as_chars(dec_digits(avg)) + "µs, p95="@ + bytes_as_chars(
            dec_digits(p95),
        ) + "µs, too_slow="@ + (if too_slow {
            "true"@
        } else {
            "false"@
        })
    }

    /// Records the time from receipt to processing; a processing time
    /// before the receipt counts as zero. The latest ten thousand samples
    /// are kept.
    pub fn record(&mut self, received_at_us: u64, processed_at_us: u64)
        ensures
            final(self).samples@ == rolled(
                old(self).samples@,
                LATENCY_SAMPLE_CAP as int,
                (if processed_at_us >= received_at_us {
                    processed_at_us - received_at_us
                } else {
                    0
                }) as u64,
            ),
    {
        let delta: u64 = if processed_at_us >= received_at_us {
            processed_at_us - received_at_us
        } else {
            0
        };
        push_rolling(&mut self.samples, LATENCY_SAMPLE_CAP, delta);
    }

    /// The 95th percentile of the samples, in microseconds.
    pub fn p95_us(&self) -> (r: u64)
        ensures
            r == p95_of(self.samples@),
            is_p95(self.samples@, r),
    {
        let n = self.samples.len();
        if n == 0 {
            return 0;
        }
        let mut sorted: Vec<u64> = Vec::new();
        let mut i: usize = 0;
        while i < n
            invariant
                i <= n,
                n == self.samples@.len(),
                sorted@ == self.samples@.subrange(0, i as int),
            decreases n - i,
        {
            sorted.push(self.samples[i]);
            proof {
                assert(sorted@ =~= self.samples@.subrange(0, i as int + 1));
            }
            i += 1;
        }
        proof {
            assert(sorted@ =~= self.samples@);
        }
        sort_ascending(&mut sorted);
        let idx: usize = ((n as u128 * 95) / 100) as usize;
        proof {
            assert(idx == p95_index(n as nat));
            assert(sorted@.to_multiset() == self.samples@.to_multiset());
            assert(sorted@[p95_index(self.samples@.len())] == sorted@[idx as int]);
            lemma_ascending_unique(self.samples@, sorted@);
        }
        sorted[idx]
    }

    /// Whether the 95th percentile exceeds 50 ms.
    pub fn is_too_slow(&self) -> (r: bool)
        ensures
            r == (p95_of(self.samples@) > TOO_SLOW_US),
    {
        self.p95_us() > TOO_SLOW_US
    }

    /// A one-line report: average, 95th percentile, and whether the engine
    /// is too slow. `"No samples yet"` without samples.
    pub fn report(&self) -> (r: String)
        ensures
            self.samples@.len() == 0 ==> r@ == "No samples yet"@,
            self.samples@.len() > 0 ==> r@ == Self::report_text(
                sum_of(self.samples@) / self.samples@.len(),
                p95_of(self.samples@) as nat,
                p95_of(self.samples@) > TOO_SLOW_US,
            ),
    {
        let n = self.samples.len();
        if n == 0 {
            return String::from_str("No samples yet");
        }
        let mut sum: u128 = 0;
        let mut i: usize = 0;
        while i < n
            invariant
                i <= n,
                n == self.samples@.len(),
                sum == sum_of(self.samples@.subrange(0, i as int)),
                sum <= i * u64::MAX,
            decreases n - i,
        {
            proof {
                let next = self.samples@.subrange(0, i as int + 1);
                assert(next.drop_last() =~= self.samples@.subrange(0, i as int));
                assert(next.last() == self.samples@[i as int]);
                assert(i * u64::MAX + u64::MAX == (i + 1) * u64::MAX) by (nonlinear_arith);
                assert((i + 1) * u64::MAX <= usize::MAX * u64::MAX) by (nonlinear_arith)
                    requires
                        i + 1 <= usize::MAX,
                ;
                assert(usize::MAX * u64::MAX <= u64::MAX * u64::MAX) by (nonlinear_arith)
                    requires
                        usize::MAX <= u64::MAX,
                ;
            }
            sum = sum + self.samples[i] as u128;
            i += 1;
        }
        proof {
            assert(self.samples@.subrange(0, n as int) =~= self.samples@);
            assert(n * u64::MAX <= u64::MAX * u64::MAX) by (nonlinear_arith)
                requires
                    n <= u64::MAX,
            ;
            crate::decimal::lemma_div_bounds(sum as int, n as int);
            vstd::arithmetic::div_mod::lemma_div_is_ordered(sum as int, n * u64::MAX, n as int);
            vstd::arithmetic::div_mod::lemma_div_multiples_vanish(u64::MAX as int, n as int);
            assert(n * u64::MAX == (n as int) * (u64::MAX as int));
            vstd::arithmetic::mul::lemma_mul_is_commutative(n as int, u64::MAX as int);
        }
        let avg: u64 = (sum / (n as u128)) as u64;
        let p95 = self.p95_us();
        let too_slow = p95 > TOO_SLOW_US;
        let mut avg_digits: Vec<u8> = Vec::new();
        push_decimal(&mut avg_digits, avg);
        let mut p95_digits: Vec<u8> = Vec::new();
        push_decimal(&mut p95_digits, p95);
        proof {
            lemma_dec_digits(avg as nat);
            lemma_dec_digits(p95 as nat);
            assert(avg_digits@ =~= dec_digits(avg as nat));
            assert(p95_digits@ =~= dec_digits(p95 as nat));
        }
        let avg_text = ascii_string(&avg_digits);
        let p95_text = ascii_string(&p95_digits);
        let r = String::from_str("Latency: avg=").concat(avg_text.as_str()).concat(
            "µs, p95=",
        ).concat(p95_text.as_str()).concat("µs, too_slow=").concat(
            if too_slow {
                "true"
            } else {
                "false"
            },
        );
        r
    }
}

/// The level that a JSON object with a price, a size and an order count
/// stands for.
pub open spec fn level_of(v: Json) -> Option<(Seq<char>, Seq<char>, u64)> {
    match (text_of(v.member("px"@)), text_of(v.member("sz"@)), uint_of(v.member("n"@))) {
        (Some(px), Some(sz), Some(n)) => Some((px, sz, n)),
        _ => None,
    }
}

/// A level as plain values.
pub open spec fn level_view(l: L2Level) -> (Seq<char>, Seq<char>, u64) {
    (l.px@, l.sz@, l.n)
}

/// The levels of a list as plain values.
pub open spec fn level_views(s: Seq<L2Level>) -> Seq<(Seq<char>, Seq<char>, u64)> {
    Seq::new(s.len(), |i: int| level_view(s[i]))
}

/// The levels that the items of a list stand for; items that are no level
/// are left out.
pub open spec fn levels_of(items: Seq<Json>) -> Seq<(Seq<char>, Seq<char>, u64)>
    decreases items.len(),
{
    if items.len() == 0 {
        Seq::empty()
    } else {
        match level_of(items.last()) {
            Some(l) => levels_of(items.drop_last()).push(l),
            None => levels_of(items.drop_last()),
        }
    }
}

/// The levels of one side of a book message: those of the list, or none
/// where the value is no list.
pub open spec fn side_levels_of(v: Option<Json>) -> Seq<(Seq<char>, Seq<char>, u64)> {
    match v {
        Some(j) => match j.items() {
            Some(items) => levels_of(items),
            None => Seq::empty(),
        },
        None => Seq::empty(),
    }
}

/// The bids and asks of a book message's `levels`: the first and second
/// item of a list, or the members `bids` and `asks` of an object.
pub open spec fn book_levels_of(levels: Option<Json>) -> (
    Seq<(Seq<char>, Seq<char>, u64)>,
    Seq<(Seq<char>, Seq<char>, u64)>,
) {
    match levels {
        Some(j) => if j is Array {
            (side_levels_of(j.item(0)), side_levels_of(j.item(1)))
        } else {
            (side_levels_of(j.member("bids"@)), side_levels_of(j.member("asks"@)))
        },
        None => (Seq::empty(), Seq::empty()),
    }
}

impl L2Level {
    /// Reads a level: none unless price and size are texts and the order
    /// count is a whole number.
    pub fn from_json(v: &Json) -> (r: Option<L2Level>)
        ensures
            match level_of(*v) {
                Some(l) => r matches Some(level) && level_view(level) == l,
                None => r is None,
            },
    {
        let px = text_at(v, "px");
        let sz = text_at(v, "sz");
        let n = uint_at(v, "n");
        match (px, sz, n) {
            (Some(px), Some(sz), Some(n)) => Some(
                L2Level { px: String::from_str(px), sz: String::from_str(sz), n },
            ),
            _ => None,
        }
    }
}

/// Reads the levels of one side of a book message.
pub fn side_levels(v: Option<&Json>) -> (r: Vec<L2Level>)
    ensures
        level_views(r@) == side_levels_of(
            match v {
                Some(j) => Some(*j),
                None => None,
            },
        ),
{
    let mut out: Vec<L2Level> = Vec::new();
    let items = match v {
        Some(j) => match j.as_array() {
            Some(items) => items,
            None => {
                assert(level_views(out@) =~= Seq::empty());
                return out;
            },
        },
        None => {
            assert(level_views(out@) =~= Seq::empty());
            return out;
        },
    };
    let mut i: usize = 0;
    assert(items@.subrange(0, 0) =~= Seq::<Json>::empty());
    assert(level_views(out@) =~= levels_of(items@.subrange(0, 0)));
    while i < items.len()
        invariant
            i <= items@.len(),
            level_views(out@) == levels_of(items@.subrange(0, i as int)),
        decreases items@.len() - i,
    {
        proof {
            let next = items@.subrange(0, i as int + 1);
            assert(next.drop_last() =~= items@.subrange(0, i as int));
            assert(next.last() == items@[i as int]);
        }
        match L2Level::from_json(&items[i]) {
            Some(level) => {
                let ghost prior = out@;
                out.push(level);
                proof {
                    assert(level_views(out@) =~= level_views(prior).push(level_view(level)));
                }
            },
            None => {},
        }
        i += 1;
    }
    proof {
        assert(items@.subrange(0, items@.len() as int) =~= items@);
    }
    out
}

/// Reads the bids and asks of a book message's `levels`.
pub fn book_levels(levels: Option<&Json>) -> (r: (Vec<L2Level>, Vec<L2Level>))
    ensures
        (level_views(r.0@), level_views(r.1@)) == book_levels_of(
            match levels {
                Some(j) => Some(*j),
                None => None,
            },
        ),
{
    match levels {
        Some(j) => match j {
            Json::Array(_) => (side_levels(j.at(0)), side_levels(j.at(1))),
            _ => (side_levels(j.get("bids")), side_levels(j.get("asks"))),
        },
        None => {
            let bids = side_levels(None);
            let asks = side_levels(None);
            (bids, asks)
        },
    }
}

/// A trade as plain values.
pub struct TradeView {
    pub coin: Seq<char>,
    pub side: Seq<char>,
    pub px: Seq<char>,
    pub sz: Seq<char>,
    pub time: u64,
}

impl Trade {
    pub open spec fn view(&self) -> TradeView {
        TradeView {
            coin: self.coin@,
            side: self.side@,
            px: self.px@,
            sz: self.sz@,
            time: self.time,
        }
    }

    /// The trade that a JSON object stands for.
    pub open spec fn of_json(v: Json) -> Option<TradeView> {
        match (
            text_of(v.member("coin"@)),
            text_of(v.member("side"@)),
            text_of(v.member("px"@)),
            text_of(v.member("sz"@)),
            uint_of(v.member("time"@)),
        ) {
            (Some(coin), Some(side), Some(px), Some(sz), Some(time)) => Some(
                TradeView { coin, side, px, sz, time },
            ),
            _ => None,
        }
    }

    /// Reads a trade: none unless coin, side, price and size are texts and
    /// the time is a whole number.
    pub fn from_json(v: &Json) -> (r: Option<Trade>)
        ensures
            match Self::of_json(*v) {
                Some(t) => r matches Some(trade) && trade@ == t,
                None => r is None,
            },
    {
        let coin = text_at(v, "coin");
        let side = text_at(v, "side");
        let px = text_at(v, "px");
        let sz = text_at(v, "sz");
        let time = uint_at(v, "time");
        match (coin, side, px, sz, time) {
            (Some(coin), Some(side), Some(px), Some(sz), Some(time)) => Some(
                Trade {
                    coin: String::from_str(coin),
                    side: String::from_str(side),
                    px: String::from_str(px),
                    sz: String::from_str(sz),
                    time,
                },
            ),
            _ => None,
        }
    }
}

/// A private fill as plain values.
pub struct UserFillView {
    pub coin: Seq<char>,
    pub px: Seq<char>,
    pub sz: Seq<char>,
    pub side: Seq<char>,
    pub dir: Seq<char>,
    pub closed_pnl: Seq<char>,
    pub hash: Seq<char>,
    pub tid: u64,
}

impl UserFill {
    pub open spec fn view(&self) -> UserFillView {
        UserFillView {
            coin: self.coin@,
            px: self.px@,
            sz: self.sz@,
            side: self.side@,
            dir: self.dir@,
            closed_pnl: self.closed_pnl@,
            hash: self.hash@,
            tid: self.tid,
        }
    }

    /// The fill that a JSON object stands for.
    pub open spec fn of_json(v: Json) -> Option<UserFillView> {
        match (
            text_of(v.member("coin"@)),
            text_of(v.member("px"@)),
            text_of(v.member("sz"@)),
            text_of(v.member("side"@)),
        ) {
            (Some(coin), Some(px), Some(sz), Some(side)) => match (
                text_of(v.member("dir"@)),
                text_of(v.member("closedPnl"@)),
                text_of(v.member("hash"@)),
                uint_of(v.member("tid"@)),
            ) {
                (Some(dir), Some(closed_pnl), Some(hash), Some(tid)) => Some(
                    UserFillView { coin, px, sz, side, dir, closed_pnl, hash, tid },
                ),
                _ => None,
            },
            _ => None,
        }
    }

    /// Reads a private fill: none unless every field is there, the trade id
    /// a whole number and the others texts.
    pub fn from_json(v: &Json) -> (r: Option<UserFill>)
        ensures
            match Self::of_json(*v) {
                Some(f) => r matches Some(fill) && fill@ == f,
                None => r is None,
            },
    {
        let coin = text_at(v, "coin");
        let px = text_at(v, "px");
        let sz = text_at(v, "sz");
        let side = text_at(v, "side");
        let dir = text_at(v, "dir");
        let closed_pnl = text_at(v, "closedPnl");
        let hash = text_at(v, "hash");
        let tid = uint_at(v, "tid");
        match (coin, px, sz, side) {
            (Some(coin), Some(px), Some(sz), Some(side)) => match (dir, closed_pnl, hash, tid) {
                (Some(dir), Some(closed_pnl), Some(hash), Some(tid)) => Some(
                    UserFill {
                        coin: String::from_str(coin),
                        px: String::from_str(px),
                        sz: String::from_str(sz),
                        side: String::from_str(side),
                        dir: String::from_str(dir),
                        closed_pnl: String::from_str(closed_pnl),
                        hash: String::from_str(hash),
                        tid,
                    },
                ),
                _ => None,
            },
            _ => None,
        }
    }
}

} // verus!
