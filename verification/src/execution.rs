//! Session statistics, order-flow imbalance, the inventory ledger and the
//! engine's protective state.

use std::collections::{HashMap, VecDeque};
use vstd::arithmetic::div_mod::*;
use vstd::arithmetic::mul::*;
use vstd::prelude::*;
use crate::coin_map::CoinMap;
use crate::decimal::{
    abs_spec, div_trunc, lemma_div_bounds, lemma_mul_bound, mul_div_floor, sat_add, sat_add_spec,
    sat_sub, sat_sub_spec, MAX_RAW, SCALE,
};
use crate::exchange::{Direction, OrderError, Position};
use crate::risk::{RiskConfig, RiskManager, RiskState};
use crate::window::{push_rolling, rolled};

verus! {

/// Limits of the engine's protective guards.
#[derive(Clone, Copy, Debug)]
pub struct MmEngineConfig {
    /// Daily drawdown, as a fraction of the starting balance, at which the
    /// engine halts.
    pub global_halt_drawdown_pct: i64,
    /// Cancel-to-fill ratio above which the guard counts as breached.
    pub max_cancel_fill_ratio: i64,
    /// Order-flow imbalance beyond which one side is cancelled.
    pub ofi_halt_threshold: i64,
    /// In shadow mode no order reaches the venue.
    pub shadow_mode: bool,
}

impl Default for MmEngineConfig {
    /// A 5 % drawdown cap, a cancel-to-fill cap of 50, an imbalance threshold
    /// of 0.70, shadow mode on.
    fn default() -> (c: Self)
        ensures
            c.global_halt_drawdown_pct == 5_000_000,
            c.max_cancel_fill_ratio == 5_000_000_000,
            c.ofi_halt_threshold == 70_000_000,
            c.shadow_mode,
    {
        MmEngineConfig {
            global_halt_drawdown_pct: 5_000_000,
            max_cancel_fill_ratio: 5_000_000_000,
            ofi_halt_threshold: 70_000_000,
            shadow_mode: true,
        }
    }
}

/// Counters of one session.
#[derive(Clone, Copy, Debug)]
pub struct SessionStats {
    pub total_cancels: u64,
    pub total_fills: u64,
    /// Daily profit in USD; negative is a loss.
    pub daily_pnl_usd: i64,
    pub starting_balance: i64,
}

impl Default for SessionStats {
    fn default() -> (s: Self)
        ensures
            s.total_cancels == 0,
            s.total_fills == 0,
            s.daily_pnl_usd == 0,
            s.starting_balance == 0,
    {
        SessionStats { total_cancels: 0, total_fills: 0, daily_pnl_usd: 0, starting_balance: 0 }
    }
}

impl SessionStats {
    /// Cancels per fill; with no fill yet, the number of cancels.
    pub open spec fn cancel_fill_ratio_spec(&self) -> int {
        if self.total_fills == 0 {
            self.total_cancels * SCALE
        } else {
            (self.total_cancels * SCALE) / (self.total_fills as int)
        }
    }

    /// The day's loss as a fraction of the starting balance; zero without a
    /// positive starting balance or without a loss.
    pub open spec fn daily_drawdown_spec(&self) -> int {
        if self.starting_balance <= 0 || self.daily_pnl_usd >= 0 {
            0
        } else {
            ((-self.daily_pnl_usd) * SCALE) / (self.starting_balance as int)
        }
    }

    /// Cancels per fill, in hundred-millionths.
    pub fn cancel_fill_ratio(&self) -> (r: u128)
        ensures
            r == self.cancel_fill_ratio_spec(),
    {
        let fills: u64 = if self.total_fills == 0 {
            1
        } else {
            self.total_fills
        };
        mul_div_floor(self.total_cancels, SCALE as u64, fills)
    }

    /// The day's drawdown as a fraction of the starting balance.
    pub fn daily_drawdown_pct(&self) -> (r: u128)
        ensures
            r == self.daily_drawdown_spec(),
    {
        if self.starting_balance <= 0 || self.daily_pnl_usd >= 0 {
            return 0;
        }
        let loss: u64 = crate::decimal::abs_i64(self.daily_pnl_usd);
        mul_div_floor(loss, SCALE as u64, self.starting_balance as u64)
    }
}

/// Samples an imbalance needs before it counts.
pub const OFI_MIN_SAMPLES: usize = 20;

/// Volume in USD an imbalance must exceed before it counts: 5 000.
pub const OFI_MIN_VOLUME: i64 = 500_000_000_000;

/// Largest window an imbalance tracker may have.
pub const OFI_MAX_WINDOW: usize = 1_000_000;

/// Window of the trackers the engine creates.
pub const OFI_WINDOW: usize = 200;

/// Volume of one side in a window of `(is_buy, size_usd)` events.
pub open spec fn side_volume(w: Seq<(bool, i64)>, buy: bool) -> int
    decreases w.len(),
{
    if w.len() == 0 {
        0
    } else {
        side_volume(w.drop_last(), buy) + (if w.last().0 == buy {
            w.last().1 as int
        } else {
            0
        })
    }
}

/// Buy volume minus sell volume over their sum; zero below 20 samples or
/// at a total of 5 000 USD or less.
pub open spec fn ofi_fraction_of(w: Seq<(bool, i64)>) -> int {
    let buy = side_volume(w, true);
    let sell = side_volume(w, false);
    if w.len() < OFI_MIN_SAMPLES || buy + sell <= OFI_MIN_VOLUME {
        0
    } else {
        div_trunc((buy - sell) * SCALE, buy + sell)
    }
}

/// Volumes of a window of valid sizes are bounded by its length.
pub proof fn lemma_side_volume_bounds(w: Seq<(bool, i64)>, buy: bool)
    requires
        forall|i: int| 0 <= i < w.len() ==> 0 <= (#[trigger] w[i]).1 <= MAX_RAW,
    ensures
        0 <= side_volume(w, buy) <= w.len() * MAX_RAW,
    decreases w.len(),
{
    if w.len() > 0 {
        lemma_side_volume_bounds(w.drop_last(), buy);
        assert((w.len() - 1) * MAX_RAW + MAX_RAW == w.len() * MAX_RAW) by (nonlinear_arith);
    }
}

/// Rolling taker buy/sell imbalance of one coin.
#[derive(Debug)]
pub struct OfiCalculator {
    /// `(is_buy, size_usd)` of the latest taker trades, oldest first.
    pub window: VecDeque<(bool, i64)>,
    pub window_size: usize,
}

impl OfiCalculator {
    /// The window is bounded and every size in it is a valid amount.
    pub open spec fn wf(&self) -> bool {
        &&& self.window_size <= OFI_MAX_WINDOW
        &&& self.window@.len() <= OFI_MAX_WINDOW
        &&& forall|i: int|
            0 <= i < self.window@.len() ==> 0 <= (#[trigger] self.window@[i]).1 <= MAX_RAW
    }

    /// The events in the window, oldest first.
    pub open spec fn view(&self) -> Seq<(bool, i64)> {
        self.window@
    }

    /// An empty tracker with a window of the given size.
    pub fn new(window_size: usize) -> (c: Self)
        requires
            window_size <= OFI_MAX_WINDOW,
        ensures
            c.wf(),
            c@ == Seq::<(bool, i64)>::empty(),
            c.window_size == window_size,
    {
        OfiCalculator { window: VecDeque::new(), window_size }
    }

    /// Records a taker trade; once the window is full the oldest leaves.
    pub fn record(&mut self, is_buy: bool, size_usd: i64)
        requires
            old(self).wf(),
            0 <= size_usd <= MAX_RAW,
        ensures
            final(self).wf(),
            final(self).window_size == old(self).window_size,
            final(self)@ == rolled(old(self)@, old(self).window_size as int, (is_buy, size_usd)),
    {
        push_rolling(&mut self.window, self.window_size, (is_buy, size_usd));
    }

    /// The imbalance in `[-1, 1]`: `+1` is pure taker buying.
    pub fn ofi_fraction(&self) -> (r: i64)
        requires
            self.wf(),
        ensures
            r == ofi_fraction_of(self@),
            -SCALE <= r <= SCALE,
            (self@.len() < OFI_MIN_SAMPLES || side_volume(self@, true) + side_volume(self@, false)
                <= OFI_MIN_VOLUME) ==> r == 0,
    {
        let n = self.window.len();
        let mut buy: u128 = 0;
        let mut sell: u128 = 0;
        let mut i: usize = 0;
        while i < n
            invariant
                self.wf(),
                n == self.window@.len(),
                i <= n,
                buy == side_volume(self.window@.subrange(0, i as int), true),
                sell == side_volume(self.window@.subrange(0, i as int), false),
                buy <= i * MAX_RAW,
                sell <= i * MAX_RAW,
            decreases n - i,
        {
            let (is_buy, size) = self.window[i];
            proof {
                let next = self.window@.subrange(0, i as int + 1);
                assert(next.drop_last() =~= self.window@.subrange(0, i as int));
                assert(next.last() == self.window@[i as int]);
                assert(i * MAX_RAW + MAX_RAW == (i + 1) * MAX_RAW) by (nonlinear_arith);
                assert((i + 1) * MAX_RAW <= OFI_MAX_WINDOW * MAX_RAW) by (nonlinear_arith)
                    requires
                        i + 1 <= OFI_MAX_WINDOW,
                ;
            }
            if is_buy {
                buy = buy + size as u128;
            } else {
                sell = sell + size as u128;
            }
            i += 1;
        }
        proof {
            assert(self.window@.subrange(0, n as int) =~= self.window@);
            assert(n * MAX_RAW <= OFI_MAX_WINDOW * MAX_RAW) by (nonlinear_arith)
                requires
                    n <= OFI_MAX_WINDOW,
            ;
        }
        let total: u128 = buy + sell;
        if n < OFI_MIN_SAMPLES || total <= OFI_MIN_VOLUME as u128 {
            return 0;
        }
        let diff: u128 = if buy >= sell {
            buy - sell
        } else {
            sell - buy
        };
        proof {
            lemma_mul_bound(diff as int, total as int, SCALE as int, SCALE as int);
            lemma_mul_bound(total as int, 2 * (OFI_MAX_WINDOW * MAX_RAW), SCALE as int, SCALE as int);
            lemma_div_bounds(diff as int * SCALE, total as int);
            lemma_div_is_ordered(diff as int * SCALE, total as int * SCALE, total as int);
            lemma_div_multiples_vanish(SCALE as int, total as int);
            lemma_mul_is_commutative(total as int, SCALE as int);
            assert((buy as int - sell as int) * SCALE == -(diff as int * SCALE) || (buy as int
                - sell as int) * SCALE == diff as int * SCALE) by (nonlinear_arith)
                requires
                    diff as int == buy as int - sell as int || diff as int == sell as int
                        - buy as int,
            ;
            if buy < sell {
                assert(-((buy as int - sell as int) * SCALE) == diff as int * SCALE)
                    by (nonlinear_arith)
                    requires
                        diff as int == sell as int - buy as int,
                ;
                assert((buy as int - sell as int) * SCALE < 0) by (nonlinear_arith)
                    requires
                        buy < sell,
                ;
            } else {
                assert((buy as int - sell as int) * SCALE == diff as int * SCALE)
                    by (nonlinear_arith)
                    requires
                        diff as int == buy as int - sell as int,
                ;
            }
        }
        let q: u128 = (diff * (SCALE as u128)) / total;
        if buy >= sell {
            q as i64
        } else {
            -(q as i64)
        }
    }

    /// Whether sell pressure dominates enough to cancel bids.
    pub fn should_cancel_bids(&self, threshold: i64) -> (r: bool)
        requires
            self.wf(),
        ensures
            r == (ofi_fraction_of(self@) < -threshold),
    {
        (self.ofi_fraction() as i128) < -(threshold as i128)
    }

    /// Whether buy pressure dominates enough to cancel asks.
    pub fn should_cancel_asks(&self, threshold: i64) -> (r: bool)
        requires
            self.wf(),
        ensures
            r == (ofi_fraction_of(self@) > threshold),
    {
        self.ofi_fraction() > threshold
    }
}


/// Disagreement between ledger and venue, in hundred-millionths of a coin,
/// up to which a position counts as reconciled.
pub const RECONCILE_TOLERANCE: i64 = 1;

/// A position that the venue holds and the ledger did not: a fill that
/// happened while the engine was not listening.
#[derive(Debug)]
pub struct DarkFill {
    pub coin: String,
    /// What the ledger held.
    pub internal: i64,
    /// What the venue reports, signed.
    pub live: i64,
    /// `live - internal`, held at the ends of the `i64` range.
    pub delta: i64,
}

/// A dark fill as plain values.
pub struct DarkFillView {
    pub coin: Seq<char>,
    pub internal: int,
    pub live: int,
    pub delta: int,
}

impl DarkFill {
    pub open spec fn view(&self) -> DarkFillView {
        DarkFillView {
            coin: self.coin@,
            internal: self.internal as int,
            live: self.live as int,
            delta: self.delta as int,
        }
    }
}

/// The dark fills of a list as plain values.
pub open spec fn dark_fill_views(s: Seq<DarkFill>) -> Seq<DarkFillView> {
    Seq::new(s.len(), |i: int| s[i]@)
}

/// What a ledger holds of a coin: zero where it has no entry.
pub open spec fn held(positions: Map<Seq<char>, i64>, coin: Seq<char>) -> int {
    if positions.contains_key(coin) {
        positions[coin] as int
    } else {
        0
    }
}

/// Whether a live position disagrees with the ledger beyond the tolerance.
pub open spec fn is_dark(positions: Map<Seq<char>, i64>, p: Position) -> bool {
    abs_spec(p.signed_size() - held(positions, p.coin@)) > RECONCILE_TOLERANCE
}

/// The ledger after one live position: overwritten where it disagrees.
pub open spec fn reconcile_one(positions: Map<Seq<char>, i64>, p: Position) -> Map<
    Seq<char>,
    i64,
> {
    if is_dark(positions, p) {
        positions.insert(p.coin@, p.signed_size() as i64)
    } else {
        positions
    }
}

/// The ledger after a list of live positions, taken in order.
pub open spec fn reconciled(positions: Map<Seq<char>, i64>, live: Seq<Position>) -> Map<
    Seq<char>,
    i64,
>
    decreases live.len(),
{
    if live.len() == 0 {
        positions
    } else {
        reconcile_one(reconciled(positions, live.drop_last()), live.last())
    }
}

/// The dark fills that a list of live positions reveals, in order.
pub open spec fn dark_fills(positions: Map<Seq<char>, i64>, live: Seq<Position>) -> Seq<
    DarkFillView,
>
    decreases live.len(),
{
    if live.len() == 0 {
        Seq::empty()
    } else {
        let before = reconciled(positions, live.drop_last());
        let found = dark_fills(positions, live.drop_last());
        let p = live.last();
        if is_dark(before, p) {
            found.push(
                DarkFillView {
                    coin: p.coin@,
                    internal: held(before, p.coin@),
                    live: p.signed_size(),
                    delta: sat_sub_spec(p.signed_size(), held(before, p.coin@)),
                },
            )
        } else {
            found
        }
    }
}

/// The reconcile law: after reconciling against a list of live positions,
/// the ledger agrees within the tolerance with each position that is the
/// last of its coin in the list. An earlier entry of the same coin is
/// superseded by the later one.
pub proof fn lemma_reconcile_agrees(positions: Map<Seq<char>, i64>, live: Seq<Position>, i: int)
    requires
        0 <= i < live.len(),
        forall|k: int| 0 <= k < live.len() ==> -MAX_RAW <= (#[trigger] live[k]).size <= MAX_RAW,
        forall|k: int| i < k < live.len() ==> (#[trigger] live[k]).coin@ != live[i].coin@,
    ensures
        abs_spec(held(reconciled(positions, live), live[i].coin@) - live[i].signed_size())
            <= RECONCILE_TOLERANCE,
    decreases live.len(),
{
    let rest = live.drop_last();
    let p = live.last();
    if i < live.len() - 1 {
        assert(rest[i] == live[i]);
        assert forall|k: int| i < k < rest.len() implies (#[trigger] rest[k]).coin@
            != rest[i].coin@ by {
            assert(rest[k] == live[k]);
        }
        assert forall|k: int| 0 <= k < rest.len() implies -MAX_RAW <= (#[trigger] rest[k]).size
            <= MAX_RAW by {
            assert(rest[k] == live[k]);
        }
        lemma_reconcile_agrees(positions, rest, i);
        assert(p.coin@ != live[i].coin@);
    }
}

/// Reconciling leaves every coin that the live list does not name as it was.
pub proof fn lemma_reconcile_keeps_others(
    positions: Map<Seq<char>, i64>,
    live: Seq<Position>,
    coin: Seq<char>,
)
    requires
        forall|k: int| 0 <= k < live.len() ==> (#[trigger] live[k]).coin@ != coin,
    ensures
        reconciled(positions, live).contains_key(coin) == positions.contains_key(coin),
        held(reconciled(positions, live), coin) == held(positions, coin),
    decreases live.len(),
{
    if live.len() > 0 {
        let rest = live.drop_last();
        assert forall|k: int| 0 <= k < rest.len() implies (#[trigger] rest[k]).coin@ != coin by {
            assert(rest[k] == live[k]);
        }
        lemma_reconcile_keeps_others(positions, rest, coin);
        assert(live.last() == live[live.len() - 1]);
    }
}

/// A resting order of the engine's own.
#[derive(Clone, Copy, Debug)]
pub struct RestingOrder {
    pub price: i64,
    pub is_bid: bool,
    pub size: i64,
}

/// What the engine believes it holds and has resting.
pub struct InternalInventory {
    /// Net signed position per coin, in coins; positive is long.
    pub positions: CoinMap<i64>,
    /// The engine's own resting orders per coin, by order id.
    pub open_orders: CoinMap<HashMap<u64, RestingOrder>>,
}

impl Default for InternalInventory {
    fn default() -> (inv: Self)
        ensures
            inv.wf(),
            inv@ == Map::<Seq<char>, i64>::empty(),
    {
        InternalInventory { positions: CoinMap::new(), open_orders: CoinMap::new() }
    }
}

impl InternalInventory {
    pub open spec fn wf(&self) -> bool {
        self.positions.wf() && self.open_orders.wf()
    }

    /// Net position per coin.
    pub open spec fn view(&self) -> Map<Seq<char>, i64> {
        self.positions@
    }

    /// The net position in a coin; zero where the ledger has no entry.
    pub fn position(&self, coin: &str) -> (r: i64)
        requires
            self.wf(),
        ensures
            r == held(self@, coin@),
    {
        match self.positions.get(coin) {
            Some(v) => *v,
            None => 0,
        }
    }

    /// Applies a fill: a buy adds its size to the coin's net position, a
    /// sell takes it away. The entry is created where there was none.
    pub fn apply_fill(&mut self, coin: &str, is_buy: bool, size: i64)
        requires
            old(self).wf(),
        ensures
            final(self).wf(),
            final(self).open_orders == old(self).open_orders,
            final(self)@ == old(self)@.insert(
                coin@,
                (if is_buy {
                    sat_add_spec(held(old(self)@, coin@), size as int)
                } else {
                    sat_sub_spec(held(old(self)@, coin@), size as int)
                }) as i64,
            ),
    {
        let pos = self.position(coin);
        let next = if is_buy {
            sat_add(pos, size)
        } else {
            sat_sub(pos, size)
        };
        self.positions.insert(coin, next);
    }

    /// Reconciles the ledger against the venue's positions, in order.
    ///
    /// Where a live position differs from the ledger by more than the
    /// tolerance, the ledger takes the live value and the difference is
    /// reported. Coins that the venue does not list stay untouched.
    pub fn reconcile(&mut self, live: &Vec<Position>) -> (diffs: Vec<DarkFill>)
        requires
            old(self).wf(),
            forall|k: int| 0 <= k < live@.len() ==> -MAX_RAW <= (#[trigger] live@[k]).size <= MAX_RAW,
        ensures
            final(self).wf(),
            final(self).open_orders == old(self).open_orders,
            final(self)@ == reconciled(old(self)@, live@),
            dark_fill_views(diffs@) == dark_fills(old(self)@, live@),
    {
        let mut diffs: Vec<DarkFill> = Vec::new();
        let ghost start = self@;
        let mut idx: usize = 0;
        assert(dark_fill_views(diffs@) =~= dark_fills(start, live@.subrange(0, 0)));
        while idx < live.len()
            invariant
                idx <= live@.len(),
                self.wf(),
                self.open_orders == old(self).open_orders,
                forall|k: int|
                    0 <= k < live@.len() ==> -MAX_RAW <= (#[trigger] live@[k]).size <= MAX_RAW,
                self@ == reconciled(start, live@.subrange(0, idx as int)),
                dark_fill_views(diffs@) == dark_fills(start, live@.subrange(0, idx as int)),
            decreases live@.len() - idx,
        {
            let pos = &live[idx];
            proof {
                let next = live@.subrange(0, idx as int + 1);
                assert(next.drop_last() =~= live@.subrange(0, idx as int));
                assert(next.last() == live@[idx as int]);
            }
            let signed: i64 = match pos.direction {
                Direction::Long => pos.size,
                Direction::Short => -pos.size,
            };
            let internal: i64 = self.position(pos.coin.as_str());
            let delta: i128 = signed as i128 - internal as i128;
            if delta > RECONCILE_TOLERANCE as i128 || delta < -(RECONCILE_TOLERANCE as i128) {
                let ghost prior = diffs@;
                diffs.push(
                    DarkFill {
                        coin: pos.coin.clone(),
                        internal,
                        live: signed,
                        delta: sat_sub(signed, internal),
                    },
                );
                self.positions.insert(pos.coin.as_str(), signed);
                proof {
                    assert(dark_fill_views(diffs@) =~= dark_fill_views(prior).push(
                        diffs@.last()@,
                    ));
                }
            }
            idx += 1;
        }
        proof {
            assert(live@.subrange(0, live@.len() as int) =~= live@);
        }
        diffs
    }
}


/// A reduce order for a position whose coin left the whitelist.
#[derive(Debug)]
pub struct FlushOrder {
    pub coin: String,
    /// Opposite to the position's direction.
    pub direction: Direction,
    /// The position's size in coins.
    pub size: i64,
    /// Current mid, or the entry price where no mid is known.
    pub price: i64,
    pub leverage: i64,
    pub post_only: bool,
}

/// A flush order as plain values.
pub struct FlushOrderView {
    pub coin: Seq<char>,
    pub direction: Direction,
    pub size: int,
    pub price: int,
    pub leverage: int,
    pub post_only: bool,
}

impl FlushOrder {
    pub open spec fn view(&self) -> FlushOrderView {
        FlushOrderView {
            coin: self.coin@,
            direction: self.direction,
            size: self.size as int,
            price: self.price as int,
            leverage: self.leverage as int,
            post_only: self.post_only,
        }
    }
}

/// One call that the flush makes on the venue.
#[derive(Debug)]
pub enum FlushCall {
    /// Cancel every open order on the coin.
    CancelCoinOrders(String),
    /// Place the reduce order.
    Place(FlushOrder),
}

/// A flush call as plain values.
pub enum FlushCallView {
    CancelCoinOrders(Seq<char>),
    Place(FlushOrderView),
}

impl FlushCall {
    pub open spec fn view(&self) -> FlushCallView {
        match *self {
            FlushCall::CancelCoinOrders(coin) => FlushCallView::CancelCoinOrders(coin@),
            FlushCall::Place(order) => FlushCallView::Place(order@),
        }
    }
}

/// The flush calls of a list as plain values.
pub open spec fn flush_call_views(s: Seq<FlushCall>) -> Seq<FlushCallView> {
    Seq::new(s.len(), |i: int| s[i]@)
}

/// Size in hundred-millionths of a coin up to which a position is dust.
pub const DUST_SIZE: i64 = 1;

/// Whether a live position is orphaned: its coin is not active and its size
/// is more than dust.
pub open spec fn is_orphan(p: Position, active: Seq<Seq<char>>) -> bool {
    !active.contains(p.coin@) && abs_spec(p.size as int) > DUST_SIZE
}

/// The order that flushes an orphaned position.
pub open spec fn flush_order_for(p: Position, mids: Map<Seq<char>, i64>) -> FlushOrderView {
    FlushOrderView {
        coin: p.coin@,
        direction: if p.direction == Direction::Long {
            Direction::Short
        } else {
            Direction::Long
        },
        size: p.size as int,
        price: if mids.contains_key(p.coin@) {
            mids[p.coin@] as int
        } else {
            p.entry_price as int
        },
        leverage: SCALE as int,
        post_only: true,
    }
}

/// The calls that flush the orphaned positions, in the order of the
/// positions: for each of them the cancelling of the coin's open orders, and
/// right after it the reduce order.
pub open spec fn flush_plan(
    live: Seq<Position>,
    active: Seq<Seq<char>>,
    mids: Map<Seq<char>, i64>,
) -> Seq<FlushCallView>
    decreases live.len(),
{
    if live.len() == 0 {
        Seq::empty()
    } else if is_orphan(live.last(), active) {
        flush_plan(live.drop_last(), active, mids).push(
            FlushCallView::CancelCoinOrders(live.last().coin@),
        ).push(FlushCallView::Place(flush_order_for(live.last(), mids)))
    } else {
        flush_plan(live.drop_last(), active, mids)
    }
}

/// In a flush plan the calls come in pairs: at each even place the
/// cancelling of a coin's orders, and right after it the reduce order for
/// that coin.
pub proof fn lemma_flush_cancels_first(
    live: Seq<Position>,
    active: Seq<Seq<char>>,
    mids: Map<Seq<char>, i64>,
    k: int,
)
    requires
        0 <= k,
        2 * k < flush_plan(live, active, mids).len(),
    ensures
        flush_plan(live, active, mids).len() % 2 == 0,
        flush_plan(live, active, mids)[2 * k] is CancelCoinOrders,
        flush_plan(live, active, mids)[2 * k + 1] is Place,
        flush_plan(live, active, mids)[2 * k + 1]->Place_0.coin == flush_plan(
            live,
            active,
            mids,
        )[2 * k]->CancelCoinOrders_0,
    decreases live.len(),
{
    lemma_flush_plan_even(live, active, mids);
    if live.len() > 0 {
        let before = flush_plan(live.drop_last(), active, mids);
        lemma_flush_plan_even(live.drop_last(), active, mids);
        if 2 * k < before.len() {
            lemma_flush_cancels_first(live.drop_last(), active, mids, k);
        }
    }
}

/// A flush plan holds an even number of calls.
pub proof fn lemma_flush_plan_even(
    live: Seq<Position>,
    active: Seq<Seq<char>>,
    mids: Map<Seq<char>, i64>,
)
    ensures
        flush_plan(live, active, mids).len() % 2 == 0,
    decreases live.len(),
{
    if live.len() > 0 {
        lemma_flush_plan_even(live.drop_last(), active, mids);
    }
}

/// A venue call that the reconcile after a reconnect asks for.
#[derive(Clone, Copy, Debug, PartialEq, Eq, Structural)]
pub enum ReconcileCall {
    /// Cancel every resting order.
    CancelAll,
    /// Fetch the live positions.
    FetchPositions,
    /// Fetch the balance.
    FetchBalance,
}

/// The next venue call of a reconcile, given what has come back so far:
/// the cancel-all comes before the positions are fetched (in shadow mode
/// there is none), the balance is fetched only once the positions have
/// come, and after that nothing is left to ask.
pub open spec fn next_reconcile_call_spec(
    shadow_mode: bool,
    cancelled: bool,
    positions_came: Option<bool>,
    balance_came: bool,
) -> Option<ReconcileCall> {
    if !shadow_mode && !cancelled {
        Some(ReconcileCall::CancelAll)
    } else if positions_came is None {
        Some(ReconcileCall::FetchPositions)
    } else if positions_came == Some(true) && !balance_came {
        Some(ReconcileCall::FetchBalance)
    } else {
        None
    }
}

/// `a + b`, held at the end of the `u64` range.
pub open spec fn sat_add_u64_spec(a: int, b: int) -> int {
    if a + b > u64::MAX {
        u64::MAX as int
    } else {
        a + b
    }
}

/// The cancel count after a cancel-all: unchanged in shadow mode and on a
/// failure, else raised by the venue's count.
pub open spec fn cancels_after(
    shadow_mode: bool,
    cancels: u64,
    outcome: Option<Result<u64, OrderError>>,
) -> int {
    if shadow_mode {
        cancels as int
    } else {
        match outcome {
            Some(Ok(count)) => sat_add_u64_spec(cancels as int, count as int),
            _ => cancels as int,
        }
    }
}

/// The engine's state: limits, counters, imbalance trackers, ledger, and
/// whether it is halted.
pub struct MmExecutionEngine {
    pub config: MmEngineConfig,
    pub risk_manager: RiskManager,
    pub stats: SessionStats,
    pub ofi_trackers: CoinMap<OfiCalculator>,
    pub inventory: InternalInventory,
    pub session_id: String,
    /// While set, the engine does not quote.
    pub halted: bool,
}

impl MmExecutionEngine {
    pub open spec fn wf(&self) -> bool {
        &&& self.ofi_trackers.wf()
        &&& self.inventory.wf()
        &&& forall|k: Seq<char>| #[trigger]
            self.ofi_trackers@.contains_key(k) ==> self.ofi_trackers@[k].wf()
    }

    /// The imbalance of a coin; zero where nothing was recorded for it.
    pub open spec fn ofi_of(&self, coin: Seq<char>) -> int {
        if self.ofi_trackers@.contains_key(coin) {
            ofi_fraction_of(self.ofi_trackers@[coin]@)
        } else {
            0
        }
    }

    /// Whether the day's drawdown has reached the configured cap.
    pub open spec fn drawdown_breached_spec(&self) -> bool {
        self.stats.daily_drawdown_spec() >= self.config.global_halt_drawdown_pct
    }

    /// A fresh engine, not halted, anchored at the balance the venue gave
    /// (zero where it gave none).
    pub fn new(
        config: MmEngineConfig,
        balance: Result<i64, OrderError>,
        session_id: String,
        now_secs: i64,
    ) -> (e: Self)
        ensures
            e.wf(),
            e.config == config,
            e.risk_manager.config.max_daily_drawdown_percent == 10_000_000,
            e.risk_manager.config.max_consecutive_losses == 5,
            e.risk_manager.config.trading_halt_duration_secs == 3_600,
            e.risk_manager.state() == (RiskState {
                start_of_day_balance: match balance {
                    Ok(b) => b,
                    Err(_) => 0,
                },
                last_day_reset: now_secs,
                consecutive_loss_count: 0,
                halt_until: None,
                is_kill_switch_active: false,
            }),
            e.session_id == session_id,
            !e.halted,
            e.stats.total_cancels == 0,
            e.stats.total_fills == 0,
            e.stats.daily_pnl_usd == 0,
            e.stats.starting_balance == (match balance {
                Ok(b) => b,
                Err(_) => 0,
            }),
            e.inventory@ == Map::<Seq<char>, i64>::empty(),
            e.ofi_trackers@ == Map::<Seq<char>, OfiCalculator>::empty(),
    {
        let starting_balance: i64 = match balance {
            Ok(b) => b,
            Err(_) => 0,
        };
        MmExecutionEngine {
            config,
            risk_manager: RiskManager::new(RiskConfig::default(), starting_balance, now_secs),
            stats: SessionStats {
                total_cancels: 0,
                total_fills: 0,
                daily_pnl_usd: 0,
                starting_balance,
            },
            ofi_trackers: CoinMap::new(),
            inventory: InternalInventory::default(),
            session_id,
            halted: false,
        }
    }

    /// Whether no order reaches the venue.
    pub fn is_shadow_mode(&self) -> (r: bool)
        ensures
            r == self.config.shadow_mode,
    {
        self.config.shadow_mode
    }

    /// Whether the engine is halted.
    pub fn is_halted(&self) -> (r: bool)
        ensures
            r == self.halted,
    {
        self.halted
    }

    /// Takes in what the venue answered to a cancel-all.
    ///
    /// In shadow mode nothing is asked and nothing changes. Otherwise a
    /// count is added to the cancels and returned; a failure, or no answer,
    /// halts the engine and counts as zero.
    pub fn cancel_all(&mut self, outcome: Option<Result<u64, OrderError>>) -> (n: u64)
        ensures
            final(self).config == old(self).config,
            final(self).risk_manager == old(self).risk_manager,
            final(self).ofi_trackers == old(self).ofi_trackers,
            final(self).inventory == old(self).inventory,
            final(self).session_id == old(self).session_id,
            final(self).stats.total_fills == old(self).stats.total_fills,
            final(self).stats.daily_pnl_usd == old(self).stats.daily_pnl_usd,
            final(self).stats.starting_balance == old(self).stats.starting_balance,
            old(self).config.shadow_mode ==> n == 0 && *final(self) == *old(self),
            !old(self).config.shadow_mode ==> (match outcome {
                Some(Ok(count)) => {
                    &&& n == count
                    &&& final(self).halted == old(self).halted
                    &&& final(self).stats.total_cancels == sat_add_u64_spec(
                        old(self).stats.total_cancels as int,
                        count as int,
                    )
                },
                _ => {
                    &&& n == 0
                    &&& final(self).halted
                    &&& final(self).stats.total_cancels == old(self).stats.total_cancels
                },
            }),
    {
        if self.config.shadow_mode {
            return 0;
        }
        match outcome {
            Some(Ok(count)) => {
                self.stats.total_cancels = if count > u64::MAX - self.stats.total_cancels {
                    u64::MAX
                } else {
                    self.stats.total_cancels + count
                };
                count
            },
            _ => {
                self.halted = true;
                0
            },
        }
    }

    /// The stall panic: the feed has stalled, so the cancel-all outcome is
    /// taken in and the engine halts, whatever the outcome and in shadow mode
    /// too. It stays halted until a reconcile succeeds. Returns the count of
    /// cancelled orders, as `cancel_all` does.
    pub fn stall_panic(&mut self, cancel_outcome: Option<Result<u64, OrderError>>) -> (n: u64)
        ensures
            final(self).halted,
            n == (if old(self).config.shadow_mode {
                0
            } else {
                match cancel_outcome {
                    Some(Ok(count)) => count,
                    _ => 0,
                }
            }),
            final(self).stats.total_cancels == cancels_after(
                old(self).config.shadow_mode,
                old(self).stats.total_cancels,
                cancel_outcome,
            ),
            final(self).stats.total_fills == old(self).stats.total_fills,
            final(self).stats.daily_pnl_usd == old(self).stats.daily_pnl_usd,
            final(self).stats.starting_balance == old(self).stats.starting_balance,
            final(self).session_id == old(self).session_id,
            final(self).config == old(self).config,
            final(self).risk_manager == old(self).risk_manager,
            final(self).ofi_trackers == old(self).ofi_trackers,
            final(self).inventory == old(self).inventory,
    {
        let n = self.cancel_all(cancel_outcome);
        self.halted = true;
        n
    }

    /// The next venue call of a reconcile after a reconnect: `cancelled`
    /// says whether the cancel-all has been made, `positions_came` whether
    /// the positions were asked for and whether the venue gave them,
    /// `balance_came` whether the balance was asked for. None once every
    /// call is made; the outcomes then go to `reconcile_after_reconnect`.
    pub fn next_reconcile_call(
        &self,
        cancelled: bool,
        positions_came: Option<bool>,
        balance_came: bool,
    ) -> (call: Option<ReconcileCall>)
        ensures
            call == next_reconcile_call_spec(
                self.config.shadow_mode,
                cancelled,
                positions_came,
                balance_came,
            ),
            call == Some(ReconcileCall::FetchPositions) ==> self.config.shadow_mode || cancelled,
            call == Some(ReconcileCall::FetchBalance) ==> positions_came == Some(true),
    {
        if !self.config.shadow_mode && !cancelled {
            return Some(ReconcileCall::CancelAll);
        }
        match positions_came {
            None => Some(ReconcileCall::FetchPositions),
            Some(true) => if balance_came {
                None
            } else {
                Some(ReconcileCall::FetchBalance)
            },
            Some(false) => None,
        }
    }

    /// Brings the engine back after a reconnect.
    ///
    /// The cancel-all outcome is taken in first. Where the venue gave its
    /// positions, the ledger is reconciled against them, a balance anchors
    /// the starting balance where that is zero and only there, and the
    /// engine is no longer halted. Where it gave none, the engine is halted.
    pub fn reconcile_after_reconnect(
        &mut self,
        cancel_outcome: Option<Result<u64, OrderError>>,
        positions: Result<Vec<Position>, OrderError>,
        balance: Option<Result<i64, OrderError>>,
    ) -> (diffs: Vec<DarkFill>)
        requires
            old(self).wf(),
            positions matches Ok(live) ==> forall|k: int|
                0 <= k < live@.len() ==> -MAX_RAW <= (#[trigger] live@[k]).size <= MAX_RAW,
        ensures
            final(self).wf(),
            final(self).config == old(self).config,
            final(self).risk_manager == old(self).risk_manager,
            final(self).ofi_trackers == old(self).ofi_trackers,
            final(self).session_id == old(self).session_id,
            final(self).halted == (positions is Err),
            final(self).stats.total_cancels == cancels_after(
                old(self).config.shadow_mode,
                old(self).stats.total_cancels,
                cancel_outcome,
            ),
            final(self).stats.total_fills == old(self).stats.total_fills,
            final(self).stats.daily_pnl_usd == old(self).stats.daily_pnl_usd,
            match positions {
                Ok(live) => {
                    &&& final(self).inventory@ == reconciled(old(self).inventory@, live@)
                    &&& dark_fill_views(diffs@) == dark_fills(old(self).inventory@, live@)
                    &&& final(self).stats.starting_balance == (match balance {
                        Some(Ok(b)) if old(self).stats.starting_balance == 0 => b,
                        _ => old(self).stats.starting_balance,
                    })
                },
                Err(_) => {
                    &&& final(self).inventory == old(self).inventory
                    &&& diffs@.len() == 0
                    &&& final(self).stats.starting_balance == old(self).stats.starting_balance
                },
            },
    {
        let _ = self.cancel_all(cancel_outcome);
        match positions {
            Ok(live) => {
                let diffs = self.inventory.reconcile(&live);
                match balance {
                    Some(Ok(b)) => {
                        if self.stats.starting_balance == 0 {
                            self.stats.starting_balance = b;
                        }
                    },
                    _ => {},
                }
                self.halted = false;
                diffs
            },
            Err(_) => {
                self.halted = true;
                Vec::new()
            },
        }
    }

    /// Whether the day's drawdown has reached the cap.
    pub fn drawdown_breached(&self) -> (r: bool)
        ensures
            r == self.drawdown_breached_spec(),
    {
        let ddwn: u128 = self.stats.daily_drawdown_pct();
        self.config.global_halt_drawdown_pct < 0 || ddwn
            >= self.config.global_halt_drawdown_pct as u128
    }

    /// The global stop: on a breached drawdown cap the cancel-all outcome is
    /// taken in and the engine halts. Returns whether it did.
    pub fn check_global_drawdown_stop(&mut self, cancel_outcome: Option<Result<u64, OrderError>>) -> (r:
        bool)
        ensures
            r == old(self).drawdown_breached_spec(),
            !r ==> *final(self) == *old(self),
            r ==> final(self).halted,
            r ==> final(self).stats.total_cancels == cancels_after(
                old(self).config.shadow_mode,
                old(self).stats.total_cancels,
                cancel_outcome,
            ),
            final(self).stats.total_fills == old(self).stats.total_fills,
            final(self).stats.daily_pnl_usd == old(self).stats.daily_pnl_usd,
            final(self).stats.starting_balance == old(self).stats.starting_balance,
            final(self).session_id == old(self).session_id,
            final(self).config == old(self).config,
            final(self).risk_manager == old(self).risk_manager,
            final(self).ofi_trackers == old(self).ofi_trackers,
            final(self).inventory == old(self).inventory,
    {
        if self.drawdown_breached() {
            let _ = self.cancel_all(cancel_outcome);
            self.halted = true;
            return true;
        }
        false
    }

    /// Feeds a taker trade of `size` coins at `price` to the coin's
    /// imbalance tracker, creating the tracker where there was none.
    pub fn record_taker_trade(&mut self, coin: &str, is_buy: bool, price: i64, size: i64)
        requires
            old(self).wf(),
            0 <= crate::decimal::mul_sat_spec(price as int, size as int) <= MAX_RAW,
        ensures
            final(self).wf(),
            final(self).config == old(self).config,
            final(self).risk_manager == old(self).risk_manager,
            final(self).stats == old(self).stats,
            final(self).inventory == old(self).inventory,
            final(self).halted == old(self).halted,
            final(self).ofi_trackers@.dom() == old(self).ofi_trackers@.dom().insert(coin@),
            forall|k: Seq<char>|
                k != coin@ && old(self).ofi_trackers@.contains_key(k)
                    ==> #[trigger] final(self).ofi_trackers@[k] == old(self).ofi_trackers@[k],
            final(self).ofi_trackers@[coin@].window_size == (if old(self).ofi_trackers@.contains_key(coin@) {
                old(self).ofi_trackers@[coin@].window_size
            } else {
                OFI_WINDOW
            }),
            final(self).ofi_trackers@[coin@]@ == (if old(self).ofi_trackers@.contains_key(coin@) {
                rolled(
                    old(self).ofi_trackers@[coin@]@,
                    old(self).ofi_trackers@[coin@].window_size as int,
                    (is_buy, crate::decimal::mul_sat_spec(price as int, size as int) as i64),
                )
            } else {
                seq![(is_buy, crate::decimal::mul_sat_spec(price as int, size as int) as i64)]
            }),
    {
        let size_usd: i64 = crate::decimal::mul_sat(price, size);
        let mut tracker = match self.ofi_trackers.remove(coin) {
            Some(t) => t,
            None => OfiCalculator::new(OFI_WINDOW),
        };
        proof {
            crate::window::lemma_rolled_len(tracker@, tracker.window_size as int, (is_buy, size_usd));
        }
        tracker.record(is_buy, size_usd);
        let ghost mid = self.ofi_trackers@;
        self.ofi_trackers.insert(coin, tracker);
        proof {
            assert(self.ofi_trackers@.dom() =~= old(self).ofi_trackers@.dom().insert(coin@));
            assert(seq![(is_buy, size_usd)] =~= Seq::<(bool, i64)>::empty().push((is_buy, size_usd)));
        }
    }

    /// Whether sell pressure blocks the coin's bids.
    pub fn ofi_bids_blocked(&self, coin: &str) -> (r: bool)
        requires
            self.wf(),
        ensures
            r == (self.ofi_trackers@.contains_key(coin@) && self.ofi_of(coin@)
                < -self.config.ofi_halt_threshold),
    {
        match self.ofi_trackers.get(coin) {
            Some(tracker) => {
                assert(self.ofi_trackers@.contains_key(coin@));
                tracker.should_cancel_bids(self.config.ofi_halt_threshold)
            },
            None => false,
        }
    }

    /// Whether buy pressure blocks the coin's asks.
    pub fn ofi_asks_blocked(&self, coin: &str) -> (r: bool)
        requires
            self.wf(),
        ensures
            r == (self.ofi_trackers@.contains_key(coin@) && self.ofi_of(coin@)
                > self.config.ofi_halt_threshold),
    {
        match self.ofi_trackers.get(coin) {
            Some(tracker) => {
                assert(self.ofi_trackers@.contains_key(coin@));
                tracker.should_cancel_asks(self.config.ofi_halt_threshold)
            },
            None => false,
        }
    }

    /// Whether cancels per fill exceed the configured cap.
    pub fn is_cancel_fill_ratio_breached(&self) -> (r: bool)
        ensures
            r == (self.stats.cancel_fill_ratio_spec() > self.config.max_cancel_fill_ratio),
    {
        let cfr: u128 = self.stats.cancel_fill_ratio();
        self.config.max_cancel_fill_ratio < 0 || cfr > self.config.max_cancel_fill_ratio as u128
    }

    /// The margin guard: whether the account can carry a grid of the given
    /// notional at ten times leverage.
    ///
    /// Always in shadow mode; otherwise exactly when the venue gave a
    /// balance of at least a tenth of the notional.
    pub fn has_sufficient_margin(
        &self,
        total_notional_usd: i64,
        balance: Option<Result<i64, OrderError>>,
    ) -> (r: bool)
        ensures
            r == (self.config.shadow_mode || (balance matches Some(Ok(b)) && 10 * b
                >= total_notional_usd)),
    {
        if self.config.shadow_mode {
            return true;
        }
        match balance {
            Some(Ok(b)) => (b as i128) * 10 >= total_notional_usd as i128,
            _ => false,
        }
    }

    /// Plans the flush of orphaned positions: for each live position that is
    /// more than dust and whose coin is not active, first the cancelling of
    /// the coin's open orders, then a post-only order in the opposite
    /// direction at the current mid, or at the entry price where no mid is
    /// known. Nothing is planned in shadow mode.
    pub fn flush_orphaned_positions(
        &self,
        live_positions: &Vec<Position>,
        active_coins: &Vec<String>,
        mids: &CoinMap<i64>,
    ) -> (plan: Vec<FlushCall>)
        requires
            mids.wf(),
        ensures
            flush_call_views(plan@) == (if self.config.shadow_mode {
                Seq::empty()
            } else {
                flush_plan(live_positions@, crate::text::name_views(active_coins@), mids@)
            }),
    {
        let mut plan: Vec<FlushCall> = Vec::new();
        let ghost active = crate::text::name_views(active_coins@);
        if self.config.shadow_mode {
            assert(flush_call_views(plan@) =~= Seq::empty());
            return plan;
        }
        let mut i: usize = 0;
        assert(flush_call_views(plan@) =~= flush_plan(
            live_positions@.subrange(0, 0),
            active,
            mids@,
        ));
        while i < live_positions.len()
            invariant
                i <= live_positions@.len(),
                mids.wf(),
                active == crate::text::name_views(active_coins@),
                flush_call_views(plan@) == flush_plan(
                    live_positions@.subrange(0, i as int),
                    active,
                    mids@,
                ),
            decreases live_positions@.len() - i,
        {
            let pos = &live_positions[i];
            proof {
                let next = live_positions@.subrange(0, i as int + 1);
                assert(next.drop_last() =~= live_positions@.subrange(0, i as int));
                assert(next.last() == live_positions@[i as int]);
            }
            let is_active = crate::text::contains_name(active_coins, pos.coin.as_str());
            if !is_active && (pos.size > DUST_SIZE || pos.size < -DUST_SIZE) {
                let price: i64 = match mids.get(pos.coin.as_str()) {
                    Some(px) => *px,
                    None => pos.entry_price,
                };
                let ghost prior = plan@;
                plan.push(FlushCall::CancelCoinOrders(pos.coin.clone()));
                plan.push(
                    FlushCall::Place(
                        FlushOrder {
                            coin: pos.coin.clone(),
                            direction: pos.direction.opposite(),
                            size: pos.size,
                            price,
                            leverage: SCALE,
                            post_only: true,
                        },
                    ),
                );
                proof {
                    let n = prior.len() as int;
                    assert(flush_call_views(plan@) =~= flush_call_views(prior).push(
                        plan@[n]@,
                    ).push(plan@[n + 1]@));
                }
            }
            i += 1;
        }
        proof {
            assert(live_positions@.subrange(0, live_positions@.len() as int) =~= live_positions@);
        }
        plan
    }
}

impl InternalInventory {
    /// Applies a private fill as the venue reports it: a side of `B` is a
    /// buy, and a size that does not read counts as zero.
    pub fn apply_user_fill(&mut self, coin: &str, side: &str, sz: &str)
        requires
            old(self).wf(),
        ensures
            final(self).wf(),
            final(self).open_orders == old(self).open_orders,
            final(self)@ == old(self)@.insert(
                coin@,
                (if side@ == "B"@ {
                    sat_add_spec(held(old(self)@, coin@), crate::shadow::amount_of(sz@))
                } else {
                    sat_sub_spec(held(old(self)@, coin@), crate::shadow::amount_of(sz@))
                }) as i64,
            ),
    {
        let size: i64 = match crate::wire::parse_decimal(sz) {
            Some(v) => v,
            None => 0,
        };
        self.apply_fill(coin, crate::quoting::is_taker_buy(side), size);
    }
}

} // verus!
