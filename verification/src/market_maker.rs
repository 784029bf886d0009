//! Quote pricing: the laddered bid/ask grid and its inventory skew.

use vstd::arithmetic::div_mod::*;
use vstd::arithmetic::mul::*;
use vstd::prelude::*;
use crate::coin_map::CoinMap;
use crate::decimal::{
    abs_i64, abs_spec, clamp_spec, div_trunc, in_range, lemma_div_bounds, lemma_div_monotone,
    lemma_div_trunc_monotone, lemma_mul_bound, lemma_mul_monotone, lemma_snap_below_iff,
    lemma_snap_monotone, lemma_snap_within_half_tick, max_spec, min_spec, mul_div_floor, sat_add,
    sat_add_spec, snap_to_tick, snap_to_tick_spec, ticks_to_reach, MAX_RAW, SCALE,
};
use crate::wire::{bytes_as_chars, count_text, dec_digits, fixed_text, fixed_text_spec};

verus! {

/// Divisor that turns `price * basis points` into a price.
pub const BPS_DENOM: i64 = 1_000_000_000_000;

/// Largest base half-spread a configuration may carry: 10 000 basis points.
pub const MAX_SPREAD_BPS: i64 = 1_000_000_000_000;

/// The multiplier of a calm market, `1.0`.
pub const MIN_MULTIPLIER: i64 = 100_000_000;

/// The widest spread multiplier, `4.0`.
pub const MAX_MULTIPLIER: i64 = 400_000_000;

/// Smallest size of a first-layer order: 12 USD.
pub const MIN_BASE_ORDER_USD: i64 = 1_200_000_000;

/// Most layers a grid can have on each side.
pub const MAX_LAYERS: usize = 3;

/// Volatility regime of one asset.
#[derive(Clone, Copy, Debug, PartialEq, Eq, Structural)]
pub enum Regime {
    Calm,
    Uncertain,
    Halt,
}

/// Side of a quote.
#[derive(Clone, Copy, Debug, PartialEq, Eq, Structural)]
pub enum Side {
    Bid,
    Ask,
}

/// Per-asset parameters, as the selector publishes them.
#[derive(Clone, Debug)]
pub struct MmAssetConfig {
    pub asset: String,
    /// Minimum price increment.
    pub tick_size: i64,
    /// Minimum order size in USD notional.
    pub min_order_usd: i64,
    /// Largest inventory to hold, in USD notional.
    pub max_inv_usd: i64,
    /// Base half-spread in basis points.
    pub base_spread_bps: i64,
    /// Realised volatility as a fraction of price.
    pub atr_fraction: i64,
    pub regime: Regime,
}

impl MmAssetConfig {
    /// The ranges a configuration must keep: a positive tick and spread,
    /// nothing negative, nothing beyond the accepted magnitude.
    pub open spec fn wf(&self) -> bool {
        &&& 0 < self.tick_size <= MAX_RAW
        &&& 0 <= self.min_order_usd <= MAX_RAW
        &&& 0 <= self.max_inv_usd <= MAX_RAW
        &&& 0 < self.base_spread_bps <= MAX_SPREAD_BPS
        &&& 0 <= self.atr_fraction <= MAX_RAW
    }

    /// Whether the configuration keeps its ranges.
    pub fn is_valid(&self) -> (r: bool)
        ensures
            r == self.wf(),
    {
        0 < self.tick_size && self.tick_size <= MAX_RAW && 0 <= self.min_order_usd
            && self.min_order_usd <= MAX_RAW && 0 <= self.max_inv_usd && self.max_inv_usd
            <= MAX_RAW && 0 < self.base_spread_bps && self.base_spread_bps <= MAX_SPREAD_BPS && 0
            <= self.atr_fraction && self.atr_fraction <= MAX_RAW
    }
}

impl Default for MmAssetConfig {
    /// BTC with a tick of 0.1, 10 USD minimum order, 20 USD inventory cap,
    /// 1.5 bps half-spread, 0.2 % volatility, calm.
    fn default() -> (c: Self)
        ensures
            c.asset@ == "BTC"@,
            c.tick_size == 10_000_000,
            c.min_order_usd == 1_000_000_000,
            c.max_inv_usd == 2_000_000_000,
            c.base_spread_bps == 150_000_000,
            c.atr_fraction == 200_000,
            c.regime == Regime::Calm,
            c.wf(),
    {
        MmAssetConfig {
            asset: String::from_str("BTC"),
            tick_size: 10_000_000,
            min_order_usd: 1_000_000_000,
            max_inv_usd: 2_000_000_000,
            base_spread_bps: 150_000_000,
            atr_fraction: 200_000,
            regime: Regime::Calm,
        }
    }
}

/// One resting order of the grid.
#[derive(Clone, Copy, Debug)]
pub struct GridQuote {
    pub side: Side,
    /// 1 is the tightest layer, 3 the deepest.
    pub layer: u8,
    pub price: i64,
    /// Order size in USD notional.
    pub size_usd: i64,
    /// Exchange order id, once the order is placed.
    pub oid: Option<u64>,
}

/// The quote grid of one asset.
#[derive(Clone, Debug)]
pub struct QuoteGrid {
    pub bids: Vec<GridQuote>,
    pub asks: Vec<GridQuote>,
}

impl QuoteGrid {
    /// Whether the grid holds no quote at all.
    pub fn is_empty(&self) -> (r: bool)
        ensures
            r == (self.bids@.len() == 0 && self.asks@.len() == 0),
    {
        self.bids.len() == 0 && self.asks.len() == 0
    }
}

impl Default for QuoteGrid {
    fn default() -> (g: Self)
        ensures
            g.bids@ == Seq::<GridQuote>::empty(),
            g.asks@ == Seq::<GridQuote>::empty(),
    {
        QuoteGrid { bids: Vec::new(), asks: Vec::new() }
    }
}

/// The numbers a grid is priced from.
pub struct GridParams {
    pub mid: int,
    pub tick: int,
    pub min_order: int,
    pub max_inv: int,
    pub bps: int,
    pub inv: int,
    pub mult: int,
}

impl GridParams {
    /// The ranges `compute_quote_grid` accepts, for a positive mid.
    pub open spec fn valid(self) -> bool {
        &&& 0 < self.mid <= MAX_RAW
        &&& 0 < self.tick <= MAX_RAW
        &&& 0 <= self.min_order <= MAX_RAW
        &&& 0 <= self.max_inv <= MAX_RAW
        &&& 0 < self.bps <= MAX_SPREAD_BPS
        &&& in_range(self.inv)
        &&& 0 <= self.mult <= MAX_MULTIPLIER
    }

    /// Whether the inventory fraction exists: it does not where both the
    /// inventory and its cap are zero.
    pub open spec fn fraction_defined(self) -> bool {
        !(self.max_inv == 0 && self.inv == 0)
    }

    /// Half-spread of the first layer before the regime widens it.
    pub open spec fn base_half(self) -> int {
        (self.mid * self.bps) / (BPS_DENOM as int)
    }

    /// Half-spread of the first layer.
    pub open spec fn eff(self) -> int {
        (self.base_half() * self.mult) / (SCALE as int)
    }

    /// Distance from mid that covers the maker fee: 1.5 basis points.
    pub open spec fn min_dist(self) -> int {
        (self.mid * 3) / 20_000
    }

    /// Largest shift the skew may apply.
    pub open spec fn max_skew(self) -> int {
        max_spec(0, self.eff() - self.min_dist())
    }

    /// Inventory as a fraction of its cap, clamped to `[-1, 1]`.
    pub open spec fn inv_fraction(self) -> int {
        if self.max_inv == 0 {
            if self.inv > 0 {
                SCALE as int
            } else {
                -(SCALE as int)
            }
        } else {
            clamp_spec(
                div_trunc(self.inv * (SCALE as int), self.max_inv),
                -(SCALE as int),
                SCALE as int,
            )
        }
    }

    /// Skew before the cap: `fraction * eff * 1.5`.
    pub open spec fn raw_skew(self) -> int {
        div_trunc(self.inv_fraction() * (self.eff() * 3), 2 * (SCALE as int))
    }

    /// The shift applied to both sides: positive when long.
    pub open spec fn skew(self) -> int {
        clamp_spec(self.raw_skew(), -self.max_skew(), self.max_skew())
    }

    /// Half-spread of a layer: 1, 2.5 and 5 times the first.
    pub open spec fn layer_spread(self, layer: int) -> int {
        if layer <= 1 {
            self.eff()
        } else if layer == 2 {
            (self.eff() * 5) / 2
        } else {
            self.eff() * 5
        }
    }

    /// Size of a layer: 1, 2 and 3 times the base size.
    pub open spec fn layer_size(self, layer: int) -> int {
        max_spec(self.min_order, MIN_BASE_ORDER_USD as int) * layer
    }

    pub open spec fn bid_target(self, layer: int) -> int {
        self.mid - self.layer_spread(layer) - self.skew()
    }

    pub open spec fn ask_target(self, layer: int) -> int {
        self.mid + self.layer_spread(layer) - self.skew()
    }

    pub open spec fn bid_price(self, layer: int) -> int {
        snap_to_tick_spec(self.bid_target(layer), self.tick)
    }

    pub open spec fn ask_price(self, layer: int) -> int {
        snap_to_tick_spec(self.ask_target(layer), self.tick)
    }

    /// A bid is quoted where its snapped price is positive.
    pub open spec fn bid_present(self, layer: int) -> bool {
        self.bid_price(layer) > 0
    }

    /// An ask is quoted where its snapped price is above 90 % of mid.
    pub open spec fn ask_present(self, layer: int) -> bool {
        10 * self.ask_price(layer) > 9 * self.mid
    }

    pub open spec fn bid_quote(self, layer: int) -> GridQuote {
        GridQuote {
            side: Side::Bid,
            layer: layer as u8,
            price: self.bid_price(layer) as i64,
            size_usd: self.layer_size(layer) as i64,
            oid: None,
        }
    }

    pub open spec fn ask_quote(self, layer: int) -> GridQuote {
        GridQuote {
            side: Side::Ask,
            layer: layer as u8,
            price: self.ask_price(layer) as i64,
            size_usd: self.layer_size(layer) as i64,
            oid: None,
        }
    }

    /// The bids of layers `1..=n`, tightest first.
    pub open spec fn bids_upto(self, n: nat) -> Seq<GridQuote>
        decreases n,
    {
        if n == 0 {
            Seq::empty()
        } else if self.bid_present(n as int) {
            self.bids_upto((n - 1) as nat).push(self.bid_quote(n as int))
        } else {
            self.bids_upto((n - 1) as nat)
        }
    }

    /// The asks of layers `1..=n`, tightest first.
    pub open spec fn asks_upto(self, n: nat) -> Seq<GridQuote>
        decreases n,
    {
        if n == 0 {
            Seq::empty()
        } else if self.ask_present(n as int) {
            self.asks_upto((n - 1) as nat).push(self.ask_quote(n as int))
        } else {
            self.asks_upto((n - 1) as nat)
        }
    }
}

/// The parameters that a call of `compute_quote_grid` prices from.
pub open spec fn grid_params(
    mid_price: i64,
    config: &MmAssetConfig,
    inv_usd: i64,
    regime_multiplier: i64,
) -> GridParams {
    GridParams {
        mid: mid_price as int,
        tick: config.tick_size as int,
        min_order: config.min_order_usd as int,
        max_inv: config.max_inv_usd as int,
        bps: config.base_spread_bps as int,
        inv: inv_usd as int,
        mult: regime_multiplier as int,
    }
}

/// Whether anything is quoted at all: not in a halted regime, not without a
/// positive mid, not where the inventory fraction is undefined.
pub open spec fn quoting(p: GridParams, regime: Regime) -> bool {
    regime != Regime::Halt && p.mid > 0 && p.fraction_defined()
}

/// Layers on each side for a configured maximum.
pub open spec fn layer_count(max_layers: usize) -> nat {
    if max_layers < MAX_LAYERS {
        max_layers as nat
    } else {
        MAX_LAYERS as nat
    }
}

/// Sizes reached by the intermediate values of a valid grid.
pub proof fn lemma_grid_bounds(p: GridParams)
    requires
        p.valid(),
    ensures
        0 <= p.base_half() <= MAX_RAW,
        0 <= p.eff() <= 4 * MAX_RAW,
        0 <= p.min_dist() <= p.mid,
        0 <= p.max_skew() <= p.eff(),
        -(SCALE as int) <= p.inv_fraction() <= SCALE,
        -p.max_skew() <= p.skew() <= p.max_skew(),
        forall|l: int| 1 <= l <= 3 ==> p.eff() <= #[trigger] p.layer_spread(l) <= 20 * MAX_RAW,
        forall|l: int| 1 <= l <= 3 ==> 0 < #[trigger] p.layer_size(l) <= 3 * MAX_RAW,
{
    lemma_mul_bound(p.mid, MAX_RAW as int, p.bps, MAX_SPREAD_BPS as int);
    lemma_div_bounds(p.mid * p.bps, BPS_DENOM as int);
    lemma_div_monotone(p.mid * p.bps, MAX_RAW * MAX_SPREAD_BPS, BPS_DENOM as int);
    lemma_mul_bound(p.base_half(), MAX_RAW as int, p.mult, MAX_MULTIPLIER as int);
    lemma_div_bounds(p.base_half() * p.mult, SCALE as int);
    lemma_div_monotone(p.base_half() * p.mult, MAX_RAW * MAX_MULTIPLIER, SCALE as int);
    assert forall|l: int| 1 <= l <= 3 implies 0 < #[trigger] p.layer_size(l) <= 3 * MAX_RAW by {
        let b = max_spec(p.min_order, MIN_BASE_ORDER_USD as int);
        assert(0 < b * l <= 3 * MAX_RAW) by (nonlinear_arith)
            requires
                1 <= l <= 3,
                0 < b <= MAX_RAW,
        ;
    }
}

/// Half-spread of the first layer of a valid grid.
pub fn effective_spread(mid_price: i64, base_spread_bps: i64, regime_multiplier: i64) -> (r: i64)
    requires
        0 < mid_price <= MAX_RAW,
        0 < base_spread_bps <= MAX_SPREAD_BPS,
        0 <= regime_multiplier <= MAX_MULTIPLIER,
    ensures
        r == ((mid_price as int * base_spread_bps as int) / (BPS_DENOM as int)
            * regime_multiplier as int) / (SCALE as int),
        0 <= r <= 4 * MAX_RAW,
{
    let base: u128 = mul_div_floor(mid_price as u64, base_spread_bps as u64, BPS_DENOM as u64);
    proof {
        lemma_mul_bound(
            mid_price as int,
            MAX_RAW as int,
            base_spread_bps as int,
            MAX_SPREAD_BPS as int,
        );
        lemma_div_monotone(
            mid_price as int * base_spread_bps as int,
            MAX_RAW * MAX_SPREAD_BPS,
            BPS_DENOM as int,
        );
        lemma_mul_bound(
            base as int,
            MAX_RAW as int,
            regime_multiplier as int,
            MAX_MULTIPLIER as int,
        );
        lemma_div_monotone(
            base as int * regime_multiplier as int,
            MAX_RAW * MAX_MULTIPLIER,
            SCALE as int,
        );
    }
    let eff: u128 = mul_div_floor(base as u64, regime_multiplier as u64, SCALE as u64);
    eff as i64
}

/// The inventory skew of a valid grid whose inventory fraction is defined.
pub fn inventory_skew(
    mid_price: i64,
    max_inv_usd: i64,
    inv_usd: i64,
    eff: i64,
) -> (r: i64)
    requires
        0 < mid_price <= MAX_RAW,
        0 <= max_inv_usd <= MAX_RAW,
        in_range(inv_usd as int),
        0 <= eff <= 4 * MAX_RAW,
        !(max_inv_usd == 0 && inv_usd == 0),
    ensures
        ({
            let frac = if max_inv_usd == 0 {
                if inv_usd > 0 {
                    SCALE as int
                } else {
                    -(SCALE as int)
                }
            } else {
                clamp_spec(
                    div_trunc(inv_usd as int * (SCALE as int), max_inv_usd as int),
                    -(SCALE as int),
                    SCALE as int,
                )
            };
            let cap = max_spec(0, eff as int - (mid_price as int * 3) / 20_000);
            r == clamp_spec(div_trunc(frac * (eff as int * 3), 2 * (SCALE as int)), -cap, cap)
        }),
{
    let mag: u64 = abs_i64(inv_usd);
    let frac_mag: u64 = if max_inv_usd == 0 {
        SCALE as u64
    } else {
        let q: u128 = mul_div_floor(mag, SCALE as u64, max_inv_usd as u64);
        if q > SCALE as u128 {
            SCALE as u64
        } else {
            q as u64
        }
    };
    let ghost frac: int = if inv_usd >= 0 {
        frac_mag as int
    } else {
        -(frac_mag as int)
    };
    proof {
        if max_inv_usd != 0 {
            lemma_div_bounds(mag as int * (SCALE as int), max_inv_usd as int);
            assert((-(inv_usd as int)) * (SCALE as int) == -(inv_usd as int * (SCALE as int)))
                by (nonlinear_arith);
            if inv_usd == 0 {
                assert(frac_mag == 0);
            }
        }
    }
    let raw_mag: u128 = mul_div_floor(frac_mag, (eff as u64) * 3, 2 * (SCALE as u64));
    proof {
        lemma_mul_bound(frac_mag as int, SCALE as int, eff as int * 3, 12 * MAX_RAW);
        lemma_div_bounds(frac_mag as int * (eff as int * 3), 2 * (SCALE as int));
        lemma_div_monotone(
            frac_mag as int * (eff as int * 3),
            SCALE * (12 * MAX_RAW),
            2 * (SCALE as int),
        );
        assert((-(frac_mag as int)) * (eff as int * 3) == -(frac_mag as int * (eff as int * 3)))
            by (nonlinear_arith);
        assert(frac_mag as int * (eff as int * 3) >= 0);
        if frac_mag == 0 {
            assert(frac_mag as int * (eff as int * 3) == 0) by (nonlinear_arith)
                requires
                    frac_mag == 0,
            ;
        }
    }
    let min_dist: i64 = (mid_price * 3) / 20_000;
    let cap: i64 = if eff > min_dist {
        eff - min_dist
    } else {
        0
    };
    let capped: i64 = if raw_mag > cap as u128 {
        cap
    } else {
        raw_mag as i64
    };
    if inv_usd >= 0 {
        capped
    } else {
        -capped
    }
}

/// Half-spread of layer 1, 2 or 3.
pub fn layer_spread(eff: i64, layer: u8) -> (r: i64)
    requires
        0 <= eff <= 4 * MAX_RAW,
        1 <= layer <= 3,
    ensures
        r == (if layer == 1 {
            eff as int
        } else if layer == 2 {
            (eff as int * 5) / 2
        } else {
            eff as int * 5
        }),
        eff <= r <= 20 * MAX_RAW,
{
    if layer == 1 {
        eff
    } else if layer == 2 {
        (eff * 5) / 2
    } else {
        eff * 5
    }
}

/// Computes the post-only quote grid of one asset.
///
/// Nothing is quoted in a halted regime, without a positive mid, or where
/// inventory and inventory cap are both zero. Otherwise each of the first
/// `min(max_layers, 3)` layers carries a bid at `mid - spread - skew` and an
/// ask at `mid + spread - skew`, both snapped to the tick; a bid is kept
/// where its price is positive, an ask where it is above 90 % of mid. A
/// suppressed side stays empty.
pub fn compute_quote_grid(
    mid_price: i64,
    config: &MmAssetConfig,
    inv_usd: i64,
    regime_multiplier: i64,
    suppress_bids: bool,
    suppress_asks: bool,
    max_layers: usize,
) -> (grid: QuoteGrid)
    requires
        config.wf(),
        mid_price <= MAX_RAW,
        in_range(inv_usd as int),
        0 <= regime_multiplier <= MAX_MULTIPLIER,
    ensures
        ({
            let p = grid_params(mid_price, config, inv_usd, regime_multiplier);
            &&& grid.bids@ == (if quoting(p, config.regime) && !suppress_bids {
                p.bids_upto(layer_count(max_layers))
            } else {
                Seq::empty()
            })
            &&& grid.asks@ == (if quoting(p, config.regime) && !suppress_asks {
                p.asks_upto(layer_count(max_layers))
            } else {
                Seq::empty()
            })
        }),
        forall|i: int|
            0 <= i < grid.bids@.len() ==> {
                &&& (#[trigger] grid.bids@[i]).side == Side::Bid
                &&& grid.bids@[i].price > 0
                &&& grid.bids@[i].price as int % config.tick_size as int == 0
            },
        forall|i: int|
            0 <= i < grid.asks@.len() ==> {
                &&& (#[trigger] grid.asks@[i]).side == Side::Ask
                &&& 10 * grid.asks@[i].price > 9 * mid_price
                &&& grid.asks@[i].price as int % config.tick_size as int == 0
            },
{
    let mut grid = QuoteGrid::default();
    match config.regime {
        Regime::Halt => {
            return grid;
        },
        _ => {},
    }
    if mid_price <= 0 || (config.max_inv_usd == 0 && inv_usd == 0) {
        return grid;
    }
    let ghost p = grid_params(mid_price, config, inv_usd, regime_multiplier);
    proof {
        lemma_grid_bounds(p);
    }
    let eff: i64 = effective_spread(mid_price, config.base_spread_bps, regime_multiplier);
    let skew: i64 = inventory_skew(mid_price, config.max_inv_usd, inv_usd, eff);
    let base_sz: i64 = if config.min_order_usd > MIN_BASE_ORDER_USD {
        config.min_order_usd
    } else {
        MIN_BASE_ORDER_USD
    };
    let n: u8 = if max_layers >= MAX_LAYERS {
        3
    } else {
        max_layers as u8
    };
    let mut layer: u8 = 0;
    while layer < n
        invariant
            layer <= n <= 3,
            p == grid_params(mid_price, config, inv_usd, regime_multiplier),
            p.valid(),
            eff == p.eff(),
            skew == p.skew(),
            base_sz == max_spec(p.min_order, MIN_BASE_ORDER_USD as int),
            0 <= eff <= 4 * MAX_RAW,
            0 < base_sz <= MAX_RAW,
            -eff <= skew <= eff,
            grid.bids@ == (if suppress_bids {
                Seq::empty()
            } else {
                p.bids_upto(layer as nat)
            }),
            grid.asks@ == (if suppress_asks {
                Seq::empty()
            } else {
                p.asks_upto(layer as nat)
            }),
        decreases n - layer,
    {
        layer = layer + 1;
        proof {
            lemma_grid_bounds(p);
        }
        let sp: i64 = layer_spread(eff, layer);
        assert(0 < base_sz as int * layer as int <= 3 * MAX_RAW) by (nonlinear_arith)
            requires
                0 < base_sz <= MAX_RAW,
                1 <= layer <= 3,
        ;
        let sz: i64 = base_sz * (layer as i64);
        assert(sp == p.layer_spread(layer as int));
        assert(sz == p.layer_size(layer as int));
        if !suppress_bids {
            let bid_price: i64 = snap_to_tick(mid_price - sp - skew, config.tick_size);
            if bid_price > 0 {
                grid.bids.push(
                    GridQuote { side: Side::Bid, layer, price: bid_price, size_usd: sz, oid: None },
                );
            }
        }
        if !suppress_asks {
            let ask_price: i64 = snap_to_tick(mid_price + sp - skew, config.tick_size);
            if ask_price as i128 * 10 > mid_price as i128 * 9 {
                grid.asks.push(
                    GridQuote { side: Side::Ask, layer, price: ask_price, size_usd: sz, oid: None },
                );
            }
        }
    }
    proof {
        lemma_grid_quotes(p, layer_count(max_layers));
    }
    grid
}


/// Every quote of a grid sits on the tick lattice and carries the price and
/// size of its layer; bids are positive, asks lie above 90 % of mid, and on
/// each side the layers come in rising order, so sizes never shrink from one
/// quote to the next.
pub proof fn lemma_grid_quotes(p: GridParams, n: nat)
    requires
        p.valid(),
        n <= 3,
    ensures
        p.bids_upto(n).len() <= n,
        p.asks_upto(n).len() <= n,
        forall|i: int|
            0 <= i < p.bids_upto(n).len() ==> {
                let q = #[trigger] p.bids_upto(n)[i];
                &&& q.side == Side::Bid
                &&& 1 <= q.layer <= n
                &&& q.price == p.bid_price(q.layer as int)
                &&& q.price > 0
                &&& q.price as int % p.tick == 0
                &&& q.size_usd == p.layer_size(q.layer as int)
                &&& q.oid is None
            },
        forall|i: int|
            0 <= i < p.asks_upto(n).len() ==> {
                let q = #[trigger] p.asks_upto(n)[i];
                &&& q.side == Side::Ask
                &&& 1 <= q.layer <= n
                &&& q.price == p.ask_price(q.layer as int)
                &&& 10 * q.price > 9 * p.mid
                &&& q.price as int % p.tick == 0
                &&& q.size_usd == p.layer_size(q.layer as int)
                &&& q.oid is None
            },
        forall|i: int, j: int|
            0 <= i < j < p.bids_upto(n).len() ==> {
                &&& (#[trigger] p.bids_upto(n)[i]).layer < (#[trigger] p.bids_upto(n)[j]).layer
                &&& p.bids_upto(n)[i].size_usd <= p.bids_upto(n)[j].size_usd
            },
        forall|i: int, j: int|
            0 <= i < j < p.asks_upto(n).len() ==> {
                &&& (#[trigger] p.asks_upto(n)[i]).layer < (#[trigger] p.asks_upto(n)[j]).layer
                &&& p.asks_upto(n)[i].size_usd <= p.asks_upto(n)[j].size_usd
            },
    decreases n,
{
    if n > 0 {
        lemma_grid_quotes(p, (n - 1) as nat);
        lemma_grid_bounds(p);
        let l = n as int;
        lemma_snap_within_half_tick(p.bid_target(l), p.tick);
        lemma_snap_within_half_tick(p.ask_target(l), p.tick);
        assert(p.layer_spread(l) <= 20 * MAX_RAW);
        assert(0 < p.layer_size(l) <= 3 * MAX_RAW);
        let b = max_spec(p.min_order, MIN_BASE_ORDER_USD as int);
        assert forall|k: int| 1 <= k <= l implies #[trigger] p.layer_size(k) <= p.layer_size(l) by {
            assert(b * k <= b * l) by (nonlinear_arith)
                requires
                    b > 0,
                    k <= l,
            ;
        }
    }
}

/// A bid lies strictly below mid exactly when its unsnapped target lies more
/// than half a tick under the first tick at or above mid. With a coarse tick
/// the bid can round up to mid or past it.
pub proof fn lemma_bid_below_mid_iff(p: GridParams, layer: int)
    requires
        p.valid(),
        1 <= layer <= 3,
    ensures
        p.bid_price(layer) < p.mid <==> 2 * p.bid_target(layer) + p.tick < 2 * p.tick
            * ticks_to_reach(p.mid, p.tick),
{
    lemma_snap_below_iff(p.bid_target(layer), p.tick, p.mid);
}

/// The capped skew never exceeds `eff - min_dist`; where the half-spread
/// reaches the fee distance, no unsnapped quote lies within that distance of
/// mid.
pub proof fn lemma_fee_safety(p: GridParams, layer: int)
    requires
        p.valid(),
        1 <= layer <= 3,
    ensures
        abs_spec(p.skew()) <= p.max_skew(),
        p.eff() >= p.min_dist() ==> {
            &&& abs_spec(p.skew()) <= p.eff() - p.min_dist()
            &&& p.mid - p.bid_target(layer) >= p.min_dist()
            &&& p.ask_target(layer) - p.mid >= p.min_dist()
        },
{
    lemma_grid_bounds(p);
    assert(p.layer_spread(layer) >= p.eff());
}

/// More inventory never raises a quote: with everything else equal, the
/// skew grows with the inventory, and the bid and the ask of each layer move
/// down or stay.
pub proof fn lemma_skew_monotone(less: GridParams, more: GridParams, layer: int)
    requires
        less.valid(),
        more.valid(),
        less.fraction_defined(),
        more.fraction_defined(),
        more == (GridParams { inv: more.inv, ..less }),
        less.inv <= more.inv,
        1 <= layer <= 3,
    ensures
        less.skew() <= more.skew(),
        more.bid_price(layer) <= less.bid_price(layer),
        more.ask_price(layer) <= less.ask_price(layer),
{
    lemma_grid_bounds(less);
    lemma_grid_bounds(more);
    assert(less.eff() == more.eff());
    assert(less.max_skew() == more.max_skew());
    if less.max_inv != 0 {
        lemma_mul_inequality(less.inv, more.inv, SCALE as int);
        lemma_div_trunc_monotone(less.inv * (SCALE as int), more.inv * (SCALE as int), less.max_inv);
    }
    assert(less.inv_fraction() <= more.inv_fraction());
    lemma_mul_inequality(less.inv_fraction(), more.inv_fraction(), less.eff() * 3);
    lemma_div_trunc_monotone(
        less.inv_fraction() * (less.eff() * 3),
        more.inv_fraction() * (less.eff() * 3),
        2 * (SCALE as int),
    );
    assert(less.raw_skew() <= more.raw_skew());
    assert(less.layer_spread(layer) == more.layer_spread(layer));
    lemma_snap_monotone(more.bid_target(layer), less.bid_target(layer), less.tick);
    lemma_snap_monotone(more.ask_target(layer), less.ask_target(layer), less.tick);
}


/// P95 latency above which spreads widen by half, in microseconds.
pub const LATENCY_WARN_US: u64 = 50_000;

/// P95 latency above which spreads double, in microseconds.
pub const LATENCY_SLOW_US: u64 = 100_000;

/// Cancel-to-fill ratio from which spreads start to widen: 50.
pub const CFR_WIDEN_FROM: u128 = 5_000_000_000;

/// Cancel-to-fill ratio at which the widening stops: 100.
pub const CFR_WIDEN_UNTIL: u128 = 10_000_000_000;

/// Multiplier above which the regime counts as uncertain: 1.5.
pub const UNCERTAIN_ABOVE: i64 = 150_000_000;

/// Volatility component: 1.0 below the calm threshold, then linear up to
/// 3.0 at the chaotic threshold.
pub open spec fn vol_multiplier(calm: int, chaotic: int, atr: int) -> int {
    if atr >= calm && atr < chaotic {
        SCALE + (2 * SCALE * (atr - calm)) / (chaotic - calm)
    } else {
        SCALE as int
    }
}

/// Cancel-to-fill component: 1.0 up to a ratio of 50, linear to 2.0 at 100,
/// 2.0 beyond.
pub open spec fn cfr_multiplier(cfr: int) -> int {
    if cfr > CFR_WIDEN_UNTIL {
        2 * SCALE
    } else if cfr > CFR_WIDEN_FROM {
        SCALE + (cfr - CFR_WIDEN_FROM) / 50
    } else {
        SCALE as int
    }
}

/// Latency component: 2.0 above 100 ms, 1.5 above 50 ms, else 1.0.
pub open spec fn latency_multiplier(p95_us: int) -> int {
    if p95_us > LATENCY_SLOW_US {
        2 * SCALE
    } else if p95_us > LATENCY_WARN_US {
        (3 * SCALE) / 2
    } else {
        SCALE as int
    }
}

/// The product of the three components, clamped to `[1.0, 4.0]`.
pub open spec fn combined_multiplier(
    calm: int,
    chaotic: int,
    atr: int,
    cfr: int,
    p95_us: int,
) -> int {
    clamp_spec(
        (vol_multiplier(calm, chaotic, atr) * cfr_multiplier(cfr) * latency_multiplier(p95_us)) / (
        SCALE * SCALE),
        MIN_MULTIPLIER as int,
        MAX_MULTIPLIER as int,
    )
}

/// Ranges of the three components.
pub proof fn lemma_multiplier_ranges(calm: int, chaotic: int, atr: int, cfr: int, p95_us: int)
    requires
        0 <= calm <= chaotic,
    ensures
        SCALE <= vol_multiplier(calm, chaotic, atr) <= 3 * SCALE,
        SCALE <= cfr_multiplier(cfr) <= 2 * SCALE,
        SCALE <= latency_multiplier(p95_us) <= 2 * SCALE,
{
    if atr >= calm && atr < chaotic {
        let d = chaotic - calm;
        let n = 2 * SCALE * (atr - calm);
        assert(0 <= n <= 2 * SCALE * d) by (nonlinear_arith)
            requires
                n == 2 * SCALE * (atr - calm),
                0 <= atr - calm < d,
        ;
        lemma_div_bounds(n, d);
        lemma_div_monotone(n, 2 * SCALE * d, d);
        lemma_div_multiples_vanish(2 * SCALE, d);
        assert(2 * SCALE * d == d * (2 * SCALE)) by (nonlinear_arith);
    }
}

/// Widening is monotone: a higher volatility below the chaotic threshold, a
/// higher cancel-to-fill ratio or a higher latency never lowers the spread
/// multiplier.
pub proof fn lemma_regime_monotone(
    calm: int,
    chaotic: int,
    atr1: int,
    cfr1: int,
    lat1: int,
    atr2: int,
    cfr2: int,
    lat2: int,
)
    requires
        0 <= calm <= chaotic,
        atr1 <= atr2 < chaotic,
        cfr1 <= cfr2,
        lat1 <= lat2,
    ensures
        combined_multiplier(calm, chaotic, atr1, cfr1, lat1) <= combined_multiplier(
            calm,
            chaotic,
            atr2,
            cfr2,
            lat2,
        ),
{
    lemma_multiplier_ranges(calm, chaotic, atr1, cfr1, lat1);
    lemma_multiplier_ranges(calm, chaotic, atr2, cfr2, lat2);
    let v1 = vol_multiplier(calm, chaotic, atr1);
    let v2 = vol_multiplier(calm, chaotic, atr2);
    let c1 = cfr_multiplier(cfr1);
    let c2 = cfr_multiplier(cfr2);
    let l1 = latency_multiplier(lat1);
    let l2 = latency_multiplier(lat2);
    if atr1 >= calm {
        let d = chaotic - calm;
        assert(2 * SCALE * (atr1 - calm) <= 2 * SCALE * (atr2 - calm)) by (nonlinear_arith)
            requires
                atr1 <= atr2,
        ;
        lemma_div_monotone(2 * SCALE * (atr1 - calm), 2 * SCALE * (atr2 - calm), d);
    }
    assert(v1 <= v2);
    assert(c1 <= c2);
    assert(l1 <= l2);
    lemma_mul_monotone(v1, v2, c1, c2);
    lemma_mul_nonnegative(v1, c1);
    lemma_mul_monotone(v1 * c1, v2 * c2, l1, l2);
    lemma_div_monotone(v1 * c1 * l1, v2 * c2 * l2, SCALE * SCALE);
}

/// Turns volatility, cancel-to-fill ratio, latency and funding into one
/// spread multiplier and a regime.
#[derive(Debug)]
pub struct RegimeGovernor {
    /// Volatility below which the market is calm.
    pub calm_atr_threshold: i64,
    /// Volatility from which quoting halts.
    pub chaotic_atr_threshold: i64,
    /// Magnitude of the funding rate from which quoting halts.
    pub max_funding_halt: i64,
    /// Current spread multiplier.
    pub current_multiplier: i64,
    pub regime: Regime,
}

impl RegimeGovernor {
    /// Thresholds are ordered and the multiplier lies in `[1.0, 4.0]`.
    pub open spec fn wf(&self) -> bool {
        &&& 0 <= self.calm_atr_threshold <= self.chaotic_atr_threshold <= MAX_RAW
        &&& MIN_MULTIPLIER <= self.current_multiplier <= MAX_MULTIPLIER
    }

    /// Whether the given inputs halt quoting.
    pub open spec fn halts(&self, atr_fraction: int, funding_rate: int) -> bool {
        abs_spec(funding_rate) >= self.max_funding_halt || atr_fraction
            >= self.chaotic_atr_threshold
    }

    /// Calm at 0.15 % volatility, halting from 0.5 % volatility or a funding
    /// rate of 0.3 %, multiplier 1.0.
    pub fn new() -> (g: Self)
        ensures
            g.calm_atr_threshold == 150_000,
            g.chaotic_atr_threshold == 500_000,
            g.max_funding_halt == 300_000,
            g.current_multiplier == SCALE,
            g.regime == Regime::Calm,
            g.wf(),
    {
        RegimeGovernor {
            calm_atr_threshold: 150_000,
            chaotic_atr_threshold: 500_000,
            max_funding_halt: 300_000,
            current_multiplier: SCALE,
            regime: Regime::Calm,
        }
    }

    /// Recomputes multiplier and regime; returns whether the regime changed.
    ///
    /// A halt leaves the multiplier as it was.
    pub fn update(
        &mut self,
        atr_fraction: i64,
        cancel_fill_ratio: u128,
        p95_latency_us: u64,
        funding_rate: i64,
    ) -> (changed: bool)
        requires
            old(self).wf(),
        ensures
            final(self).wf(),
            final(self).calm_atr_threshold == old(self).calm_atr_threshold,
            final(self).chaotic_atr_threshold == old(self).chaotic_atr_threshold,
            final(self).max_funding_halt == old(self).max_funding_halt,
            changed == (final(self).regime != old(self).regime),
            old(self).halts(atr_fraction as int, funding_rate as int) ==> {
                &&& final(self).regime == Regime::Halt
                &&& final(self).current_multiplier == old(self).current_multiplier
            },
            !old(self).halts(atr_fraction as int, funding_rate as int) ==> {
                &&& final(self).current_multiplier == combined_multiplier(
                    old(self).calm_atr_threshold as int,
                    old(self).chaotic_atr_threshold as int,
                    atr_fraction as int,
                    cancel_fill_ratio as int,
                    p95_latency_us as int,
                )
                &&& final(self).regime == (if final(self).current_multiplier > UNCERTAIN_ABOVE {
                    Regime::Uncertain
                } else {
                    Regime::Calm
                })
            },
    {
        let prev = self.regime;
        let funding_mag: u64 = abs_i64(funding_rate);
        if atr_fraction >= self.chaotic_atr_threshold || (self.max_funding_halt < 0
            || funding_mag >= self.max_funding_halt as u64) {
            self.regime = Regime::Halt;
            return !regime_eq(prev, Regime::Halt);
        }
        let ghost calm = self.calm_atr_threshold as int;
        let ghost chaotic = self.chaotic_atr_threshold as int;
        proof {
            lemma_multiplier_ranges(
                calm,
                chaotic,
                atr_fraction as int,
                cancel_fill_ratio as int,
                p95_latency_us as int,
            );
        }
        let vol: u64 = if atr_fraction >= self.calm_atr_threshold {
            let span: u64 = (self.chaotic_atr_threshold - self.calm_atr_threshold) as u64;
            let over: u64 = (atr_fraction - self.calm_atr_threshold) as u64;
            assert(2 * SCALE * (over as int) == (2 * SCALE as u64) as int * over as int)
                by (nonlinear_arith);
            let widen: u128 = mul_div_floor(2 * SCALE as u64, over, span);
            SCALE as u64 + widen as u64
        } else {
            SCALE as u64
        };
        let cfr: u64 = if cancel_fill_ratio > CFR_WIDEN_UNTIL {
            2 * SCALE as u64
        } else if cancel_fill_ratio > CFR_WIDEN_FROM {
            SCALE as u64 + ((cancel_fill_ratio - CFR_WIDEN_FROM) / 50) as u64
        } else {
            SCALE as u64
        };
        let lat: u64 = if p95_latency_us > LATENCY_SLOW_US {
            2 * SCALE as u64
        } else if p95_latency_us > LATENCY_WARN_US {
            (3 * SCALE as u64) / 2
        } else {
            SCALE as u64
        };
        proof {
            lemma_mul_bound(vol as int, 3 * SCALE, cfr as int, 2 * SCALE);
            lemma_mul_bound(vol as int * cfr as int, 3 * SCALE * (2 * SCALE), lat as int, 2 * SCALE);
            lemma_div_bounds(vol as int * cfr as int * lat as int, SCALE * SCALE);
            lemma_div_monotone(
                vol as int * cfr as int * lat as int,
                3 * SCALE * (2 * SCALE) * (2 * SCALE),
                SCALE * SCALE,
            );
        }
        let product: u128 = (vol as u128) * (cfr as u128) * (lat as u128);
        let combined: u128 = product / ((SCALE as u128) * (SCALE as u128));
        self.current_multiplier = if combined < MIN_MULTIPLIER as u128 {
            MIN_MULTIPLIER
        } else if combined > MAX_MULTIPLIER as u128 {
            MAX_MULTIPLIER
        } else {
            combined as i64
        };
        self.regime = if self.current_multiplier > UNCERTAIN_ABOVE {
            Regime::Uncertain
        } else {
            Regime::Calm
        };
        !regime_eq(prev, self.regime)
    }

    /// Whether the governor halts quoting.
    pub fn is_halt(&self) -> (r: bool)
        ensures
            r == (self.regime == Regime::Halt),
    {
        regime_eq(self.regime, Regime::Halt)
    }

    /// The current spread multiplier.
    pub fn spread_multiplier(&self) -> (r: i64)
        ensures
            r == self.current_multiplier,
    {
        self.current_multiplier
    }
}

/// Whether two regimes are the same.
pub fn regime_eq(a: Regime, b: Regime) -> (r: bool)
    ensures
        r == (a == b),
{
    match (a, b) {
        (Regime::Calm, Regime::Calm) => true,
        (Regime::Uncertain, Regime::Uncertain) => true,
        (Regime::Halt, Regime::Halt) => true,
        _ => false,
    }
}


impl Side {
    /// `"bid"` or `"ask"`.
    pub fn name(self) -> (r: &'static str)
        ensures
            r@ == (if self == Side::Bid {
                "bid"@
            } else {
                "ask"@
            }),
    {
        match self {
            Side::Bid => "bid",
            Side::Ask => "ask",
        }
    }
}

/// Fill probability reached at which a shadow order counts as filled: 0.70.
pub const LIKELY_FILLED: i64 = 70_000_000;

/// A resting shadow order and the taker volume that has traded through it.
#[derive(Clone, Copy, Debug)]
pub struct QueueEntry {
    pub price: i64,
    pub is_bid: bool,
    /// Resting size in USD; positive.
    pub size_usd: i64,
    /// Taker volume in USD at or through the price since placement.
    pub volume_traded_through: i64,
    pub placed_at_ms: u64,
}

impl QueueEntry {
    pub open spec fn wf(self) -> bool {
        self.size_usd > 0 && self.volume_traded_through >= 0
    }

    /// Whether a taker trade reaches this order: a sell at or below a bid,
    /// a buy at or above an ask.
    pub open spec fn crossed_by(self, trade_price: int, is_taker_buy: bool) -> bool {
        if self.is_bid {
            !is_taker_buy && trade_price <= self.price
        } else {
            is_taker_buy && trade_price >= self.price
        }
    }

    /// The entry after a taker trade.
    pub open spec fn after_trade(self, trade_price: int, is_taker_buy: bool, volume_usd: int) -> Self {
        if self.crossed_by(trade_price, is_taker_buy) {
            QueueEntry {
                volume_traded_through: sat_add_spec(self.volume_traded_through as int, volume_usd) as i64,
                ..self
            }
        } else {
            self
        }
    }

    /// `min(1, through / (2 * size))`: the order is taken to rest in the
    /// middle of the queue.
    pub open spec fn fill_probability(self) -> int {
        min_spec(
            SCALE as int,
            (self.volume_traded_through * SCALE) / (2 * self.size_usd),
        )
    }
}

/// Estimates, from the taker volume that traded at or through a resting
/// price, whether a shadow order would have been filled.
pub struct QueuePositionEstimator {
    pub entries: CoinMap<QueueEntry>,
}

impl QueuePositionEstimator {
    pub open spec fn wf(&self) -> bool {
        &&& self.entries.wf()
        &&& forall|k: Seq<char>| #[trigger]
            self.entries@.contains_key(k) ==> self.entries@[k].wf()
    }

    /// The orders tracked, by key.
    pub open spec fn view(&self) -> Map<Seq<char>, QueueEntry> {
        self.entries@
    }

    /// An estimator that tracks no order.
    pub fn new() -> (e: Self)
        ensures
            e.wf(),
            e@ == Map::<Seq<char>, QueueEntry>::empty(),
    {
        QueuePositionEstimator { entries: CoinMap::new() }
    }

    /// Whether an order is tracked under this key.
    pub fn is_registered(&self, key: &str) -> (r: bool)
        requires
            self.wf(),
        ensures
            r == self@.contains_key(key@),
    {
        self.entries.contains_key(key)
    }

    /// Starts tracking an order, with no volume traded through it yet.
    pub fn register_order(&mut self, key: &str, price: i64, is_bid: bool, size_usd: i64, now_ms: u64)
        requires
            old(self).wf(),
            size_usd > 0,
        ensures
            final(self).wf(),
            final(self)@ == old(self)@.insert(
                key@,
                QueueEntry { price, is_bid, size_usd, volume_traded_through: 0, placed_at_ms: now_ms },
            ),
    {
        self.entries.insert(
            key,
            QueueEntry { price, is_bid, size_usd, volume_traded_through: 0, placed_at_ms: now_ms },
        );
    }

    /// Feeds a taker trade to the order under `key`, if there is one: where
    /// the trade reaches the resting price its volume is added.
    pub fn on_trade(&mut self, key: &str, trade_price: i64, is_taker_buy: bool, volume_usd: i64)
        requires
            old(self).wf(),
            volume_usd >= 0,
        ensures
            final(self).wf(),
            final(self)@ == (if old(self)@.contains_key(key@) {
                old(self)@.insert(
                    key@,
                    old(self)@[key@].after_trade(trade_price as int, is_taker_buy, volume_usd as int),
                )
            } else {
                old(self)@
            }),
    {
        let found = match self.entries.get(key) {
            Some(e) => Some(*e),
            None => None,
        };
        match found {
            Some(e) => {
                let through = if e.is_bid {
                    !is_taker_buy && trade_price <= e.price
                } else {
                    is_taker_buy && trade_price >= e.price
                };
                let next = if through {
                    QueueEntry {
                        volume_traded_through: sat_add(e.volume_traded_through, volume_usd),
                        ..e
                    }
                } else {
                    e
                };
                self.entries.insert(key, next);
            },
            None => {},
        }
    }

    /// Estimated fill probability of the order under `key`; zero where none
    /// is tracked.
    pub fn fill_probability(&self, key: &str) -> (r: i64)
        requires
            self.wf(),
        ensures
            r == (if self@.contains_key(key@) {
                self@[key@].fill_probability()
            } else {
                0
            }),
            0 <= r <= SCALE,
    {
        match self.entries.get(key) {
            None => 0,
            Some(e) => {
                assert(self@.contains_key(key@));
                assert(e.wf());
                proof {
                    lemma_div_bounds(
                        e.volume_traded_through as int * SCALE as int,
                        2 * e.size_usd as int,
                    );
                    lemma_mul_nonnegative(e.volume_traded_through as int, SCALE as int);
                }
                let q: u128 = mul_div_floor(
                    e.volume_traded_through as u64,
                    SCALE as u64,
                    2 * (e.size_usd as u64),
                );
                if q > SCALE as u128 {
                    SCALE
                } else {
                    q as i64
                }
            },
        }
    }

    /// Whether the order under `key` has reached the given fill probability.
    pub fn is_likely_filled(&self, key: &str, threshold: i64) -> (r: bool)
        requires
            self.wf(),
        ensures
            r == ((if self@.contains_key(key@) {
                self@[key@].fill_probability()
            } else {
                0
            }) >= threshold),
    {
        self.fill_probability(key) >= threshold
    }

    /// Stops tracking the order under `key`.
    pub fn remove(&mut self, key: &str)
        requires
            old(self).wf(),
        ensures
            final(self).wf(),
            final(self)@ == old(self)@.remove(key@),
    {
        let _ = self.entries.remove(key);
    }
}

/// Maker rebate as a divisor of the notional: one basis point.
pub const REBATE_DIVISOR: i64 = 10_000;

/// A simulated maker fill.
#[derive(Debug)]
pub struct ShadowFill {
    pub coin: String,
    pub side: Side,
    pub layer: u8,
    pub price: i64,
    pub size_usd: i64,
    pub fill_ts_ms: u64,
    pub maker_rebate_usd: i64,
}

/// The rebate a maker fill of the given notional earns: 0.01 %.
pub open spec fn maker_rebate(size_usd: int) -> int {
    div_trunc(size_usd, REBATE_DIVISOR as int)
}

impl ShadowFill {
    /// The fill of a grid quote at `ts_ms`.
    pub fn new(coin: &str, q: &GridQuote, ts_ms: u64) -> (f: Self)
        ensures
            f.coin@ == coin@,
            f.side == q.side,
            f.layer == q.layer,
            f.price == q.price,
            f.size_usd == q.size_usd,
            f.fill_ts_ms == ts_ms,
            f.maker_rebate_usd == maker_rebate(q.size_usd as int),
    {
        let whole: u64 = abs_i64(q.size_usd);
        let mag: u64 = whole / 10_000;
        assert(mag <= whole);
        let rebate: i64 = if q.size_usd >= 0 {
            mag as i64
        } else {
            -(mag as i64)
        };
        ShadowFill {
            coin: String::from_str(coin),
            side: q.side,
            layer: q.layer,
            price: q.price,
            size_usd: q.size_usd,
            fill_ts_ms: ts_ms,
            maker_rebate_usd: rebate,
        }
    }
}

/// Shadow-mode performance of one session.
#[derive(Debug)]
pub struct ShadowSession {
    pub fills: Vec<ShadowFill>,
    pub total_volume_usd: i64,
    pub total_rebates_usd: i64,
    pub total_pnl_usd: i64,
}

impl Default for ShadowSession {
    fn default() -> (s: Self)
        ensures
            s.fills@.len() == 0,
            s.total_volume_usd == 0,
            s.total_rebates_usd == 0,
            s.total_pnl_usd == 0,
    {
        ShadowSession { fills: Vec::new(), total_volume_usd: 0, total_rebates_usd: 0, total_pnl_usd: 0 }
    }
}

impl ShadowSession {
    /// Books a fill: volume grows by its size, rebates and PnL by its
    /// rebate, each held at the ends of the `i64` range.
    pub fn record_fill(&mut self, fill: ShadowFill)
        ensures
            final(self).fills@ == old(self).fills@.push(fill),
            final(self).total_volume_usd == sat_add_spec(
                old(self).total_volume_usd as int,
                fill.size_usd as int,
            ),
            final(self).total_rebates_usd == sat_add_spec(
                old(self).total_rebates_usd as int,
                fill.maker_rebate_usd as int,
            ),
            final(self).total_pnl_usd == sat_add_spec(
                old(self).total_pnl_usd as int,
                fill.maker_rebate_usd as int,
            ),
    {
        self.total_volume_usd = sat_add(self.total_volume_usd, fill.size_usd);
        self.total_rebates_usd = sat_add(self.total_rebates_usd, fill.maker_rebate_usd);
        self.total_pnl_usd = sat_add(self.total_pnl_usd, fill.maker_rebate_usd);
        self.fills.push(fill);
    }

    /// The text of a report.
    pub open spec fn report_text(pnl: int, volume: int, rebates: int, fills: nat) -> Seq<char> {
        "Shadow PnL: $"@ + bytes_as_chars(fixed_text_spec(pnl, 4)) + " | Volume: $"@
            + bytes_as_chars(fixed_text_spec(volume, 2)) + " | Rebates: $"@ + bytes_as_chars(
            fixed_text_spec(rebates, 4),
        ) + " | Fills: "@ + bytes_as_chars(dec_digits(fills))
    }

    /// A one-line report: PnL and rebates with four decimals, volume with
    /// two, and the number of fills.
    pub fn report(&self) -> (r: String)
        ensures
            r@ == Self::report_text(
                self.total_pnl_usd as int,
                self.total_volume_usd as int,
                self.total_rebates_usd as int,
                self.fills@.len(),
            ),
    {
        String::from_str("Shadow PnL: $").concat(fixed_text(self.total_pnl_usd, 4).as_str()).concat(
            " | Volume: $",
        ).concat(fixed_text(self.total_volume_usd, 2).as_str()).concat(" | Rebates: $").concat(
            fixed_text(self.total_rebates_usd, 4).as_str(),
        ).concat(" | Fills: ").concat(count_text(self.fills.len() as u64).as_str())
    }
}

} // verus!
