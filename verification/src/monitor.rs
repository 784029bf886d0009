//! Rolling performance of closed trades and the action it suggests.

use std::collections::VecDeque;
use vstd::prelude::*;
use crate::decimal::{abs_i64, lemma_div_bounds, SCALE};
use crate::window::{push_rolling, rolled};

verus! {

/// Profit factor reported where there are profits and no losses: 100.
pub const PROFIT_FACTOR_CAP: i64 = 10_000_000_000;

/// Size multiplier suggested on a warning: one half.
pub const REDUCED_SIZE: i64 = 50_000_000;

/// How the monitor judges.
#[derive(Clone, Copy, Debug)]
pub struct MonitorConfig {
    /// Trades in the rolling window.
    pub window_size: usize,
    /// Trades the window must hold before an action is suggested.
    pub min_trades_for_action: usize,
    /// Profit factor below which a smaller size is suggested.
    pub pf_threshold_warning: i64,
    /// Profit factor below which a halt is suggested.
    pub pf_threshold_critical: i64,
}

impl Default for MonitorConfig {
    /// A window of 100 trades, actions from 20 trades on, a warning below
    /// a profit factor of 1.0, a halt below 0.8.
    fn default() -> (c: Self)
        ensures
            c.window_size == 100,
            c.min_trades_for_action == 20,
            c.pf_threshold_warning == SCALE,
            c.pf_threshold_critical == 80_000_000,
    {
        MonitorConfig {
            window_size: 100,
            min_trades_for_action: 20,
            pf_threshold_warning: 100_000_000,
            pf_threshold_critical: 80_000_000,
        }
    }
}

/// One closed trade.
#[derive(Clone, Copy, Debug)]
pub struct TradeResult {
    pub pnl: i64,
    pub is_win: bool,
}

/// What the monitor suggests.
#[derive(Clone, Copy, Debug, PartialEq, Eq, Structural)]
pub enum FeedbackAction {
    NoAction,
    /// Trade at this multiple of the usual size.
    ReduceSize(i64),
    HaltTrading,
}

impl Default for FeedbackAction {
    fn default() -> (a: Self)
        ensures
            a == FeedbackAction::NoAction,
    {
        FeedbackAction::NoAction
    }
}

/// The monitor's reading of its window.
#[derive(Clone, Copy, Debug)]
pub struct PerformanceMetrics {
    /// Winning trades as a percentage of all.
    pub win_rate: i64,
    /// Gross profit over gross loss.
    pub profit_factor: i64,
    pub trade_count: usize,
    pub suggested_action: FeedbackAction,
}

impl Default for PerformanceMetrics {
    fn default() -> (m: Self)
        ensures
            m.win_rate == 0,
            m.profit_factor == 0,
            m.trade_count == 0,
            m.suggested_action == FeedbackAction::NoAction,
    {
        PerformanceMetrics {
            win_rate: 0,
            profit_factor: 0,
            trade_count: 0,
            suggested_action: FeedbackAction::NoAction,
        }
    }
}

/// Number of wins in a window.
pub open spec fn wins_of(h: Seq<TradeResult>) -> nat
    decreases h.len(),
{
    if h.len() == 0 {
        0
    } else {
        wins_of(h.drop_last()) + (if h.last().is_win {
            1nat
        } else {
            0
        })
    }
}

/// Sum of the profits in a window.
pub open spec fn gross_profit(h: Seq<TradeResult>) -> nat
    decreases h.len(),
{
    if h.len() == 0 {
        0
    } else {
        gross_profit(h.drop_last()) + (if h.last().pnl > 0 {
            h.last().pnl as nat
        } else {
            0
        })
    }
}

/// Sum of the losses in a window, as a positive amount.
pub open spec fn gross_loss(h: Seq<TradeResult>) -> nat
    decreases h.len(),
{
    if h.len() == 0 {
        0
    } else {
        gross_loss(h.drop_last()) + (if h.last().pnl < 0 {
            (-h.last().pnl) as nat
        } else {
            0
        })
    }
}

/// Wins as a percentage of the trades; zero for an empty window.
pub open spec fn win_rate_of(h: Seq<TradeResult>) -> int {
    if h.len() == 0 {
        0
    } else {
        (wins_of(h) * 100 * SCALE) / (h.len() as int)
    }
}

/// Gross profit over gross loss, held at `i64::MAX`; 100 with profits and
/// no losses; zero with neither.
pub open spec fn profit_factor_of(h: Seq<TradeResult>) -> int {
    if gross_loss(h) > 0 {
        let q = (gross_profit(h) * SCALE) / (gross_loss(h) as int);
        if q > i64::MAX {
            i64::MAX as int
        } else {
            q
        }
    } else if gross_profit(h) > 0 {
        PROFIT_FACTOR_CAP as int
    } else {
        0
    }
}

/// The action for a profit factor over a number of trades: none below the
/// minimum of trades; a halt below the critical factor; half size below
/// the warning factor.
pub open spec fn action_for(config: MonitorConfig, pf: int, count: nat) -> FeedbackAction {
    if count < config.min_trades_for_action {
        FeedbackAction::NoAction
    } else if pf < config.pf_threshold_critical {
        FeedbackAction::HaltTrading
    } else if pf < config.pf_threshold_warning {
        FeedbackAction::ReduceSize(REDUCED_SIZE)
    } else {
        FeedbackAction::NoAction
    }
}

/// Sums over a window are bounded by its length.
pub proof fn lemma_window_bounds(h: Seq<TradeResult>)
    ensures
        wins_of(h) <= h.len(),
        gross_profit(h) <= h.len() * 0x8000_0000_0000_0000,
        gross_loss(h) <= h.len() * 0x8000_0000_0000_0000,
    decreases h.len(),
{
    if h.len() > 0 {
        lemma_window_bounds(h.drop_last());
        assert((h.len() - 1) * 0x8000_0000_0000_0000 + 0x8000_0000_0000_0000 == h.len()
            * 0x8000_0000_0000_0000) by (nonlinear_arith);
    }
}

/// Judges the latest trades by win rate and profit factor.
pub struct PerformanceMonitor {
    pub config: MonitorConfig,
    /// The latest trades, oldest first.
    pub history: VecDeque<TradeResult>,
}

impl PerformanceMonitor {
    /// The window is small enough for its sums.
    pub open spec fn wf(&self) -> bool {
        self.history@.len() <= 0x1_0000_0000
    }

    /// A monitor with an empty window.
    pub fn new(config: MonitorConfig) -> (m: Self)
        ensures
            m.config == config,
            m.history@.len() == 0,
            m.wf(),
    {
        PerformanceMonitor { config, history: VecDeque::new() }
    }

    /// Records a closed trade; a positive result is a win. Once the window
    /// is full the oldest trade leaves.
    pub fn record_trade(&mut self, pnl: i64)
        ensures
            final(self).config == old(self).config,
            final(self).history@ == rolled(
                old(self).history@,
                old(self).config.window_size as int,
                TradeResult { pnl, is_win: pnl > 0 },
            ),
    {
        push_rolling(&mut self.history, self.config.window_size, TradeResult { pnl, is_win: pnl > 0 });
    }

    /// Wins, gross profit and gross loss of the window.
    fn sums(&self) -> (r: (usize, u128, u128))
        requires
            self.wf(),
        ensures
            r.0 == wins_of(self.history@),
            r.1 == gross_profit(self.history@),
            r.2 == gross_loss(self.history@),
    {
        let n = self.history.len();
        let mut wins: usize = 0;
        let mut profit: u128 = 0;
        let mut loss: u128 = 0;
        let mut i: usize = 0;
        assert(self.history@.subrange(0, 0) =~= Seq::<TradeResult>::empty());
        while i < n
            invariant
                i <= n,
                n == self.history@.len(),
                n <= 0x1_0000_0000,
                wins == wins_of(self.history@.subrange(0, i as int)),
                profit == gross_profit(self.history@.subrange(0, i as int)),
                loss == gross_loss(self.history@.subrange(0, i as int)),
            decreases n - i,
        {
            proof {
                let next = self.history@.subrange(0, i as int + 1);
                assert(next.drop_last() =~= self.history@.subrange(0, i as int));
                assert(next.last() == self.history@[i as int]);
                lemma_window_bounds(self.history@.subrange(0, i as int));
                assert(i * 0x8000_0000_0000_0000 <= 0x1_0000_0000 * 0x8000_0000_0000_0000)
                    by (nonlinear_arith)
                    requires
                        i <= 0x1_0000_0000,
                ;
            }
            let t = self.history[i];
            if t.is_win {
                wins = wins + 1;
            }
            if t.pnl > 0 {
                profit = profit + t.pnl as u128;
            } else if t.pnl < 0 {
                loss = loss + abs_i64(t.pnl) as u128;
            }
            i += 1;
        }
        assert(self.history@.subrange(0, n as int) =~= self.history@);
        (wins, profit, loss)
    }

    /// Wins as a percentage of the trades in the window.
    pub fn win_rate(&self) -> (r: i64)
        requires
            self.wf(),
        ensures
            r == win_rate_of(self.history@),
    {
        let n = self.history.len();
        if n == 0 {
            return 0;
        }
        let (wins, _, _) = self.sums();
        proof {
            lemma_window_bounds(self.history@);
            lemma_div_bounds(wins as int * 100 * SCALE, n as int);
            vstd::arithmetic::div_mod::lemma_div_is_ordered(
                wins as int * 100 * SCALE,
                n as int * 100 * SCALE,
                n as int,
            );
            assert(n as int * 100 * SCALE == (100 * SCALE) * n as int) by (nonlinear_arith);
            vstd::arithmetic::div_mod::lemma_div_multiples_vanish(100 * SCALE, n as int);
        }
        ((wins as u128 * 100 * (SCALE as u128)) / (n as u128)) as i64
    }

    /// The action that a profit factor over a number of trades suggests.
    pub fn evaluate_action(&self, pf: i64, count: usize) -> (a: FeedbackAction)
        ensures
            a == action_for(self.config, pf as int, count as nat),
    {
        if count < self.config.min_trades_for_action {
            return FeedbackAction::NoAction;
        }
        if pf < self.config.pf_threshold_critical {
            FeedbackAction::HaltTrading
        } else if pf < self.config.pf_threshold_warning {
            FeedbackAction::ReduceSize(REDUCED_SIZE)
        } else {
            FeedbackAction::NoAction
        }
    }

    /// Win rate, profit factor and number of the trades in the window, and
    /// the action they suggest.
    pub fn get_metrics(&self) -> (m: PerformanceMetrics)
        requires
            self.wf(),
        ensures
            m.trade_count == self.history@.len(),
            m.win_rate == win_rate_of(self.history@),
            m.profit_factor == (if self.history@.len() == 0 {
                0
            } else {
                profit_factor_of(self.history@)
            }),
            m.suggested_action == (if self.history@.len() == 0 {
                FeedbackAction::NoAction
            } else {
                action_for(self.config, profit_factor_of(self.history@), self.history@.len())
            }),
    {
        let n = self.history.len();
        if n == 0 {
            return PerformanceMetrics::default();
        }
        let (_, profit, loss) = self.sums();
        proof {
            lemma_window_bounds(self.history@);
            assert(n * 0x8000_0000_0000_0000 <= 0x1_0000_0000 * 0x8000_0000_0000_0000)
                by (nonlinear_arith)
                requires
                    n <= 0x1_0000_0000,
            ;
        }
        let profit_factor: i64 = if loss > 0 {
            let q: u128 = (profit * (SCALE as u128)) / loss;
            if q > i64::MAX as u128 {
                i64::MAX
            } else {
                q as i64
            }
        } else if profit > 0 {
            PROFIT_FACTOR_CAP
        } else {
            0
        };
        PerformanceMetrics {
            win_rate: self.win_rate(),
            profit_factor,
            trade_count: n,
            suggested_action: self.evaluate_action(profit_factor, n),
        }
    }
}

} // verus!
