//! Trading halts: the kill switch, the loss-streak pause and the daily
//! drawdown stop. Times are UTC epoch seconds.

use chrono::{DateTime, Utc};
use vstd::prelude::*;
use vstd::string::*;
use crate::decimal::SCALE;
use crate::exchange::join;
use crate::wire::{bytes_as_chars, int_text, int_text_spec};

verus! {

/// Seconds of one day.
pub const DAY_SECS: i64 = 86_400;

/// Latest time the risk manager accepts: the end of the year 9999.
pub const MAX_EPOCH_SECS: i64 = 253_402_300_799;

/// Limits of the risk manager.
#[derive(Clone, Copy, Debug)]
pub struct RiskConfig {
    /// Daily drawdown, as a fraction of the day's starting balance, beyond
    /// which trading halts until the next day.
    pub max_daily_drawdown_percent: i64,
    /// Losses in a row that pause trading.
    pub max_consecutive_losses: usize,
    /// Length of that pause in seconds.
    pub trading_halt_duration_secs: i64,
}

impl Default for RiskConfig {
    /// A 10 % drawdown stop and a one-hour pause after five losses in a row.
    fn default() -> (c: Self)
        ensures
            c.max_daily_drawdown_percent == 10_000_000,
            c.max_consecutive_losses == 5,
            c.trading_halt_duration_secs == 3_600,
    {
        RiskConfig {
            max_daily_drawdown_percent: 10_000_000,
            max_consecutive_losses: 5,
            trading_halt_duration_secs: 3_600,
        }
    }
}

/// What the risk manager remembers between runs.
#[derive(Clone, Copy, Debug)]
pub struct RiskState {
    pub start_of_day_balance: i64,
    pub last_day_reset: i64,
    pub consecutive_loss_count: usize,
    pub halt_until: Option<i64>,
    pub is_kill_switch_active: bool,
}

/// The UTC day of a time.
pub open spec fn day_of(t: int) -> int {
    t / (DAY_SECS as int)
}

/// Whether the balance has fallen from the day's start by more than the
/// given fraction of that start.
pub open spec fn drawdown_exceeds(start: int, current: int, max_fraction: int) -> bool {
    if start > 0 {
        (start - current) * SCALE > max_fraction * start
    } else if start < 0 {
        (start - current) * SCALE < max_fraction * start
    } else {
        current < 0
    }
}

/// `t + d`, held to the times the risk manager accepts.
pub open spec fn later(t: int, d: int) -> int {
    if t + d > MAX_EPOCH_SECS {
        MAX_EPOCH_SECS as int
    } else if t + d < 0 {
        0
    } else {
        t + d
    }
}

/// The text of a UTC time given in whole epoch seconds, as `chrono` writes
/// it: the date, the time of day, and `UTC`.
pub uninterp spec fn utc_text(epoch_secs: i64) -> Seq<char>;

/// `DateTime::<Utc>::from_timestamp` of `chrono`, and the `Display` of the
/// time it gives: the text of the UTC time that lies `epoch_secs` whole
/// seconds after the epoch; none where `chrono` has no such time.
#[verifier::external_body]
fn utc_time_text(epoch_secs: i64) -> (r: Option<String>)
    ensures
        r matches Some(t) ==> t@ == utc_text(epoch_secs),
{
    match DateTime::<Utc>::from_timestamp(epoch_secs, 0) {
        Some(time) => Some(time.to_string()),
        None => None,
    }
}

/// The refusal to trade before a halt has ended: it names the end as a UTC
/// time where `time_text` gives one, else in epoch seconds.
pub open spec fn halt_notice_spec(halt_until: i64, time_text: Option<Seq<char>>) -> Seq<char> {
    "Trading halted until "@ + (match time_text {
        Some(t) => t,
        None => bytes_as_chars(int_text_spec(halt_until as int)),
    })
}

/// The refusal to trade before a halt has ended.
pub fn halt_notice(halt_until: i64, time_text: Option<&str>) -> (r: String)
    ensures
        r@ == halt_notice_spec(
            halt_until,
            match time_text {
                Some(t) => Some(t@),
                None => None,
            },
        ),
{
    match time_text {
        Some(t) => join("Trading halted until ", t),
        None => join("Trading halted until ", int_text(halt_until).as_str()),
    }
}

/// Gates trading on the kill switch and on the halts that losses bring.
pub struct RiskManager {
    pub config: RiskConfig,
    pub start_of_day_balance: i64,
    pub last_day_reset: i64,
    pub consecutive_loss_count: usize,
    pub halt_until: Option<i64>,
    pub is_kill_switch_active: bool,
}

impl RiskManager {
    /// The state after a closed trade: start of day, loss streak, halt.
    pub open spec fn after_trade(&self, pnl: int, current_balance: int, now: int) -> RiskState {
        let new_day = day_of(now) > day_of(self.last_day_reset as int);
        let start = if new_day {
            current_balance
        } else {
            self.start_of_day_balance as int
        };
        let streak = if pnl < 0 {
            self.consecutive_loss_count + 1
        } else {
            0
        };
        let paused = streak >= self.config.max_consecutive_losses;
        let stopped = drawdown_exceeds(start, current_balance, self.config.max_daily_drawdown_percent as int);
        RiskState {
            start_of_day_balance: start as i64,
            last_day_reset: if new_day {
                now as i64
            } else {
                self.last_day_reset
            },
            consecutive_loss_count: if paused {
                0
            } else {
                streak as usize
            },
            halt_until: if stopped {
                Some(((day_of(now) + 1) * DAY_SECS) as i64)
            } else if paused {
                Some(later(now, self.config.trading_halt_duration_secs as int) as i64)
            } else {
                self.halt_until
            },
            is_kill_switch_active: self.is_kill_switch_active,
        }
    }

    /// The state as plain values.
    pub open spec fn state(&self) -> RiskState {
        RiskState {
            start_of_day_balance: self.start_of_day_balance,
            last_day_reset: self.last_day_reset,
            consecutive_loss_count: self.consecutive_loss_count,
            halt_until: self.halt_until,
            is_kill_switch_active: self.is_kill_switch_active,
        }
    }

    /// A manager that starts its day at `now` with the given balance.
    pub fn new(config: RiskConfig, current_balance: i64, now: i64) -> (m: Self)
        ensures
            m.config == config,
            m.state() == (RiskState {
                start_of_day_balance: current_balance,
                last_day_reset: now,
                consecutive_loss_count: 0,
                halt_until: None,
                is_kill_switch_active: false,
            }),
    {
        RiskManager {
            config,
            start_of_day_balance: current_balance,
            last_day_reset: now,
            consecutive_loss_count: 0,
            halt_until: None,
            is_kill_switch_active: false,
        }
    }

    /// Whether trading is allowed at `now`: not with the kill switch on,
    /// and not before a halt has ended. The refusal names the end of the
    /// halt as a UTC time, or in epoch seconds where that time cannot be
    /// written.
    pub fn can_trade(&self, now: i64) -> (r: Result<(), String>)
        ensures
            r is Ok <==> (!self.is_kill_switch_active && !(self.halt_until matches Some(h) && now
                < h)),
            self.is_kill_switch_active ==> (r matches Err(t) && t@ == "Kill switch is ACTIVE"@),
            !self.is_kill_switch_active && r is Err ==> (r->Err_0@ == halt_notice_spec(
                self.halt_until->0,
                Some(utc_text(self.halt_until->0)),
            ) || r->Err_0@ == halt_notice_spec(self.halt_until->0, None)),
    {
        if self.is_kill_switch_active {
            return Err(String::from_str("Kill switch is ACTIVE"));
        }
        match self.halt_until {
            Some(halt_end) => {
                if now < halt_end {
                    let notice = match utc_time_text(halt_end) {
                        Some(text) => halt_notice(halt_end, Some(text.as_str())),
                        None => halt_notice(halt_end, None),
                    };
                    return Err(notice);
                }
            },
            None => {},
        }
        Ok(())
    }

    /// Takes in the result of a closed trade at `now`.
    ///
    /// On a new UTC day the start-of-day balance is taken anew. A loss
    /// lengthens the loss streak, any other result ends it. A streak that
    /// reaches its limit pauses trading and starts over; a drawdown beyond
    /// its limit halts trading until the next UTC midnight.
    pub fn update_trade_result(&mut self, pnl: i64, current_balance: i64, now: i64)
        requires
            0 <= now <= MAX_EPOCH_SECS,
            old(self).consecutive_loss_count < usize::MAX,
        ensures
            final(self).config == old(self).config,
            final(self).state() == old(self).after_trade(
                pnl as int,
                current_balance as int,
                now as int,
            ),
    {
        let today: i64 = now / DAY_SECS;
        let reset_day: i64 = if self.last_day_reset >= 0 {
            self.last_day_reset / DAY_SECS
        } else {
            -((-(self.last_day_reset + 1)) / DAY_SECS) - 1
        };
        proof {
            let t = self.last_day_reset as int;
            if t < 0 {
                let m = -(t + 1);
                vstd::arithmetic::div_mod::lemma_fundamental_div_mod(m, DAY_SECS as int);
                vstd::arithmetic::div_mod::lemma_mod_bound(m, DAY_SECS as int);
                let q = m / (DAY_SECS as int);
                let r = m % (DAY_SECS as int);
                vstd::arithmetic::div_mod::lemma_fundamental_div_mod_converse(
                    t,
                    DAY_SECS as int,
                    -q - 1,
                    DAY_SECS - 1 - r,
                );
            }
        }
        if today > reset_day {
            self.start_of_day_balance = current_balance;
            self.last_day_reset = now;
        }
        if pnl < 0 {
            self.consecutive_loss_count = self.consecutive_loss_count + 1;
        } else {
            self.consecutive_loss_count = 0;
        }
        self.check_circuit_breakers(current_balance, now);
    }

    /// Applies the loss-streak pause and the drawdown stop.
    fn check_circuit_breakers(&mut self, current_balance: i64, now: i64)
        requires
            0 <= now <= MAX_EPOCH_SECS,
        ensures
            final(self).config == old(self).config,
            final(self).start_of_day_balance == old(self).start_of_day_balance,
            final(self).last_day_reset == old(self).last_day_reset,
            final(self).is_kill_switch_active == old(self).is_kill_switch_active,
            final(self).consecutive_loss_count == (if old(self).consecutive_loss_count >= old(self).config.max_consecutive_losses {
                0
            } else {
                old(self).consecutive_loss_count
            }),
            final(self).halt_until == (if drawdown_exceeds(
                old(self).start_of_day_balance as int,
                current_balance as int,
                old(self).config.max_daily_drawdown_percent as int,
            ) {
                Some(((day_of(now as int) + 1) * DAY_SECS) as i64)
            } else if old(self).consecutive_loss_count >= old(self).config.max_consecutive_losses {
                Some(later(now as int, old(self).config.trading_halt_duration_secs as int) as i64)
            } else {
                old(self).halt_until
            }),
    {
        if self.consecutive_loss_count >= self.config.max_consecutive_losses {
            let end: i128 = now as i128 + self.config.trading_halt_duration_secs as i128;
            self.halt_until = Some(
                if end > MAX_EPOCH_SECS as i128 {
                    MAX_EPOCH_SECS
                } else if end < 0 {
                    0
                } else {
                    end as i64
                },
            );
            self.consecutive_loss_count = 0;
        }
        let start: i128 = self.start_of_day_balance as i128;
        let gap: i128 = start - current_balance as i128;
        assert(-0x1_0000_0000_0000_0000 <= gap <= 0x1_0000_0000_0000_0000);
        let fall: i128 = gap * 100_000_000;
        proof {
            crate::decimal::lemma_mul_bound(
                crate::decimal::abs_spec(self.config.max_daily_drawdown_percent as int),
                0x8000_0000_0000_0000,
                crate::decimal::abs_spec(start as int),
                0x8000_0000_0000_0000,
            );
            assert(crate::decimal::abs_spec(self.config.max_daily_drawdown_percent as int * start)
                == crate::decimal::abs_spec(self.config.max_daily_drawdown_percent as int)
                * crate::decimal::abs_spec(start as int)) by (nonlinear_arith);
        }
        let limit: i128 = (self.config.max_daily_drawdown_percent as i128) * start;
        let stopped = if start > 0 {
            fall > limit
        } else if start < 0 {
            fall < limit
        } else {
            current_balance < 0
        };
        if stopped {
            let today: i64 = now / DAY_SECS;
            self.halt_until = Some((today + 1) * DAY_SECS);
        }
    }

    /// Sets or clears the kill switch.
    pub fn set_kill_switch(&mut self, active: bool)
        ensures
            final(self).config == old(self).config,
            final(self).state() == (RiskState { is_kill_switch_active: active, ..old(self).state() }),
    {
        self.is_kill_switch_active = active;
    }

    /// Ends a halt and the loss streak.
    pub fn clear_halt(&mut self)
        ensures
            final(self).config == old(self).config,
            final(self).state() == (RiskState {
                halt_until: None,
                consecutive_loss_count: 0,
                ..old(self).state()
            }),
    {
        self.halt_until = None;
        self.consecutive_loss_count = 0;
    }

    /// What is to be remembered between runs.
    pub fn get_state(&self) -> (s: RiskState)
        ensures
            s == self.state(),
    {
        RiskState {
            start_of_day_balance: self.start_of_day_balance,
            last_day_reset: self.last_day_reset,
            consecutive_loss_count: self.consecutive_loss_count,
            halt_until: self.halt_until,
            is_kill_switch_active: self.is_kill_switch_active,
        }
    }

    /// Takes up a remembered state.
    pub fn restore_state(&mut self, state: RiskState)
        ensures
            final(self).config == old(self).config,
            final(self).state() == state,
    {
        self.start_of_day_balance = state.start_of_day_balance;
        self.last_day_reset = state.last_day_reset;
        self.consecutive_loss_count = state.consecutive_loss_count;
        self.halt_until = state.halt_until;
        self.is_kill_switch_active = state.is_kill_switch_active;
    }
}

} // verus!
