//! What the engine and the venue exchange: positions, order outcomes, errors.

use vstd::prelude::*;
use vstd::string::*;
use crate::coin_map::CoinMap;
use crate::decimal::{
    div_sat, div_sat_spec, mul_sat, mul_sat_spec, sat_add, sat_add_spec, sat_sub, sat_sub_spec,
};
use crate::text::str_eq;
use crate::wire::{bytes_as_chars, fixed_text, fixed_text_spec};

verus! {

/// Direction of a position or an order.
#[derive(Clone, Copy, Debug, PartialEq, Eq, Structural)]
pub enum Direction {
    Long,
    Short,
}

impl Direction {
    /// `"LONG"` or `"SHORT"`.
    pub fn name(self) -> (r: &'static str)
        ensures
            r@ == (if self == Direction::Long {
                "LONG"@
            } else {
                "SHORT"@
            }),
    {
        match self {
            Direction::Long => "LONG",
            Direction::Short => "SHORT",
        }
    }

    /// The direction of a name: `LONG` or `SHORT`; none for any other.
    pub fn from_name(name: &str) -> (r: Option<Self>)
        ensures
            r == (if name@ == "LONG"@ {
                Some(Direction::Long)
            } else if name@ == "SHORT"@ {
                Some(Direction::Short)
            } else {
                None
            }),
    {
        if str_eq(name, "LONG") {
            Some(Direction::Long)
        } else if str_eq(name, "SHORT") {
            Some(Direction::Short)
        } else {
            None
        }
    }

    /// The other direction.
    pub fn opposite(self) -> (r: Self)
        ensures
            r != self,
    {
        match self {
            Direction::Long => Direction::Short,
            Direction::Short => Direction::Long,
        }
    }
}

/// An open position as the venue reports it.
#[derive(Debug)]
pub struct Position {
    pub coin: String,
    pub direction: Direction,
    /// Size in coins, without sign.
    pub size: i64,
    pub entry_price: i64,
    pub margin_used: i64,
    pub leverage: i64,
    pub tp_price: i64,
    pub sl_price: i64,
    pub liquidation_price: i64,
    /// Entry time in epoch milliseconds.
    pub entry_time: u64,
    pub unrealized_pnl: i64,
}

impl Position {
    /// Size with the sign of the direction: positive when long.
    pub open spec fn signed_size(&self) -> int {
        if self.direction == Direction::Long {
            self.size as int
        } else {
            -(self.size as int)
        }
    }

    /// Profit of the position at a price, in USD.
    pub open spec fn pnl_at(&self, current_price: int) -> int {
        if self.direction == Direction::Long {
            mul_sat_spec(sat_sub_spec(current_price, self.entry_price as int), self.size as int)
        } else {
            mul_sat_spec(sat_sub_spec(self.entry_price as int, current_price), self.size as int)
        }
    }

    /// A copy of the position.
    pub fn duplicate(&self) -> (r: Self)
        ensures
            r == *self,
    {
        Position {
            coin: self.coin.clone(),
            direction: self.direction,
            size: self.size,
            entry_price: self.entry_price,
            margin_used: self.margin_used,
            leverage: self.leverage,
            tp_price: self.tp_price,
            sl_price: self.sl_price,
            liquidation_price: self.liquidation_price,
            entry_time: self.entry_time,
            unrealized_pnl: self.unrealized_pnl,
        }
    }

    /// Profit at `current_price`: the price move in the position's favour
    /// times its size.
    pub fn calc_pnl(&self, current_price: i64) -> (r: i64)
        ensures
            r == self.pnl_at(current_price as int),
    {
        let price_diff = match self.direction {
            Direction::Long => sat_sub(current_price, self.entry_price),
            Direction::Short => sat_sub(self.entry_price, current_price),
        };
        mul_sat(price_diff, self.size)
    }

    /// Whether the take-profit price is reached.
    pub fn is_tp_hit(&self, current_price: i64) -> (r: bool)
        ensures
            r == (if self.direction == Direction::Long {
                current_price >= self.tp_price
            } else {
                current_price <= self.tp_price
            }),
    {
        match self.direction {
            Direction::Long => current_price >= self.tp_price,
            Direction::Short => current_price <= self.tp_price,
        }
    }

    /// Whether the stop-loss price is reached.
    pub fn is_sl_hit(&self, current_price: i64) -> (r: bool)
        ensures
            r == (if self.direction == Direction::Long {
                current_price <= self.sl_price
            } else {
                current_price >= self.sl_price
            }),
    {
        match self.direction {
            Direction::Long => current_price <= self.sl_price,
            Direction::Short => current_price >= self.sl_price,
        }
    }

    /// Whether the position has been open for at least `max_secs` whole
    /// seconds at `current_time` (epoch milliseconds).
    pub fn is_time_stop_hit(&self, current_time: u64, max_secs: u64) -> (r: bool)
        ensures
            r == (current_time > self.entry_time && (current_time - self.entry_time) / 1000
                >= max_secs),
    {
        if current_time > self.entry_time {
            let elapsed_secs = (current_time - self.entry_time) / 1000;
            return elapsed_secs >= max_secs;
        }
        false
    }
}

/// What an order or a close did.
#[derive(Debug)]
pub struct TradeAction {
    pub session_id: String,
    pub coin: String,
    /// `"OPEN"` or `"CLOSE"`.
    pub action: String,
    pub direction: Direction,
    pub price: i64,
    pub size: i64,
    pub reason: String,
    pub pnl: Option<i64>,
    pub fee: Option<i64>,
    pub exit_type: Option<String>,
    pub ts: u64,
    pub entry_rsi: Option<i64>,
    pub entry_bb_dist: Option<i64>,
    pub entry_score: Option<i64>,
}

/// Why the venue boundary refused or failed.
#[derive(Debug)]
pub enum OrderError {
    InsufficientFunds(String),
    MaxPositionsReached,
    InvalidOrder(String),
    NetworkError(String),
    RateLimited,
}

impl OrderError {
    /// The text of the error.
    pub open spec fn message_spec(&self) -> Seq<char> {
        match self {
            OrderError::InsufficientFunds(s) => "Insufficient Funds: "@ + s@,
            OrderError::MaxPositionsReached => "Max Positions Reached"@,
            OrderError::InvalidOrder(s) => "Invalid Order: "@ + s@,
            OrderError::NetworkError(s) => "Network Error: "@ + s@,
            OrderError::RateLimited => "Rate Limited (429)"@,
        }
    }

    /// The text of the error.
    pub fn message(&self) -> (r: String)
        ensures
            r@ == self.message_spec(),
    {
        match self {
            OrderError::InsufficientFunds(s) => String::from_str("Insufficient Funds: ").concat(
                s.as_str(),
            ),
            OrderError::MaxPositionsReached => String::from_str("Max Positions Reached"),
            OrderError::InvalidOrder(s) => String::from_str("Invalid Order: ").concat(s.as_str()),
            OrderError::NetworkError(s) => String::from_str("Network Error: ").concat(s.as_str()),
            OrderError::RateLimited => String::from_str("Rate Limited (429)"),
        }
    }

    /// Whether the error is transient: the next tick may simply try again.
    pub fn is_transient(&self) -> (r: bool)
        ensures
            r == (self is NetworkError || self is RateLimited),
    {
        match self {
            OrderError::NetworkError(_) => true,
            OrderError::RateLimited => true,
            _ => false,
        }
    }
}

/// Venue metadata of one asset.
#[derive(Clone, Copy, Debug)]
pub struct AssetInfo {
    pub sz_decimals: u32,
    pub max_leverage: u32,
}

/// Two texts, one after the other.
pub fn join(a: &str, b: &str) -> (r: String)
    ensures
        r@ == a@ + b@,
{
    String::from_str(a).concat(b)
}

/// The simulated venue: orders fill at once, positions and balance live in
/// memory, one position per coin.
pub struct SimExchange {
    pub balance: i64,
    pub positions: CoinMap<Position>,
    /// Fee rate of a post-only order, as a fraction of the notional.
    pub maker_fee: i64,
    /// Fee rate of any other order.
    pub taker_fee: i64,
    pub trade_count: u64,
    pub total_fees: i64,
}

/// Positions keyed by their coin; of two in one coin the later stays.
pub open spec fn positions_by_coin(positions: Seq<Position>) -> Map<Seq<char>, Position>
    decreases positions.len(),
{
    if positions.len() == 0 {
        Map::empty()
    } else {
        positions_by_coin(positions.drop_last()).insert(positions.last().coin@, positions.last())
    }
}

/// Notional of an order: size times price.
pub open spec fn notional_of(size: int, price: int) -> int {
    mul_sat_spec(size, price)
}

impl SimExchange {
    pub open spec fn wf(&self) -> bool {
        self.positions.wf()
    }

    /// Margin that an order ties up: its notional over the leverage.
    pub open spec fn margin_of(size: int, price: int, leverage: int) -> int {
        div_sat_spec(notional_of(size, price), leverage)
    }

    /// Fee of an order: its notional times the maker or the taker rate.
    pub open spec fn fee_of(&self, size: int, price: int, post_only: bool) -> int {
        mul_sat_spec(
            notional_of(size, price),
            if post_only {
                self.maker_fee as int
            } else {
                self.taker_fee as int
            },
        )
    }

    /// What an order takes from the balance: margin and fee.
    pub open spec fn cost_of(&self, size: int, price: int, leverage: int, post_only: bool) -> int {
        sat_add_spec(Self::margin_of(size, price, leverage), self.fee_of(size, price, post_only))
    }

    /// The balance after closing a position at a price: margin and profit
    /// come back, the taker fee leaves, and the balance never falls below
    /// zero.
    pub open spec fn balance_after_close(&self, pos: Position, price: int) -> int {
        let fee = mul_sat_spec(notional_of(price, pos.size as int), self.taker_fee as int);
        let raw = sat_sub_spec(
            sat_add_spec(
                sat_add_spec(self.balance as int, pos.margin_used as int),
                pos.pnl_at(price),
            ),
            fee,
        );
        if raw < 0 {
            0
        } else {
            raw
        }
    }

    /// A venue with a balance, fee rates and no position.
    pub fn new(initial_balance: i64, maker_fee: i64, taker_fee: i64) -> (e: Self)
        ensures
            e.wf(),
            e.balance == initial_balance,
            e.maker_fee == maker_fee,
            e.taker_fee == taker_fee,
            e.trade_count == 0,
            e.total_fees == 0,
            e.positions@ == Map::<Seq<char>, Position>::empty(),
    {
        SimExchange {
            balance: initial_balance,
            positions: CoinMap::new(),
            maker_fee,
            taker_fee,
            trade_count: 0,
            total_fees: 0,
        }
    }

    /// Sets balance and positions; of two positions in one coin the later
    /// stays.
    pub fn restore(&mut self, balance: i64, positions: Vec<Position>)
        ensures
            final(self).wf(),
            final(self).balance == balance,
            final(self).maker_fee == old(self).maker_fee,
            final(self).taker_fee == old(self).taker_fee,
            final(self).trade_count == old(self).trade_count,
            final(self).total_fees == old(self).total_fees,
            final(self).positions@ == positions_by_coin(positions@),
    {
        self.balance = balance;
        self.positions = CoinMap::new();
        let mut i: usize = 0;
        assert(positions@.subrange(0, 0) =~= Seq::<Position>::empty());
        while i < positions.len()
            invariant
                i <= positions@.len(),
                self.positions.wf(),
                self.balance == balance,
                self.maker_fee == old(self).maker_fee,
                self.taker_fee == old(self).taker_fee,
                self.trade_count == old(self).trade_count,
                self.total_fees == old(self).total_fees,
                self.positions@ == positions_by_coin(positions@.subrange(0, i as int)),
            decreases positions@.len() - i,
        {
            proof {
                let next = positions@.subrange(0, i as int + 1);
                assert(next.drop_last() =~= positions@.subrange(0, i as int));
                assert(next.last() == positions@[i as int]);
            }
            let p = positions[i].duplicate();
            self.positions.insert(positions[i].coin.as_str(), p);
            i += 1;
        }
        proof {
            assert(positions@.subrange(0, positions@.len() as int) =~= positions@);
        }
    }

    /// The balance.
    pub fn get_balance(&self) -> (r: Result<i64, OrderError>)
        ensures
            r == Ok::<i64, OrderError>(self.balance),
    {
        Ok(self.balance)
    }

    /// The open positions, in the order in which their coins were opened.
    pub fn get_positions(&self) -> (r: Vec<Position>)
        ensures
            r@.len() == self.positions.entries@.len(),
            forall|i: int| 0 <= i < r@.len() ==> r@[i] == self.positions.entries@[i].value,
    {
        let mut out: Vec<Position> = Vec::new();
        let mut i: usize = 0;
        while i < self.positions.len()
            invariant
                i <= self.positions.entries@.len(),
                out@.len() == i,
                forall|k: int| 0 <= k < i ==> out@[k] == self.positions.entries@[k].value,
            decreases self.positions.entries@.len() - i,
        {
            out.push(self.positions.value_at(i).duplicate());
            i += 1;
        }
        out
    }

    /// Opens a position; the order fills at once at the given price.
    ///
    /// Refused as an invalid order where the coin already has a position,
    /// and for insufficient funds where the balance does not cover margin
    /// and fee. Otherwise margin and fee leave the balance and the position
    /// is held.
    pub fn open_order(
        &mut self,
        coin: &str,
        direction: Direction,
        size: i64,
        price: i64,
        leverage: i64,
        tp: i64,
        sl: i64,
        post_only: bool,
        now_ms: u64,
    ) -> (r: Result<TradeAction, OrderError>)
        requires
            old(self).wf(),
            leverage > 0,
        ensures
            final(self).wf(),
            final(self).maker_fee == old(self).maker_fee,
            final(self).taker_fee == old(self).taker_fee,
            final(self).trade_count == old(self).trade_count,
            old(self).positions@.contains_key(coin@) ==> {
                &&& r matches Err(OrderError::InvalidOrder(text))
                &&& text@ == "Already have position in "@ + coin@
                &&& *final(self) == *old(self)
            },
            !old(self).positions@.contains_key(coin@) && old(self).balance < old(self).cost_of(
                size as int,
                price as int,
                leverage as int,
                post_only,
            ) ==> {
                &&& r matches Err(OrderError::InsufficientFunds(text))
                &&& text@ == "Balance "@ + bytes_as_chars(
                    fixed_text_spec(old(self).balance as int, 2),
                ) + " < Margin "@ + bytes_as_chars(
                    fixed_text_spec(Self::margin_of(size as int, price as int, leverage as int), 2),
                ) + " + Fee "@ + bytes_as_chars(
                    fixed_text_spec(old(self).fee_of(size as int, price as int, post_only), 2),
                )
                &&& *final(self) == *old(self)
            },
            !old(self).positions@.contains_key(coin@) && old(self).balance >= old(self).cost_of(
                size as int,
                price as int,
                leverage as int,
                post_only,
            ) ==> {
                &&& r matches Ok(action)
                &&& action.coin@ == coin@
                &&& action.action@ == "OPEN"@
                &&& action.reason@ == "Sim Entry"@
                &&& action.session_id@.len() == 0
                &&& action.exit_type is None
                &&& action.direction == direction
                &&& action.price == price
                &&& action.size == size
                &&& action.pnl is None
                &&& action.fee == Some(
                    old(self).fee_of(size as int, price as int, post_only) as i64,
                )
                &&& action.ts == now_ms
                &&& action.entry_rsi is None
                &&& action.entry_bb_dist is None
                &&& action.entry_score is None
                &&& final(self).balance == sat_sub_spec(
                    old(self).balance as int,
                    old(self).cost_of(size as int, price as int, leverage as int, post_only),
                )
                &&& final(self).total_fees == sat_add_spec(
                    old(self).total_fees as int,
                    old(self).fee_of(size as int, price as int, post_only),
                )
                &&& final(self).positions@.dom() == old(self).positions@.dom().insert(coin@)
                &&& forall|k: Seq<char>|
                    old(self).positions@.contains_key(k) ==> #[trigger] final(self).positions@[k]
                        == old(self).positions@[k]
                &&& ({
                    let p = final(self).positions@[coin@];
                    &&& p.coin@ == coin@
                    &&& p.direction == direction
                    &&& p.size == size
                    &&& p.entry_price == price
                    &&& p.margin_used == Self::margin_of(
                        size as int,
                        price as int,
                        leverage as int,
                    )
                    &&& p.leverage == leverage
                    &&& p.tp_price == tp
                    &&& p.sl_price == sl
                    &&& p.liquidation_price == 0
                    &&& p.unrealized_pnl == 0
                    &&& p.entry_time == now_ms
                })
            },
    {
        if self.positions.contains_key(coin) {
            return Err(OrderError::InvalidOrder(join("Already have position in ", coin)));
        }
        let notional = mul_sat(size, price);
        let margin = div_sat(notional, leverage);
        let fee = if post_only {
            mul_sat(notional, self.maker_fee)
        } else {
            mul_sat(notional, self.taker_fee)
        };
        let cost = sat_add(margin, fee);
        if self.balance < cost {
            let text = join("Balance ", fixed_text(self.balance, 2).as_str()).concat(
                " < Margin ",
            ).concat(fixed_text(margin, 2).as_str()).concat(" + Fee ").concat(
                fixed_text(fee, 2).as_str(),
            );
            return Err(OrderError::InsufficientFunds(text));
        }
        self.balance = sat_sub(self.balance, cost);
        self.total_fees = sat_add(self.total_fees, fee);
        let position = Position {
            coin: String::from_str(coin),
            direction,
            size,
            entry_price: price,
            margin_used: margin,
            leverage,
            tp_price: tp,
            sl_price: sl,
            liquidation_price: 0,
            entry_time: now_ms,
            unrealized_pnl: 0,
        };
        self.positions.insert(coin, position);
        proof {
            assert(self.positions@.dom() =~= old(self).positions@.dom().insert(coin@));
        }
        Ok(
            TradeAction {
                session_id: String::new(),
                coin: String::from_str(coin),
                action: String::from_str("OPEN"),
                direction,
                price,
                size,
                reason: String::from_str("Sim Entry"),
                pnl: None,
                fee: Some(fee),
                exit_type: None,
                ts: now_ms,
                entry_rsi: None,
                entry_bb_dist: None,
                entry_score: None,
            },
        )
    }

    /// Closes the position of a coin at a price.
    ///
    /// Refused as an invalid order where the coin has no position.
    pub fn close_position(&mut self, coin: &str, price: i64, reason: &str, ts: u64) -> (r: Result<
        TradeAction,
        OrderError,
    >)
        requires
            old(self).wf(),
            old(self).trade_count < u64::MAX,
        ensures
            final(self).wf(),
            final(self).maker_fee == old(self).maker_fee,
            final(self).taker_fee == old(self).taker_fee,
            final(self).positions@ == old(self).positions@.remove(coin@),
            !old(self).positions@.contains_key(coin@) ==> {
                &&& r matches Err(OrderError::InvalidOrder(text))
                &&& text@ == "No position in "@ + coin@
                &&& final(self).balance == old(self).balance
                &&& final(self).total_fees == old(self).total_fees
                &&& final(self).trade_count == old(self).trade_count
            },
            old(self).positions@.contains_key(coin@) ==> {
                let pos = old(self).positions@[coin@];
                &&& r matches Ok(action)
                &&& action.coin@ == coin@
                &&& action.action@ == "CLOSE"@
                &&& action.direction == pos.direction
                &&& action.price == price
                &&& action.size == pos.size
                &&& action.reason@ == reason@
                &&& action.exit_type matches Some(e) && e@ == reason@
                &&& action.pnl == Some(pos.pnl_at(price as int) as i64)
                &&& action.fee == Some(
                    mul_sat_spec(notional_of(price as int, pos.size as int), old(self).taker_fee as int) as i64,
                )
                &&& action.ts == ts
                &&& action.session_id@.len() == 0
                &&& action.entry_rsi is None
                &&& action.entry_bb_dist is None
                &&& action.entry_score is None
                &&& final(self).balance == old(self).balance_after_close(pos, price as int)
                &&& final(self).total_fees == sat_add_spec(
                    old(self).total_fees as int,
                    mul_sat_spec(notional_of(price as int, pos.size as int), old(self).taker_fee as int),
                )
                &&& final(self).trade_count == old(self).trade_count + 1
            },
    {
        match self.positions.remove(coin) {
            Some(pos) => {
                let pnl = pos.calc_pnl(price);
                let notional = mul_sat(price, pos.size);
                let fee = mul_sat(notional, self.taker_fee);
                let raw = sat_sub(sat_add(sat_add(self.balance, pos.margin_used), pnl), fee);
                self.balance = if raw < 0 {
                    0
                } else {
                    raw
                };
                self.total_fees = sat_add(self.total_fees, fee);
                self.trade_count = self.trade_count + 1;
                Ok(
                    TradeAction {
                        session_id: String::new(),
                        coin: String::from_str(coin),
                        action: String::from_str("CLOSE"),
                        direction: pos.direction,
                        price,
                        size: pos.size,
                        reason: String::from_str(reason),
                        pnl: Some(pnl),
                        fee: Some(fee),
                        exit_type: Some(String::from_str(reason)),
                        ts,
                        entry_rsi: None,
                        entry_bb_dist: None,
                        entry_score: None,
                    },
                )
            },
            None => Err(OrderError::InvalidOrder(join("No position in ", coin))),
        }
    }

    /// Takes an amount out of the balance, where the balance covers it.
    pub fn withdraw(&mut self, amount: i64) -> (r: Result<i64, OrderError>)
        ensures
            old(self).balance >= amount ==> {
                &&& r == Ok::<i64, OrderError>(amount)
                &&& final(self).balance == sat_sub_spec(old(self).balance as int, amount as int)
            },
            old(self).balance < amount ==> {
                &&& r matches Err(OrderError::InsufficientFunds(text))
                &&& text@ == "Cannot withdraw "@ + bytes_as_chars(fixed_text_spec(amount as int, 2))
                    + ", balance "@ + bytes_as_chars(fixed_text_spec(old(self).balance as int, 2))
                &&& final(self).balance == old(self).balance
            },
            final(self).positions == old(self).positions,
            final(self).total_fees == old(self).total_fees,
            final(self).trade_count == old(self).trade_count,
    {
        if self.balance >= amount {
            self.balance = sat_sub(self.balance, amount);
            Ok(amount)
        } else {
            let text = join("Cannot withdraw ", fixed_text(amount, 2).as_str()).concat(
                ", balance ",
            ).concat(fixed_text(self.balance, 2).as_str());
            Err(OrderError::InsufficientFunds(text))
        }
    }

    /// The simulated venue has no resting orders: nothing is cancelled.
    pub fn cancel_all_orders(&self) -> (r: Result<u64, OrderError>)
        ensures
            r == Ok::<u64, OrderError>(0),
    {
        Ok(0)
    }

    /// The simulated venue has no resting orders: nothing is cancelled.
    pub fn cancel_coin_orders(&self, coin: &str) -> (r: Result<u64, OrderError>)
        ensures
            r == Ok::<u64, OrderError>(0),
    {
        Ok(0)
    }
}

} // verus!
