//! What of the engine is kept between runs.

use vstd::prelude::*;
use crate::exchange::Position;
use crate::risk::RiskState;

verus! {

/// The engine's state as it is saved.
#[derive(Debug)]
pub struct EngineState {
    pub balance: i64,
    pub positions: Vec<Position>,
    pub risk_state: Option<RiskState>,
    pub vault_balance: Option<i64>,
}

impl EngineState {
    /// A fresh state: a balance and nothing else.
    pub fn new(balance: i64) -> (s: Self)
        ensures
            s.balance == balance,
            s.positions@.len() == 0,
            s.risk_state is None,
            s.vault_balance is None,
    {
        EngineState { balance, positions: Vec::new(), risk_state: None, vault_balance: None }
    }
}

/// The state to start from: the one that was read, or a fresh one with the
/// default balance where none could be read.
pub fn load_state(stored: Option<EngineState>, default_balance: i64) -> (s: EngineState)
    ensures
        match stored {
            Some(st) => s == st,
            None => {
                &&& s.balance == default_balance
                &&& s.positions@.len() == 0
                &&& s.risk_state is None
                &&& s.vault_balance is None
            },
        },
{
    match stored {
        Some(st) => st,
        None => EngineState::new(default_balance),
    }
}

} // verus!
