//! Core of a two-sided, post-only market-making engine for a perpetual-futures
//! venue.
//!
//! Every decimal quantity (prices, sizes, notionals, ratios, multipliers) is
//! held as a signed integer counting hundred-millionths: the integer `q`
//! stands for `q / 10^8`, the precision of the venue's wire format.
//!
//! - [`decimal`], [`wire`], [`text`], [`window`], [`coin_map`]: arithmetic,
//!   decimal text, strings, rolling windows and a name-keyed map.
//! - [`market_maker`]: the quote grid, the regime governor, the queue
//!   estimator and the shadow session.
//! - [`execution`]: session statistics, order-flow imbalance, the inventory
//!   ledger and the engine's protective state.
//! - [`quoting`], [`shadow`]: the decisions of one tick of the quoting loop,
//!   live and simulated.
//! - [`ingestor`], [`feed`]: the market-data buffer and the decisions of the
//!   feed that fills it.
//! - [`exchange`], [`live`], [`signing`]: positions and errors, the simulated
//!   venue, the live client's decisions, and the signing of actions.
//! - [`risk`], [`monitor`], [`persistence`], [`publisher`]: halts, rolling
//!   performance, saved state and the messages to the selector.

pub mod text;
pub mod coin_map;
pub mod window;
pub mod decimal;
pub mod wire;
pub mod json;
pub mod market_maker;
pub mod execution;
pub mod quoting;
pub mod shadow;
pub mod ingestor;
pub mod feed;
pub mod exchange;
pub mod live;
pub mod signing;
pub mod risk;
pub mod monitor;
pub mod persistence;
pub mod publisher;
