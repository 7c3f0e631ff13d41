//! A minimal continuous double-auction matching engine for a single asset.
//!
//! Buy/sell instructions arrive one at a time. Unmatched sell liquidity rests
//! in a price-ordered pool; each incoming buy order is matched greedily
//! against the cheapest resting sells until it is filled or the pool is
//! exhausted. Unfilled buy remainders are dropped, never queued.

pub mod decimal;
pub mod engine;
pub mod laws;
pub mod order;
pub mod parse;
pub mod pool;
pub mod text;
pub mod trade;

pub use engine::submit;
pub use order::Order;
pub use order::OrderType;
pub use parse::construct_order;
pub use parse::get_orders;
pub use pool::RestingSellPool;
pub use text::is_loop_end_command;
pub use trade::Trade;
pub use trade::do_trade;
pub use trade::lowest;
