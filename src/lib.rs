//! A single-instrument limit order book that matches orders by price-time
//! priority, with every operation verified against its contract.

pub mod book;
pub mod laws;
pub mod market;
pub mod order;
pub mod side;

pub use book::OrderBook;
pub use market::Market;
pub use order::{BuyLimitOrder, Fill, LimitOrder, SellLimitOrder, TryFill};
pub use side::OrderSide;
