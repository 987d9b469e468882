//! Order-flow value types shared by the book, the market and the agents.

use vstd::prelude::*;

verus! {

/// Side of the market an order stands on.
#[derive(Debug, Clone, Copy, PartialEq, Eq, Structural)]
pub enum Side {
    Buy,
    Sell,
}

impl Side {
    /// The other side of the market.
    pub open spec fn spec_opposite(self) -> Side {
        match self {
            Side::Buy => Side::Sell,
            Side::Sell => Side::Buy,
        }
    }

    /// Returns the opposite side of the market.
    pub fn opposite(self) -> (r: Side)
        ensures
            r == self.spec_opposite(),
            r != self,
            r.spec_opposite() == self,
    {
        match self {
            Side::Buy => Side::Sell,
            Side::Sell => Side::Buy,
        }
    }
}

/// An order as it rests in a book. Prices are in cents.
#[derive(Debug, Clone, Copy, PartialEq, Eq, Structural)]
pub struct Order {
    pub id: u64,
    pub agent_id: usize,
    pub stock_id: u64,
    pub side: Side,
    pub price: u64,
    pub volume: u64,
    pub filled: u64,
}

/// What an agent asks the market to do.
#[derive(Debug, Clone, Copy, PartialEq, Eq, Structural)]
pub enum OrderRequest {
    /// Limit order at a specific price.
    LimitOrder { agent_id: usize, stock_id: u64, side: Side, price: u64, volume: u64 },
    /// Market order that crosses the book immediately.
    MarketOrder { agent_id: usize, stock_id: u64, side: Side, volume: u64 },
    /// Cancel a previously placed order; `agent_id` must own it.
    CancelOrder { agent_id: usize, order_id: u64 },
}

/// Execution report emitted when an incoming order meets a resting one.
#[derive(Debug, Clone, Copy, PartialEq, Eq, Structural)]
pub struct Trade {
    pub price: u64,
    pub stock_id: u64,
    pub volume: u64,
    pub taker_agent_id: usize,
    pub maker_agent_id: usize,
    pub taker_side: Side,
    pub maker_order_id: u64,
}

/// Volume of an order still open: `volume - filled`, or zero when none is left.
pub open spec fn open_volume(o: Order) -> nat {
    if o.filled < o.volume {
        (o.volume - o.filled) as nat
    } else {
        0
    }
}

} // verus!
