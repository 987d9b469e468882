//! A multi-symbol market simulator core: a price-time priority limit order
//! book per instrument, the market engine that routes agent requests to the
//! books and settles the resulting trades, and reference agent logic.

pub mod order;
pub mod order_book;

pub use order::{Order, OrderRequest, Side, Trade};
pub use order_book::{OrderBook, PriceLevel};
pub mod book_laws;
pub mod market;
pub mod agent_support;
pub mod ipo_agent;
pub mod margin;
pub mod market_maker;
pub mod dumb_limit_agent;
pub mod whale_agent;
pub mod dumb_agent;

pub use market::{Fill, Listing, Market, Submission};
pub use ipo_agent::IpoAgent;
pub use margin::margin_call_orders;
pub mod simulation;

pub use simulation::{AgentType, Participant, Simulation};
