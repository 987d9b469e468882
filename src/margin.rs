//! The liquidation rule of a margin call.

use vstd::prelude::*;
use crate::order::{OrderRequest, Side};

verus! {

/// The orders a margin call sends: when `cash` has fallen below `-margin`,
/// a market order that closes the whole position in `stock_id` (a buy to
/// cover a short, a sell of a long); nothing otherwise. Cash and margin are
/// in cents.
pub open spec fn liquidation(agent_id: usize, stock_id: u64, inventory: i64, cash: i64, margin: i64) -> Seq<
    OrderRequest,
> {
    if cash >= -margin || inventory == 0 {
        Seq::empty()
    } else if inventory < 0 {
        seq![OrderRequest::MarketOrder { agent_id, stock_id, side: Side::Buy, volume: (-inventory) as u64 }]
    } else {
        seq![OrderRequest::MarketOrder { agent_id, stock_id, side: Side::Sell, volume: inventory as u64 }]
    }
}

/// Liquidation orders for an agent whose cash has breached its margin.
pub fn margin_call_orders(agent_id: usize, stock_id: u64, inventory: i64, cash: i64, margin: i64) -> (r: Vec<
    OrderRequest,
>)
    ensures
        r@ == liquidation(agent_id, stock_id, inventory, cash, margin),
{
    if cash as i128 >= -(margin as i128) || inventory == 0 {
        return Vec::new();
    }
    let mut r: Vec<OrderRequest> = Vec::new();
    if inventory < 0 {
        let volume: u64 = (-(inventory as i128)) as u64;
        r.push(OrderRequest::MarketOrder { agent_id, stock_id, side: Side::Buy, volume });
    } else {
        r.push(OrderRequest::MarketOrder { agent_id, stock_id, side: Side::Sell, volume: inventory as u64 });
    }
    assert(r@ =~= liquidation(agent_id, stock_id, inventory, cash, margin));
    r
}

} // verus!
