//! The IPO agent: on its first turn it offers its float as one ladder of
//! sell limits, then only keeps its books.

use std::collections::BTreeMap;
use vstd::prelude::*;
use crate::order::{Order, OrderRequest, Side, Trade};
use crate::agent_support::{clamp_i64, listed_in_order, orders_of, reconcile, reconcile_fill, saturate};

verus! {

broadcast use vstd::laws_cmp::group_laws_cmp;

/// Shares the agent starts with, all of them to be sold.
pub const IPO_FLOAT: i64 = 1_000_000;
/// Rungs of the ladder.
pub const IPO_LEVELS: u64 = 20;
/// Price of the lowest rung, in cents.
pub const IPO_START_PRICE: u64 = 15_000;
/// Distance between rungs, in cents.
pub const IPO_TICK: u64 = 5;

pub struct IpoAgent {
    id: usize,
    inventory: i64,
    has_acted: bool,
    open_orders: BTreeMap<u64, Order>,
}

/// The sell ladder: `IPO_LEVELS` limits of `vol` each, `IPO_TICK` apart
/// from `IPO_START_PRICE` up.
pub open spec fn ipo_ladder(agent_id: usize, stock_id: u64, vol: u64) -> Seq<OrderRequest> {
    Seq::new(
        IPO_LEVELS as nat,
        |i: int|
            OrderRequest::LimitOrder {
                agent_id,
                stock_id,
                side: Side::Sell,
                price: (IPO_START_PRICE + i * IPO_TICK) as u64,
                volume: vol,
            },
    )
}

impl IpoAgent {
    /// One call of `decide_actions` with the listed ids `stock_ids` took
    /// `a0` to `a1`, returning `r`.
    pub open spec fn decides(a0: IpoAgent, a1: IpoAgent, stock_ids: Seq<u64>, r: Seq<OrderRequest>) -> bool {
        &&& a1.spec_has_acted()
        &&& a1.spec_id() == a0.spec_id()
        &&& a1.spec_inventory() == a0.spec_inventory()
        &&& a1.spec_open_orders() == a0.spec_open_orders()
        &&& r == if a0.spec_has_acted() || stock_ids.len() == 0 || (a0.spec_inventory() as int) < IPO_LEVELS {
            Seq::<OrderRequest>::empty()
        } else {
            ipo_ladder(a0.spec_id(), stock_ids[0], (a0.spec_inventory() as int / IPO_LEVELS as int) as u64)
        }
    }

    /// `acknowledge_order(o)` took `a0` to `a1`: `o` joins the open orders.
    pub open spec fn acks(a0: IpoAgent, a1: IpoAgent, o: Order) -> bool {
        &&& a1.spec_open_orders() == a0.spec_open_orders().insert(o.id, o)
        &&& a1.spec_id() == a0.spec_id()
        &&& a1.spec_inventory() == a0.spec_inventory()
        &&& a1.spec_has_acted() == a0.spec_has_acted()
    }

    /// `margin_call()` changes nothing and returns nothing.
    pub open spec fn calls(a0: IpoAgent, a1: IpoAgent, r: Seq<OrderRequest>) -> bool {
        a1 == a0 && r == Seq::<OrderRequest>::empty()
    }

    /// `update_portfolio(vol, tr)` took `a0` to `a1`.
    pub open spec fn fills(a0: IpoAgent, a1: IpoAgent, vol: i64, tr: Trade) -> bool {
        &&& a1.spec_inventory() == clamp_i64(a0.spec_inventory() + vol)
        &&& a1.spec_open_orders() == reconcile(a0.spec_open_orders(), a0.spec_id(), tr)
        &&& a1.spec_id() == a0.spec_id()
        &&& a1.spec_has_acted() == a0.spec_has_acted()
    }

    /// A fresh agent with id `id`.
    pub open spec fn fresh(a: IpoAgent, id: usize) -> bool {
        &&& a.spec_id() == id
        &&& a.spec_inventory() == IPO_FLOAT
        &&& !a.spec_has_acted()
        &&& a.spec_open_orders() == Map::<u64, Order>::empty()
    }

    pub closed spec fn spec_id(&self) -> usize {
        self.id
    }

    pub closed spec fn spec_inventory(&self) -> i64 {
        self.inventory
    }

    pub closed spec fn spec_has_acted(&self) -> bool {
        self.has_acted
    }

    pub closed spec fn spec_open_orders(&self) -> Map<u64, Order> {
        self.open_orders@
    }

    pub fn new(id: usize) -> (a: IpoAgent)
        ensures
            Self::fresh(a, id),
    {
        IpoAgent { id, inventory: IPO_FLOAT, has_acted: false, open_orders: BTreeMap::new() }
    }

    /// On the first call only: the sell ladder on the first listed
    /// instrument, each rung one `IPO_LEVELS`-th of the shares held (nothing
    /// when that is none). Every later call returns nothing.
    pub fn decide_actions(&mut self, stock_ids: &Vec<u64>) -> (r: Vec<OrderRequest>)
        ensures
            Self::decides(*old(self), *final(self), stock_ids@, r@),
    {
        if self.has_acted {
            return Vec::new();
        }
        self.has_acted = true;
        if stock_ids.len() == 0 || self.inventory < IPO_LEVELS as i64 {
            return Vec::new();
        }
        let stock_id = stock_ids[0];
        let vol_per = (self.inventory / IPO_LEVELS as i64) as u64;
        let mut out: Vec<OrderRequest> = Vec::new();
        let mut i: u64 = 0;
        while i < IPO_LEVELS
            invariant
                i <= IPO_LEVELS,
                out@ == ipo_ladder(self.id, stock_id, vol_per).take(i as int),
            decreases IPO_LEVELS - i,
        {
            out.push(
                OrderRequest::LimitOrder {
                    agent_id: self.id,
                    stock_id,
                    side: Side::Sell,
                    price: IPO_START_PRICE + i * IPO_TICK,
                    volume: vol_per,
                },
            );
            i = i + 1;
            assert(out@ =~= ipo_ladder(self.id, stock_id, vol_per).take(i as int));
        }
        assert(out@ =~= ipo_ladder(self.id, stock_id, vol_per));
        out
    }

    /// The IPO agent never buys.
    pub fn buy_stock(&mut self, _stock_id: u64, _volume: u64) -> (r: Vec<OrderRequest>)
        ensures
            r@ == Seq::<OrderRequest>::empty(),
            *final(self) == *old(self),
    {
        Vec::new()
    }

    /// The IPO agent sells only through its ladder.
    pub fn sell_stock(&mut self, _stock_id: u64, _volume: u64) -> (r: Vec<OrderRequest>)
        ensures
            r@ == Seq::<OrderRequest>::empty(),
            *final(self) == *old(self),
    {
        Vec::new()
    }

    /// The IPO agent is never margin called.
    pub fn margin_call(&mut self) -> (r: Vec<OrderRequest>)
        ensures
            Self::calls(*old(self), *final(self), r@),
    {
        Vec::new()
    }

    /// Records an order the market stamped for this agent.
    pub fn acknowledge_order(&mut self, o: Order)
        ensures
            Self::acks(*old(self), *final(self), o),
    {
        self.open_orders.insert(o.id, o);
    }

    /// Books a fill: the inventory moves by `vol` (saturating), and an own
    /// open order that the trade filled as maker is brought up to date.
    pub fn update_portfolio(&mut self, vol: i64, tr: &Trade)
        ensures
            Self::fills(*old(self), *final(self), vol, *tr),
    {
        self.inventory = saturate(self.inventory as i128 + vol as i128);
        reconcile_fill(&mut self.open_orders, self.id, tr);
    }

    /// The open orders, by increasing id.
    pub fn get_pending_orders(&self) -> (r: Vec<Order>)
        ensures
            listed_in_order(self.spec_open_orders(), r@),
    {
        orders_of(&self.open_orders)
    }

    /// Forgets an open order; the IPO agent sends no cancel to the market.
    pub fn cancel_open_order(&mut self, order_id: u64) -> (r: Vec<OrderRequest>)
        ensures
            r@ == Seq::<OrderRequest>::empty(),
            final(self).spec_open_orders() == old(self).spec_open_orders().remove(order_id),
            final(self).spec_id() == old(self).spec_id(),
            final(self).spec_inventory() == old(self).spec_inventory(),
            final(self).spec_has_acted() == old(self).spec_has_acted(),
    {
        self.open_orders.remove(&order_id);
        Vec::new()
    }

    pub fn get_id(&self) -> (r: usize)
        ensures
            r == self.spec_id(),
    {
        self.id
    }

    pub fn get_inventory(&self) -> (r: i64)
        ensures
            r == self.spec_inventory(),
    {
        self.inventory
    }
}

} // verus!
