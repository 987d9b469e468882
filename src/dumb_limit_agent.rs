//! The limit-order ensemble: many small speculators that each turn, with
//! even odds, post a limit order a random distance inside the spread's far
//! side (a bid above the best bid, an ask below the best ask).

use std::collections::BTreeMap;
use vstd::prelude::*;
use crate::agent_support::{
    cash_after, clamp_i64, listed_in_order, orders_of, pay_for_fill, random_in, random_pick,
    random_ratio, reconcile, reconcile_fill, saturate,
};
use crate::market::{listed, Market, MarketState};
use crate::order::{Order, OrderRequest, Side, Trade};
use crate::order_book::{least_key, top};

verus! {

broadcast use vstd::laws_cmp::group_laws_cmp;

pub const LIMIT_AGENT_NUM_TRADERS: u32 = 200;
pub const LIMIT_AGENT_VOL_MIN: u64 = 500;
pub const LIMIT_AGENT_VOL_MAX: u64 = 5_000;
/// Largest offset from the best price, in cents.
pub const LIMIT_AGENT_MAX_OFFSET: u64 = 200;
pub const LIMIT_AGENT_TICKS_UNTIL_ACTIVE: u32 = 10;
pub const LIMIT_AGENT_INITIAL_INVENTORY: i64 = 200_000_000;
pub const LIMIT_AGENT_INITIAL_CASH: i64 = 10_000_000_000;
/// Inventory at or below which a margin call buys the shortfall back.
pub const MARGIN_CALL_THRESHOLD: i64 = -20_000;

pub struct DumbLimitAgent {
    id: usize,
    inventory: i64,
    ticks_until_active: u32,
    open_orders: BTreeMap<u64, Order>,
    cash: i64,
}

/// A bid `off` cents above `bid`, or an ask `off` cents below `ask`,
/// saturating at the ends of `u64`.
pub open spec fn offset_price(side: Side, bid: u64, ask: u64, off: u64) -> u64 {
    if side == Side::Buy {
        if bid + off > u64::MAX {
            u64::MAX
        } else {
            (bid + off) as u64
        }
    } else {
        if ask < off {
            0
        } else {
            (ask - off) as u64
        }
    }
}

/// One trader's draw: whether it acts, its side, its offset and its volume.
pub open spec fn limit_draw_ok(d: (bool, Side, u64, u64)) -> bool {
    1 <= d.2 <= LIMIT_AGENT_MAX_OFFSET && LIMIT_AGENT_VOL_MIN <= d.3 <= LIMIT_AGENT_VOL_MAX
}

/// The orders of a turn on `stock_id` with best bid `bid` and best ask
/// `ask`: for each draw in order that acts, a limit order of its side and
/// volume at `offset_price` of its offset.
pub open spec fn limit_batch(agent_id: usize, stock_id: u64, bid: u64, ask: u64, draws: Seq<(bool, Side, u64, u64)>) -> Seq<
    OrderRequest,
>
    decreases draws.len(),
{
    if draws.len() == 0 {
        Seq::empty()
    } else {
        let prev = limit_batch(agent_id, stock_id, bid, ask, draws.drop_last());
        let d = draws.last();
        if d.0 {
            prev.push(
                OrderRequest::LimitOrder {
                    agent_id,
                    stock_id,
                    side: d.1,
                    price: offset_price(d.1, bid, ask, d.2),
                    volume: d.3,
                },
            )
        } else {
            prev
        }
    }
}

/// The orders of one turn for the given draws; see `limit_batch`.
pub fn limit_orders(agent_id: usize, stock_id: u64, bid: u64, ask: u64, draws: &Vec<(bool, Side, u64, u64)>) -> (r: Vec<
    OrderRequest,
>)
    ensures
        r@ == limit_batch(agent_id, stock_id, bid, ask, draws@),
{
    let mut out: Vec<OrderRequest> = Vec::new();
    let mut i: usize = 0;
    while i < draws.len()
        invariant
            0 <= i <= draws@.len(),
            out@ == limit_batch(agent_id, stock_id, bid, ask, draws@.take(i as int)),
        decreases draws@.len() - i,
    {
        let (acts, side, off, volume) = draws[i];
        if acts {
            let price = match side {
                Side::Buy => if bid > u64::MAX - off {
                    u64::MAX
                } else {
                    bid + off
                },
                Side::Sell => if ask < off {
                    0
                } else {
                    ask - off
                },
            };
            out.push(OrderRequest::LimitOrder { agent_id, stock_id, side, price, volume });
        }
        i = i + 1;
        assert(draws@.take(i as int).drop_last() =~= draws@.take(i as int - 1));
    }
    assert(draws@.take(i as int) =~= draws@);
    out
}

/// One active turn on listed instrument `s`: unless its book has a best bid
/// strictly below a best ask, nothing; otherwise `limit_batch` of one
/// draw per trader.
pub open spec fn limit_turn(agent_id: usize, market: MarketState, s: u64, r: Seq<OrderRequest>) -> bool {
    let bid = top(market.books[s].bids.dom(), Side::Sell);
    let ask = top(market.books[s].asks.dom(), Side::Buy);
    &&& listed(market.listings).contains(s)
    &&& market.books.contains_key(s)
    &&& !(bid is Some && ask is Some && bid->0 < ask->0) ==> r == Seq::<OrderRequest>::empty()
    &&& (bid is Some && ask is Some && bid->0 < ask->0) ==> exists|draws: Seq<(bool, Side, u64, u64)>|
        {
            &&& draws.len() == LIMIT_AGENT_NUM_TRADERS
            &&& forall|i: int| 0 <= i < draws.len() ==> limit_draw_ok(#[trigger] draws[i])
            &&& r == #[trigger] limit_batch(agent_id, s, bid->0, ask->0, draws)
        }
}

/// A market buy of the whole short position.
pub open spec fn cover_order(agent_id: usize, stock_id: u64, inventory: i64) -> OrderRequest {
    OrderRequest::MarketOrder { agent_id, stock_id, side: Side::Buy, volume: (-inventory) as u64 }
}

impl DumbLimitAgent {
    /// One call of `decide_actions` on `market` took `a0` to `a1`, returning
    /// `r`. While warming up it only counts down. Once active, it picks a
    /// listed instrument; unless its book has a best bid strictly below a
    /// best ask it returns nothing, and otherwise `limit_batch` of one draw
    /// per trader.
    pub open spec fn decides(a0: DumbLimitAgent, a1: DumbLimitAgent, market: MarketState, r: Seq<OrderRequest>) -> bool {
        &&& a1.spec_id() == a0.spec_id()
        &&& a1.spec_inventory() == a0.spec_inventory()
        &&& a1.spec_open_orders() == a0.spec_open_orders()
        &&& a1.spec_cash() == a0.spec_cash()
        &&& if a0.spec_ticks() > 0 {
            r == Seq::<OrderRequest>::empty() && a1.spec_ticks() == a0.spec_ticks() - 1
        } else {
            &&& a1.spec_ticks() == 0
            &&& market.listings.len() == 0 ==> r == Seq::<OrderRequest>::empty()
            &&& market.listings.len() > 0 ==> exists|s: u64| #[trigger] limit_turn(a0.spec_id(), market, s, r)
        }
    }

    /// `acknowledge_order(o)` took `a0` to `a1`: `o` joins the open orders.
    pub open spec fn acks(a0: DumbLimitAgent, a1: DumbLimitAgent, o: Order) -> bool {
        &&& a1.spec_open_orders() == a0.spec_open_orders().insert(o.id, o)
        &&& a1.spec_id() == a0.spec_id()
        &&& a1.spec_inventory() == a0.spec_inventory()
        &&& a1.spec_cash() == a0.spec_cash()
        &&& a1.spec_ticks() == a0.spec_ticks()
    }

    /// `margin_call()` left the agent as it was and returned `r`: at or below
    /// `MARGIN_CALL_THRESHOLD`, a buy of the whole shortfall in the
    /// instrument of some open order (0 when it has none); nothing otherwise.
    pub open spec fn calls(a0: DumbLimitAgent, a1: DumbLimitAgent, r: Seq<OrderRequest>) -> bool {
        &&& a1 == a0
        &&& a0.spec_inventory() > MARGIN_CALL_THRESHOLD ==> r == Seq::<OrderRequest>::empty()
        &&& a0.spec_inventory() <= MARGIN_CALL_THRESHOLD ==> exists|s: u64|
            r == seq![#[trigger] cover_order(a0.spec_id(), s, a0.spec_inventory())]
    }

    /// `update_portfolio(vol, tr)` took `a0` to `a1`.
    pub open spec fn fills(a0: DumbLimitAgent, a1: DumbLimitAgent, vol: i64, tr: Trade) -> bool {
        &&& a1.spec_inventory() == clamp_i64(a0.spec_inventory() + vol)
        &&& a1.spec_cash() == cash_after(a0.spec_cash(), vol, tr.price)
        &&& a1.spec_open_orders() == reconcile(a0.spec_open_orders(), a0.spec_id(), tr)
        &&& a1.spec_id() == a0.spec_id()
        &&& a1.spec_ticks() == a0.spec_ticks()
    }

    /// A fresh agent with id `id`.
    pub open spec fn fresh(a: DumbLimitAgent, id: usize) -> bool {
        &&& a.spec_id() == id
        &&& a.spec_inventory() == LIMIT_AGENT_INITIAL_INVENTORY
        &&& a.spec_ticks() == LIMIT_AGENT_TICKS_UNTIL_ACTIVE
        &&& a.spec_open_orders() == Map::<u64, Order>::empty()
        &&& a.spec_cash() == LIMIT_AGENT_INITIAL_CASH
    }

    pub closed spec fn spec_id(&self) -> usize {
        self.id
    }

    pub closed spec fn spec_inventory(&self) -> i64 {
        self.inventory
    }

    pub closed spec fn spec_ticks(&self) -> u32 {
        self.ticks_until_active
    }

    pub closed spec fn spec_open_orders(&self) -> Map<u64, Order> {
        self.open_orders@
    }

    pub closed spec fn spec_cash(&self) -> i64 {
        self.cash
    }

    pub fn new(id: usize) -> (a: DumbLimitAgent)
        ensures
            Self::fresh(a, id),
    {
        DumbLimitAgent {
            id,
            inventory: LIMIT_AGENT_INITIAL_INVENTORY,
            ticks_until_active: LIMIT_AGENT_TICKS_UNTIL_ACTIVE,
            open_orders: BTreeMap::new(),
            cash: LIMIT_AGENT_INITIAL_CASH,
        }
    }

    /// One turn; see `decides`.
    pub fn decide_actions(&mut self, market: &Market) -> (r: Vec<OrderRequest>)
        requires
            market.wf(),
        ensures
            Self::decides(*old(self), *final(self), market@, r@),
    {
        if self.ticks_until_active > 0 {
            self.ticks_until_active = self.ticks_until_active - 1;
            return Vec::new();
        }
        let ids = market.stock_ids();
        let stock_id = match random_pick(&ids) {
            None => {
                assert(market@.listings.len() == ids@.len());
                return Vec::new();
            },
            Some(s) => s,
        };
        proof {
            let j = choose|j: int| 0 <= j < ids@.len() && ids@[j] == stock_id;
            assert(market@.listings[j].stock_id == stock_id);
            assert(listed(market@.listings).contains(stock_id));
            assert(market@.listings.len() > 0);
        }
        let book = match market.order_book(stock_id) {
            Some(b) => b,
            None => {
                return Vec::new();
            },
        };
        let bb = book.best_bid();
        let ba = book.best_ask();
        let (bid, ask) = match (bb, ba) {
            (Some(b), Some(a)) => (b, a),
            _ => {
                assert(limit_turn(old(self).spec_id(), market@, stock_id, Seq::<OrderRequest>::empty()));
                return Vec::new();
            },
        };
        if bid >= ask {
            assert(limit_turn(old(self).spec_id(), market@, stock_id, Seq::<OrderRequest>::empty()));
            return Vec::new();
        }
        let mut draws: Vec<(bool, Side, u64, u64)> = Vec::new();
        let mut n: u32 = 0;
        while n < LIMIT_AGENT_NUM_TRADERS
            invariant
                n <= LIMIT_AGENT_NUM_TRADERS,
                draws@.len() == n,
                forall|i: int| 0 <= i < draws@.len() ==> limit_draw_ok(#[trigger] draws@[i]),
            decreases LIMIT_AGENT_NUM_TRADERS - n,
        {
            let acts = random_ratio(1, 2);
            let side = if random_ratio(1, 2) {
                Side::Buy
            } else {
                Side::Sell
            };
            let off = random_in(1, LIMIT_AGENT_MAX_OFFSET);
            let volume = random_in(LIMIT_AGENT_VOL_MIN, LIMIT_AGENT_VOL_MAX);
            draws.push((acts, side, off, volume));
            n = n + 1;
        }
        let r = limit_orders(self.id, stock_id, bid, ask, &draws);
        assert(r@ == limit_batch(old(self).spec_id(), stock_id, bid, ask, draws@));
        assert(limit_turn(old(self).spec_id(), market@, stock_id, r@));
        r
    }

    /// A market buy of `volume` shares.
    pub fn buy_stock(&mut self, stock_id: u64, volume: u64) -> (r: Vec<OrderRequest>)
        ensures
            r@ == seq![OrderRequest::MarketOrder { agent_id: old(self).spec_id(), stock_id, side: Side::Buy, volume }],
            *final(self) == *old(self),
    {
        let r = vec![OrderRequest::MarketOrder { agent_id: self.id, stock_id, side: Side::Buy, volume }];
        assert(r@ =~= seq![OrderRequest::MarketOrder { agent_id: self.id, stock_id, side: Side::Buy, volume }]);
        r
    }

    /// A market sell of `volume` shares.
    pub fn sell_stock(&mut self, stock_id: u64, volume: u64) -> (r: Vec<OrderRequest>)
        ensures
            r@ == seq![OrderRequest::MarketOrder { agent_id: old(self).spec_id(), stock_id, side: Side::Sell, volume }],
            *final(self) == *old(self),
    {
        let r = vec![OrderRequest::MarketOrder { agent_id: self.id, stock_id, side: Side::Sell, volume }];
        assert(r@ =~= seq![OrderRequest::MarketOrder { agent_id: self.id, stock_id, side: Side::Sell, volume }]);
        r
    }

    /// When the inventory is at or below `MARGIN_CALL_THRESHOLD`, a market
    /// buy of the whole shortfall in the instrument of its lowest-numbered
    /// open order (id 0 when it has none); nothing otherwise.
    pub fn margin_call(&mut self) -> (r: Vec<OrderRequest>)
        ensures
            Self::calls(*old(self), *final(self), r@),
    {
        if self.inventory > MARGIN_CALL_THRESHOLD {
            return Vec::new();
        }
        let sid = match least_key(&self.open_orders) {
            Some(k) => match self.open_orders.get(&k) {
                Some(o) => o.stock_id,
                None => 0,
            },
            None => 0,
        };
        let deficit: u64 = (-(self.inventory as i128)) as u64;
        let r = vec![OrderRequest::MarketOrder { agent_id: self.id, stock_id: sid, side: Side::Buy, volume: deficit }];
        assert(r@ =~= seq![cover_order(old(self).spec_id(), sid, old(self).spec_inventory())]);
        r
    }

    /// Records an order the market stamped for this agent.
    pub fn acknowledge_order(&mut self, o: Order)
        ensures
            Self::acks(*old(self), *final(self), o),
    {
        self.open_orders.insert(o.id, o);
    }

    /// Books a fill of `vol` shares (negative for a sale) at the trade's
    /// price: inventory and cash move, saturating, and an own open order
    /// that the trade filled as maker is brought up to date.
    pub fn update_portfolio(&mut self, vol: i64, tr: &Trade)
        ensures
            Self::fills(*old(self), *final(self), vol, *tr),
    {
        self.inventory = saturate(self.inventory as i128 + vol as i128);
        self.cash = pay_for_fill(self.cash, vol, tr.price);
        reconcile_fill(&mut self.open_orders, self.id, tr);
    }

    /// The open orders, by increasing id.
    pub fn get_pending_orders(&self) -> (r: Vec<Order>)
        ensures
            listed_in_order(self.spec_open_orders(), r@),
    {
        orders_of(&self.open_orders)
    }

    /// Forgets an open order; no cancel goes to the market.
    pub fn cancel_open_order(&mut self, id: u64) -> (r: Vec<OrderRequest>)
        ensures
            r@ == Seq::<OrderRequest>::empty(),
            final(self).spec_open_orders() == old(self).spec_open_orders().remove(id),
            final(self).spec_inventory() == old(self).spec_inventory(),
    {
        self.open_orders.remove(&id);
        Vec::new()
    }

    pub fn get_id(&self) -> (r: usize)
        ensures
            r == self.spec_id(),
    {
        self.id
    }

    pub fn get_inventory(&self) -> (r: i64)
        ensures
            r == self.spec_inventory(),
    {
        self.inventory
    }

    /// Cash in cents.
    pub fn get_cash(&self) -> (r: i64)
        ensures
            r == self.spec_cash(),
    {
        self.cash
    }
}

} // verus!
