//! The whale: acts rarely; when it does, it withdraws all its open orders
//! and either slams the book with a huge market order or places large
//! support and resistance limits around the mid.

use std::collections::BTreeMap;
use vstd::prelude::*;
use crate::agent_support::{
    cash_after, clamp_i64, keys_of, listed_in_order, orders_of, pay_for_fill, random_in, random_pick,
    random_ratio, reconcile, reconcile_fill, saturate,
};
use crate::market::{listed, mid_of, Market, MarketState};
use crate::order::{Order, OrderRequest, Side, Trade};

verus! {

broadcast use vstd::laws_cmp::group_laws_cmp;

pub const WHALE_INITIAL_INVENTORY: i64 = 50_000_000;
pub const WHALE_ORDER_VOLUME: u64 = 1_000_000;
pub const WHALE_PRICE_OFFSET_MIN: u64 = 500;
pub const WHALE_PRICE_OFFSET_MAX: u64 = 1_000;
pub const WHALE_TICKS_UNTIL_ACTIVE: u32 = 20;
/// Chance per turn that the whale acts, in hundredths.
pub const WHALE_ACTION_PERCENT: u32 = 1;
/// Chance, in hundredths, that an acting whale slams the book.
pub const WHALE_CRAZY_PERCENT: u32 = 1;
pub const WHALE_INITIAL_CASH: i64 = 100_000_000_000_000;

pub struct WhaleAgent {
    id: usize,
    inventory: i64,
    ticks_until_active: u32,
    open_orders: BTreeMap<u64, Order>,
    cash: i64,
}

/// Cancels of agent `agent_id`'s orders `ids`, in that order.
pub open spec fn cancels(agent_id: usize, ids: Seq<u64>) -> Seq<OrderRequest> {
    ids.map_values(|id: u64| OrderRequest::CancelOrder { agent_id, order_id: id })
}

pub open spec fn slam(agent_id: usize, stock_id: u64, side: Side, volume: u64) -> OrderRequest {
    OrderRequest::MarketOrder { agent_id, stock_id, side, volume }
}

/// A bid `down` below and an ask `up` above `mid`, saturating.
pub open spec fn walls(agent_id: usize, stock_id: u64, mid: u64, down: u64, up: u64) -> Seq<OrderRequest> {
    seq![
        OrderRequest::LimitOrder {
            agent_id,
            stock_id,
            side: Side::Buy,
            price: if mid < down { 0 } else { (mid - down) as u64 },
            volume: WHALE_ORDER_VOLUME,
        },
        OrderRequest::LimitOrder {
            agent_id,
            stock_id,
            side: Side::Sell,
            price: if mid + up > u64::MAX { u64::MAX } else { (mid + up) as u64 },
            volume: WHALE_ORDER_VOLUME,
        },
    ]
}

/// One whale turn on `stock_id` with the given draws: when it fires, a
/// cancel for each of `open_ids` and then, if `crazy`, a market order of
/// `v` on `side`, else walls `down` and `up` around the mid, or nothing
/// without a mid; when it does not fire, nothing.
pub open spec fn whale_batch(
    agent_id: usize,
    stock_id: u64,
    open_ids: Seq<u64>,
    mid: Option<u64>,
    fires: bool,
    crazy: bool,
    side: Side,
    v: u64,
    down: u64,
    up: u64,
) -> Seq<OrderRequest> {
    if fires {
        cancels(agent_id, open_ids) + if crazy {
            seq![slam(agent_id, stock_id, side, v)]
        } else if mid is Some {
            walls(agent_id, stock_id, mid->0, down, up)
        } else {
            Seq::<OrderRequest>::empty()
        }
    } else {
        Seq::empty()
    }
}

/// Draws a whale may make: a volume of between half and all of
/// `WHALE_ORDER_VOLUME` and offsets within their range.
pub open spec fn whale_draws_ok(v: u64, down: u64, up: u64) -> bool {
    &&& WHALE_ORDER_VOLUME / 2 <= v <= WHALE_ORDER_VOLUME
    &&& WHALE_PRICE_OFFSET_MIN <= down <= WHALE_PRICE_OFFSET_MAX
    &&& WHALE_PRICE_OFFSET_MIN <= up <= WHALE_PRICE_OFFSET_MAX
}

/// The orders of one whale turn for the given draws; see `whale_batch`.
pub fn whale_turn(
    agent_id: usize,
    stock_id: u64,
    open_ids: &Vec<u64>,
    mid: Option<u64>,
    fires: bool,
    crazy: bool,
    side: Side,
    v: u64,
    down: u64,
    up: u64,
) -> (r: Vec<OrderRequest>)
    ensures
        r@ == whale_batch(agent_id, stock_id, open_ids@, mid, fires, crazy, side, v, down, up),
{
    let mut out: Vec<OrderRequest> = Vec::new();
    if !fires {
        return out;
    }
    let mut i: usize = 0;
    while i < open_ids.len()
        invariant
            0 <= i <= open_ids@.len(),
            out@ == cancels(agent_id, open_ids@.take(i as int)),
        decreases open_ids@.len() - i,
    {
        out.push(OrderRequest::CancelOrder { agent_id, order_id: open_ids[i] });
        i = i + 1;
        assert(out@ =~= cancels(agent_id, open_ids@.take(i as int)));
    }
    assert(open_ids@.take(i as int) =~= open_ids@);
    let ghost head = out@;
    if crazy {
        out.push(OrderRequest::MarketOrder { agent_id, stock_id, side, volume: v });
        assert(out@ =~= head + seq![slam(agent_id, stock_id, side, v)]);
    } else {
        match mid {
            Some(m) => {
                let bid_px = if m < down {
                    0
                } else {
                    m - down
                };
                let ask_px = if m > u64::MAX - up {
                    u64::MAX
                } else {
                    m + up
                };
                out.push(OrderRequest::LimitOrder { agent_id, stock_id, side: Side::Buy, price: bid_px, volume: WHALE_ORDER_VOLUME });
                out.push(OrderRequest::LimitOrder { agent_id, stock_id, side: Side::Sell, price: ask_px, volume: WHALE_ORDER_VOLUME });
                assert(out@ =~= head + walls(agent_id, stock_id, m, down, up));
            },
            None => {
                assert(out@ =~= head + Seq::<OrderRequest>::empty());
            },
        }
    }
    out
}

impl WhaleAgent {
    /// One call of `decide_actions` on `market` took `a0` to `a1`, returning
    /// `r`. While warming up it only counts down. Once active, with nothing
    /// listed it returns nothing and keeps its orders; otherwise, for some
    /// listed instrument and draws, it returns `whale_batch` over its open
    /// order ids, and forgets those orders exactly when it fires.
    pub open spec fn decides(a0: WhaleAgent, a1: WhaleAgent, market: MarketState, r: Seq<OrderRequest>) -> bool {
        &&& a1.spec_id() == a0.spec_id()
        &&& a1.spec_inventory() == a0.spec_inventory()
        &&& a1.spec_cash() == a0.spec_cash()
        &&& if a0.spec_ticks() > 0 {
            &&& r == Seq::<OrderRequest>::empty()
            &&& a1.spec_ticks() == a0.spec_ticks() - 1
            &&& a1.spec_open_orders() == a0.spec_open_orders()
        } else {
            &&& a1.spec_ticks() == 0
            &&& market.listings.len() == 0 ==> r == Seq::<OrderRequest>::empty() && a1.spec_open_orders()
                == a0.spec_open_orders()
            &&& market.listings.len() > 0 ==> exists|
                s: u64,
                ids: Seq<u64>,
                fires: bool,
                crazy: bool,
                side: Side,
                v: u64,
                down: u64,
                up: u64,
            |
                {
                    &&& listed(market.listings).contains(s)
                    &&& market.books.contains_key(s)
                    &&& ids.no_duplicates()
                    &&& ids.to_set() == a0.spec_open_orders().dom()
                    &&& whale_draws_ok(v, down, up)
                    &&& r == #[trigger] whale_batch(
                        a0.spec_id(),
                        s,
                        ids,
                        mid_of(market.books[s]),
                        fires,
                        crazy,
                        side,
                        v,
                        down,
                        up,
                    )
                    &&& a1.spec_open_orders() == if fires {
                        Map::<u64, Order>::empty()
                    } else {
                        a0.spec_open_orders()
                    }
                }
        }
    }

    /// `acknowledge_order(o)` took `a0` to `a1`: `o` joins the open orders.
    pub open spec fn acks(a0: WhaleAgent, a1: WhaleAgent, o: Order) -> bool {
        &&& a1.spec_open_orders() == a0.spec_open_orders().insert(o.id, o)
        &&& a1.spec_id() == a0.spec_id()
        &&& a1.spec_inventory() == a0.spec_inventory()
        &&& a1.spec_cash() == a0.spec_cash()
        &&& a1.spec_ticks() == a0.spec_ticks()
    }

    /// `margin_call()` changes nothing and returns nothing.
    pub open spec fn calls(a0: WhaleAgent, a1: WhaleAgent, r: Seq<OrderRequest>) -> bool {
        a1 == a0 && r == Seq::<OrderRequest>::empty()
    }

    /// `update_portfolio(vol, tr)` took `a0` to `a1`.
    pub open spec fn fills(a0: WhaleAgent, a1: WhaleAgent, vol: i64, tr: Trade) -> bool {
        &&& a1.spec_inventory() == clamp_i64(a0.spec_inventory() + vol)
        &&& a1.spec_cash() == cash_after(a0.spec_cash(), vol, tr.price)
        &&& a1.spec_open_orders() == reconcile(a0.spec_open_orders(), a0.spec_id(), tr)
        &&& a1.spec_id() == a0.spec_id()
        &&& a1.spec_ticks() == a0.spec_ticks()
    }

    /// A fresh agent with id `id`.
    pub open spec fn fresh(a: WhaleAgent, id: usize) -> bool {
        &&& a.spec_id() == id
        &&& a.spec_inventory() == WHALE_INITIAL_INVENTORY
        &&& a.spec_ticks() == WHALE_TICKS_UNTIL_ACTIVE
        &&& a.spec_open_orders() == Map::<u64, Order>::empty()
        &&& a.spec_cash() == WHALE_INITIAL_CASH
    }

    pub closed spec fn spec_id(&self) -> usize {
        self.id
    }

    pub closed spec fn spec_inventory(&self) -> i64 {
        self.inventory
    }

    pub closed spec fn spec_ticks(&self) -> u32 {
        self.ticks_until_active
    }

    pub closed spec fn spec_open_orders(&self) -> Map<u64, Order> {
        self.open_orders@
    }

    pub closed spec fn spec_cash(&self) -> i64 {
        self.cash
    }

    pub fn new(id: usize) -> (a: WhaleAgent)
        ensures
            Self::fresh(a, id),
    {
        WhaleAgent {
            id,
            inventory: WHALE_INITIAL_INVENTORY,
            ticks_until_active: WHALE_TICKS_UNTIL_ACTIVE,
            open_orders: BTreeMap::new(),
            cash: WHALE_INITIAL_CASH,
        }
    }

    /// One turn; see `decides`.
    pub fn decide_actions(&mut self, market: &Market) -> (r: Vec<OrderRequest>)
        requires
            market.wf(),
        ensures
            Self::decides(*old(self), *final(self), market@, r@),
    {
        if self.ticks_until_active > 0 {
            self.ticks_until_active = self.ticks_until_active - 1;
            return Vec::new();
        }
        let ids = market.stock_ids();
        let fires = random_ratio(WHALE_ACTION_PERCENT, 100);
        let stock_id = match random_pick(&ids) {
            None => {
                assert(market@.listings.len() == ids@.len());
                return Vec::new();
            },
            Some(s) => s,
        };
        proof {
            let j = choose|j: int| 0 <= j < ids@.len() && ids@[j] == stock_id;
            assert(market@.listings[j].stock_id == stock_id);
            assert(listed(market@.listings).contains(stock_id));
            assert(market@.listings.len() > 0);
            market.lemma_books_listed();
        }
        let open_ids = keys_of(&self.open_orders);
        let mid = market.mid_price(stock_id);
        let crazy = random_ratio(WHALE_CRAZY_PERCENT, 100);
        let side = if random_ratio(1, 2) {
            Side::Buy
        } else {
            Side::Sell
        };
        let v = random_in(WHALE_ORDER_VOLUME / 2, WHALE_ORDER_VOLUME);
        let down = random_in(WHALE_PRICE_OFFSET_MIN, WHALE_PRICE_OFFSET_MAX);
        let up = random_in(WHALE_PRICE_OFFSET_MIN, WHALE_PRICE_OFFSET_MAX);
        let r = whale_turn(self.id, stock_id, &open_ids, mid, fires, crazy, side, v, down, up);
        if fires {
            self.open_orders = BTreeMap::new();
            assert(self.open_orders@ =~= Map::<u64, Order>::empty());
        }
        assert(r@ == whale_batch(
            old(self).spec_id(),
            stock_id,
            open_ids@,
            mid_of(market@.books[stock_id]),
            fires,
            crazy,
            side,
            v,
            down,
            up,
        ));
        r
    }

    /// A market buy of `vol` shares.
    pub fn buy_stock(&mut self, stock_id: u64, vol: u64) -> (r: Vec<OrderRequest>)
        ensures
            r@ == seq![slam(old(self).spec_id(), stock_id, Side::Buy, vol)],
            *final(self) == *old(self),
    {
        let r = vec![OrderRequest::MarketOrder { agent_id: self.id, stock_id, side: Side::Buy, volume: vol }];
        assert(r@ =~= seq![slam(self.id, stock_id, Side::Buy, vol)]);
        r
    }

    /// A market sell of `vol` shares.
    pub fn sell_stock(&mut self, stock_id: u64, vol: u64) -> (r: Vec<OrderRequest>)
        ensures
            r@ == seq![slam(old(self).spec_id(), stock_id, Side::Sell, vol)],
            *final(self) == *old(self),
    {
        let r = vec![OrderRequest::MarketOrder { agent_id: self.id, stock_id, side: Side::Sell, volume: vol }];
        assert(r@ =~= seq![slam(self.id, stock_id, Side::Sell, vol)]);
        r
    }

    /// The whale has capital enough never to be margin called.
    pub fn margin_call(&mut self) -> (r: Vec<OrderRequest>)
        ensures
            Self::calls(*old(self), *final(self), r@),
    {
        Vec::new()
    }

    /// Records an order the market stamped for this agent.
    pub fn acknowledge_order(&mut self, o: Order)
        ensures
            Self::acks(*old(self), *final(self), o),
    {
        self.open_orders.insert(o.id, o);
    }

    /// Books a fill of `vol` shares (negative for a sale) at the trade's
    /// price: inventory and cash move, saturating, and an own open order
    /// that the trade filled as maker is brought up to date.
    pub fn update_portfolio(&mut self, vol: i64, tr: &Trade)
        ensures
            Self::fills(*old(self), *final(self), vol, *tr),
    {
        self.inventory = saturate(self.inventory as i128 + vol as i128);
        self.cash = pay_for_fill(self.cash, vol, tr.price);
        reconcile_fill(&mut self.open_orders, self.id, tr);
    }

    /// The open orders, by increasing id.
    pub fn get_pending_orders(&self) -> (r: Vec<Order>)
        ensures
            listed_in_order(self.spec_open_orders(), r@),
    {
        orders_of(&self.open_orders)
    }

    /// Forgets an open order and, if it had one by that id, asks the market
    /// to cancel it.
    pub fn cancel_open_order(&mut self, id: u64) -> (r: Vec<OrderRequest>)
        ensures
            final(self).spec_open_orders() == old(self).spec_open_orders().remove(id),
            final(self).spec_inventory() == old(self).spec_inventory(),
            r@ == if old(self).spec_open_orders().contains_key(id) {
                seq![OrderRequest::CancelOrder { agent_id: old(self).spec_id(), order_id: id }]
            } else {
                Seq::<OrderRequest>::empty()
            },
    {
        match self.open_orders.remove(&id) {
            Some(_) => {
                let r = vec![OrderRequest::CancelOrder { agent_id: self.id, order_id: id }];
                assert(r@ =~= seq![OrderRequest::CancelOrder { agent_id: self.id, order_id: id }]);
                r
            },
            None => Vec::new(),
        }
    }

    pub fn get_id(&self) -> (r: usize)
        ensures
            r == self.spec_id(),
    {
        self.id
    }

    pub fn get_inventory(&self) -> (r: i64)
        ensures
            r == self.spec_inventory(),
    {
        self.inventory
    }

    /// Cash in cents.
    pub fn get_cash(&self) -> (r: i64)
        ensures
            r == self.spec_cash(),
    {
        self.cash
    }
}

} // verus!
