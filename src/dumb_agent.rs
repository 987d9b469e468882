//! The retail ensemble: many small traders that each turn, with some
//! probability, send a market order of a typical size, now and then a very
//! large one. Buys must be affordable at the mid price with cash and margin.

use std::collections::BTreeMap;
use vstd::prelude::*;
use crate::agent_support::{
    cash_after, clamp_i64, keys_of, listed_in_order, orders_of, pay_for_fill, random_in, random_pick,
    random_ratio, reconcile, reconcile_fill, saturate,
};
use crate::margin::{liquidation, margin_call_orders};
use crate::market::{listed, mid_of, Market, MarketState};
use crate::order::{Order, OrderRequest, Side, Trade};

verus! {

broadcast use vstd::laws_cmp::group_laws_cmp;

pub const DUMB_AGENT_NUM_TRADERS: u32 = 50;
/// Chance that a trader acts, in tenths.
pub const DUMB_AGENT_ACTION_TENTHS: u32 = 3;
pub const DUMB_AGENT_TYPICAL_VOL_MIN: u64 = 1;
pub const DUMB_AGENT_TYPICAL_VOL_MAX: u64 = 50;
/// Chance of a very large order, in thousandths.
pub const DUMB_AGENT_LARGE_VOL_PER_MILLE: u32 = 1;
pub const DUMB_AGENT_LARGE_VOL_MIN: u64 = 7_500;
pub const DUMB_AGENT_LARGE_VOL_MAX: u64 = 750_000;
pub const DUMB_AGENT_TICKS_UNTIL_ACTIVE: u32 = 15;
pub const DUMB_AGENT_INITIAL_CASH: i64 = 100_000_000_000;
pub const DUMB_AGENT_MARGIN: i64 = 400_000_000_000;

#[derive(Clone)]
pub struct DumbAgent {
    id: usize,
    inventory: BTreeMap<u64, i64>,
    ticks_until_active: u32,
    open_orders: BTreeMap<u64, Order>,
    cash: i64,
    margin: i64,
}

/// A buy of `volume` is affordable at `mid`, if any, with `cash + margin`;
/// a sell always is.
pub open spec fn affordable(side: Side, volume: u64, mid: Option<u64>, cash: i64, margin: i64) -> bool {
    (side == Side::Buy && mid is Some) ==> volume * mid->0 <= cash + margin
}

/// One trader's draw: whether it acts, its side and its volume.
pub open spec fn retail_draw_ok(d: (bool, Side, u64)) -> bool {
    (DUMB_AGENT_TYPICAL_VOL_MIN <= d.2 <= DUMB_AGENT_TYPICAL_VOL_MAX) || (DUMB_AGENT_LARGE_VOL_MIN <= d.2
        <= DUMB_AGENT_LARGE_VOL_MAX)
}

/// The orders of a turn on `stock_id`: for each draw in order that acts
/// and is affordable, a market order of its side and volume.
pub open spec fn retail_batch(
    agent_id: usize,
    stock_id: u64,
    mid: Option<u64>,
    cash: i64,
    margin: i64,
    draws: Seq<(bool, Side, u64)>,
) -> Seq<OrderRequest>
    decreases draws.len(),
{
    if draws.len() == 0 {
        Seq::empty()
    } else {
        let prev = retail_batch(agent_id, stock_id, mid, cash, margin, draws.drop_last());
        let d = draws.last();
        if d.0 && affordable(d.1, d.2, mid, cash, margin) {
            prev.push(OrderRequest::MarketOrder { agent_id, stock_id, side: d.1, volume: d.2 })
        } else {
            prev
        }
    }
}

/// The orders of one turn for the given draws; see `retail_batch`.
pub fn retail_orders(
    agent_id: usize,
    stock_id: u64,
    mid: Option<u64>,
    cash: i64,
    margin: i64,
    draws: &Vec<(bool, Side, u64)>,
) -> (r: Vec<OrderRequest>)
    ensures
        r@ == retail_batch(agent_id, stock_id, mid, cash, margin, draws@),
{
    let budget: i128 = cash as i128 + margin as i128;
    let mut out: Vec<OrderRequest> = Vec::new();
    let mut i: usize = 0;
    while i < draws.len()
        invariant
            0 <= i <= draws@.len(),
            budget == cash + margin,
            out@ == retail_batch(agent_id, stock_id, mid, cash, margin, draws@.take(i as int)),
        decreases draws@.len() - i,
    {
        let (acts, side, volume) = draws[i];
        let ok = match (side, mid) {
            (Side::Buy, Some(px)) => {
                if budget < 0 {
                    false
                } else {
                    assert(volume as u128 * px as u128 <= 0xffff_ffff_ffff_ffff * 0xffff_ffff_ffff_ffff) by (nonlinear_arith)
                        requires
                            volume <= 0xffff_ffff_ffff_ffffu64,
                            px <= 0xffff_ffff_ffff_ffffu64,
                    ;
                    volume as u128 * px as u128 <= budget as u128
                }
            },
            _ => true,
        };
        assert(ok == affordable(side, volume, mid, cash, margin));
        if acts && ok {
            out.push(OrderRequest::MarketOrder { agent_id, stock_id, side, volume });
        }
        i = i + 1;
        assert(draws@.take(i as int).drop_last() =~= draws@.take(i as int - 1));
    }
    assert(draws@.take(i as int) =~= draws@);
    out
}

/// Liquidation orders for each instrument of `ks`, in that order.
pub open spec fn liquidate_all(agent_id: usize, ks: Seq<u64>, inv: Map<u64, i64>, cash: i64, margin: i64) -> Seq<OrderRequest>
    decreases ks.len(),
{
    if ks.len() == 0 {
        Seq::empty()
    } else {
        liquidate_all(agent_id, ks.drop_last(), inv, cash, margin) + liquidation(
            agent_id,
            ks.last(),
            inv[ks.last()],
            cash,
            margin,
        )
    }
}

/// Sum of the positions of `ks`, saturating at each step.
pub open spec fn total_position(ks: Seq<u64>, inv: Map<u64, i64>) -> i64
    decreases ks.len(),
{
    if ks.len() == 0 {
        0
    } else {
        clamp_i64(total_position(ks.drop_last(), inv) + inv[ks.last()])
    }
}

impl DumbAgent {
    /// One call of `decide_actions` on `market` took `a0` to `a1`, returning
    /// `r`. While warming up it only counts down. Once active, with nothing
    /// listed it returns nothing; otherwise it picks a listed instrument and
    /// one draw per trader, and returns `retail_batch` of them.
    pub open spec fn decides(a0: DumbAgent, a1: DumbAgent, market: MarketState, r: Seq<OrderRequest>) -> bool {
        &&& a1.spec_id() == a0.spec_id()
        &&& a1.spec_positions() == a0.spec_positions()
        &&& a1.spec_open_orders() == a0.spec_open_orders()
        &&& a1.spec_cash() == a0.spec_cash()
        &&& a1.spec_margin() == a0.spec_margin()
        &&& if a0.spec_ticks() > 0 {
            r == Seq::<OrderRequest>::empty() && a1.spec_ticks() == a0.spec_ticks() - 1
        } else {
            &&& a1.spec_ticks() == 0
            &&& market.listings.len() == 0 ==> r == Seq::<OrderRequest>::empty()
            &&& market.listings.len() > 0 ==> exists|s: u64, draws: Seq<(bool, Side, u64)>|
                {
                    &&& listed(market.listings).contains(s)
                    &&& market.books.contains_key(s)
                    &&& draws.len() == DUMB_AGENT_NUM_TRADERS
                    &&& forall|i: int| 0 <= i < draws.len() ==> retail_draw_ok(#[trigger] draws[i])
                    &&& r == #[trigger] retail_batch(
                        a0.spec_id(),
                        s,
                        mid_of(market.books[s]),
                        a0.spec_cash(),
                        a0.spec_margin(),
                        draws,
                    )
                }
        }
    }

    /// `acknowledge_order(o)` took `a0` to `a1`: `o` joins the open orders.
    pub open spec fn acks(a0: DumbAgent, a1: DumbAgent, o: Order) -> bool {
        &&& a1.spec_open_orders() == a0.spec_open_orders().insert(o.id, o)
        &&& a1.spec_id() == a0.spec_id()
        &&& a1.spec_positions() == a0.spec_positions()
        &&& a1.spec_cash() == a0.spec_cash()
        &&& a1.spec_margin() == a0.spec_margin()
        &&& a1.spec_ticks() == a0.spec_ticks()
    }

    /// `margin_call()` took `a0` to `a1`, returning `r`: with cash below
    /// minus the margin, one `liquidation` per instrument held, and the
    /// positions forgotten; otherwise nothing.
    pub open spec fn calls(a0: DumbAgent, a1: DumbAgent, r: Seq<OrderRequest>) -> bool {
        &&& a1.spec_id() == a0.spec_id()
        &&& a1.spec_cash() == a0.spec_cash()
        &&& a1.spec_margin() == a0.spec_margin()
        &&& a1.spec_open_orders() == a0.spec_open_orders()
        &&& a1.spec_ticks() == a0.spec_ticks()
        &&& a0.spec_cash() >= -a0.spec_margin() ==> r == Seq::<OrderRequest>::empty() && a1.spec_positions()
            == a0.spec_positions()
        &&& a0.spec_cash() < -a0.spec_margin() ==> a1.spec_positions() == Map::<u64, i64>::empty()
            && exists|ks: Seq<u64>|
            {
                &&& ks.no_duplicates()
                &&& ks.to_set() == a0.spec_positions().dom()
                &&& r == #[trigger] liquidate_all(a0.spec_id(), ks, a0.spec_positions(), a0.spec_cash(), a0.spec_margin())
            }
    }

    /// `update_portfolio(vol, tr)` took `a0` to `a1`.
    pub open spec fn fills(a0: DumbAgent, a1: DumbAgent, vol: i64, tr: Trade) -> bool {
        &&& a1.spec_positions() == a0.spec_positions().insert(
            tr.stock_id,
            clamp_i64(
                (if a0.spec_positions().contains_key(tr.stock_id) {
                    a0.spec_positions()[tr.stock_id]
                } else {
                    0i64
                }) + vol,
            ),
        )
        &&& a1.spec_cash() == cash_after(a0.spec_cash(), vol, tr.price)
        &&& a1.spec_open_orders() == reconcile(a0.spec_open_orders(), a0.spec_id(), tr)
        &&& a1.spec_id() == a0.spec_id()
        &&& a1.spec_margin() == a0.spec_margin()
        &&& a1.spec_ticks() == a0.spec_ticks()
    }

    /// A fresh agent with id `id`.
    pub open spec fn fresh(a: DumbAgent, id: usize) -> bool {
        &&& a.spec_id() == id
        &&& a.spec_positions() == Map::<u64, i64>::empty()
        &&& a.spec_ticks() == DUMB_AGENT_TICKS_UNTIL_ACTIVE
        &&& a.spec_open_orders() == Map::<u64, Order>::empty()
        &&& a.spec_cash() == DUMB_AGENT_INITIAL_CASH
        &&& a.spec_margin() == DUMB_AGENT_MARGIN
    }

    pub closed spec fn spec_id(&self) -> usize {
        self.id
    }

    pub closed spec fn spec_positions(&self) -> Map<u64, i64> {
        self.inventory@
    }

    pub closed spec fn spec_ticks(&self) -> u32 {
        self.ticks_until_active
    }

    pub closed spec fn spec_open_orders(&self) -> Map<u64, Order> {
        self.open_orders@
    }

    pub closed spec fn spec_cash(&self) -> i64 {
        self.cash
    }

    pub closed spec fn spec_margin(&self) -> i64 {
        self.margin
    }

    pub fn new(id: usize) -> (a: DumbAgent)
        ensures
            Self::fresh(a, id),
    {
        DumbAgent {
            id,
            inventory: BTreeMap::new(),
            ticks_until_active: DUMB_AGENT_TICKS_UNTIL_ACTIVE,
            open_orders: BTreeMap::new(),
            cash: DUMB_AGENT_INITIAL_CASH,
            margin: DUMB_AGENT_MARGIN,
        }
    }

    /// A cash and margin in cents other than the defaults.
    pub fn set_funds(&mut self, cash: i64, margin: i64)
        ensures
            final(self).spec_cash() == cash,
            final(self).spec_margin() == margin,
            final(self).spec_id() == old(self).spec_id(),
            final(self).spec_positions() == old(self).spec_positions(),
            final(self).spec_open_orders() == old(self).spec_open_orders(),
            final(self).spec_ticks() == old(self).spec_ticks(),
    {
        self.cash = cash;
        self.margin = margin;
    }

    /// One turn; see `decides`.
    pub fn decide_actions(&mut self, market: &Market) -> (r: Vec<OrderRequest>)
        requires
            market.wf(),
        ensures
            Self::decides(*old(self), *final(self), market@, r@),
    {
        if self.ticks_until_active > 0 {
            self.ticks_until_active = self.ticks_until_active - 1;
            return Vec::new();
        }
        let ids = market.stock_ids();
        let stock_id = match random_pick(&ids) {
            None => {
                assert(market@.listings.len() == ids@.len());
                return Vec::new();
            },
            Some(s) => s,
        };
        proof {
            let j = choose|j: int| 0 <= j < ids@.len() && ids@[j] == stock_id;
            assert(market@.listings[j].stock_id == stock_id);
            assert(listed(market@.listings).contains(stock_id));
            market.lemma_books_listed();
        }
        let mid = market.mid_price(stock_id);
        let mut draws: Vec<(bool, Side, u64)> = Vec::new();
        let mut n: u32 = 0;
        while n < DUMB_AGENT_NUM_TRADERS
            invariant
                n <= DUMB_AGENT_NUM_TRADERS,
                draws@.len() == n,
                forall|i: int| 0 <= i < draws@.len() ==> retail_draw_ok(#[trigger] draws@[i]),
            decreases DUMB_AGENT_NUM_TRADERS - n,
        {
            let acts = random_ratio(DUMB_AGENT_ACTION_TENTHS, 10);
            let side = if random_ratio(1, 2) {
                Side::Buy
            } else {
                Side::Sell
            };
            let volume = if random_ratio(DUMB_AGENT_LARGE_VOL_PER_MILLE, 1000) {
                random_in(DUMB_AGENT_LARGE_VOL_MIN, DUMB_AGENT_LARGE_VOL_MAX)
            } else {
                random_in(DUMB_AGENT_TYPICAL_VOL_MIN, DUMB_AGENT_TYPICAL_VOL_MAX)
            };
            draws.push((acts, side, volume));
            n = n + 1;
        }
        let r = retail_orders(self.id, stock_id, mid, self.cash, self.margin, &draws);
        assert(market@.listings.len() > 0);
        assert(r@ == retail_batch(
            old(self).spec_id(),
            stock_id,
            mid_of(market@.books[stock_id]),
            old(self).spec_cash(),
            old(self).spec_margin(),
            draws@,
        ));
        r
    }

    /// A market buy of `volume` shares.
    pub fn buy_stock(&mut self, stock_id: u64, volume: u64) -> (r: Vec<OrderRequest>)
        ensures
            r@ == seq![OrderRequest::MarketOrder { agent_id: old(self).spec_id(), stock_id, side: Side::Buy, volume }],
            *final(self) == *old(self),
    {
        let r = vec![OrderRequest::MarketOrder { agent_id: self.id, stock_id, side: Side::Buy, volume }];
        assert(r@ =~= seq![OrderRequest::MarketOrder { agent_id: self.id, stock_id, side: Side::Buy, volume }]);
        r
    }

    /// A market sell of `volume` shares.
    pub fn sell_stock(&mut self, stock_id: u64, volume: u64) -> (r: Vec<OrderRequest>)
        ensures
            r@ == seq![OrderRequest::MarketOrder { agent_id: old(self).spec_id(), stock_id, side: Side::Sell, volume }],
            *final(self) == *old(self),
    {
        let r = vec![OrderRequest::MarketOrder { agent_id: self.id, stock_id, side: Side::Sell, volume }];
        assert(r@ =~= seq![OrderRequest::MarketOrder { agent_id: self.id, stock_id, side: Side::Sell, volume }]);
        r
    }

    /// When cash has fallen below minus the margin, closes every position
    /// (one `liquidation` per instrument held) and forgets them; nothing
    /// otherwise.
    pub fn margin_call(&mut self) -> (r: Vec<OrderRequest>)
        ensures
            Self::calls(*old(self), *final(self), r@),
    {
        if self.cash as i128 >= -(self.margin as i128) {
            return Vec::new();
        }
        let ks = keys_of(&self.inventory);
        let mut out: Vec<OrderRequest> = Vec::new();
        let mut i: usize = 0;
        while i < ks.len()
            invariant
                0 <= i <= ks@.len(),
                ks@.to_set() == self.inventory@.dom(),
                out@ == liquidate_all(self.id, ks@.take(i as int), self.inventory@, self.cash, self.margin),
            decreases ks@.len() - i,
        {
            let k = ks[i];
            assert(ks@.to_set().contains(k));
            let pos = *self.inventory.get(&k).unwrap();
            let mut more = margin_call_orders(self.id, k, pos, self.cash, self.margin);
            out.append(&mut more);
            i = i + 1;
            assert(ks@.take(i as int).drop_last() =~= ks@.take(i as int - 1));
        }
        assert(ks@.take(i as int) =~= ks@);
        let ghost r = out@;
        assert(r == liquidate_all(
            old(self).spec_id(),
            ks@,
            old(self).spec_positions(),
            old(self).spec_cash(),
            old(self).spec_margin(),
        ));
        self.inventory = BTreeMap::new();
        out
    }

    /// Records an order the market stamped for this agent.
    pub fn acknowledge_order(&mut self, order: Order)
        ensures
            Self::acks(*old(self), *final(self), order),
    {
        self.open_orders.insert(order.id, order);
    }

    /// Books a fill of `vol` shares (negative for a sale) of the trade's
    /// instrument at its price: that position and cash move, saturating,
    /// and an own open order that the trade filled as maker is brought up to
    /// date.
    pub fn update_portfolio(&mut self, vol: i64, tr: &Trade)
        ensures
            Self::fills(*old(self), *final(self), vol, *tr),
    {
        let held = match self.inventory.get(&tr.stock_id) {
            Some(v) => *v,
            None => 0,
        };
        self.inventory.insert(tr.stock_id, saturate(held as i128 + vol as i128));
        self.cash = pay_for_fill(self.cash, vol, tr.price);
        reconcile_fill(&mut self.open_orders, self.id, tr);
    }

    /// The open orders, by increasing id.
    pub fn get_pending_orders(&self) -> (r: Vec<Order>)
        ensures
            listed_in_order(self.spec_open_orders(), r@),
    {
        orders_of(&self.open_orders)
    }

    /// The retail ensemble does not cancel.
    pub fn cancel_open_order(&mut self, _id: u64) -> (r: Vec<OrderRequest>)
        ensures
            r@ == Seq::<OrderRequest>::empty(),
            *final(self) == *old(self),
    {
        Vec::new()
    }

    pub fn get_id(&self) -> (r: usize)
        ensures
            r == self.spec_id(),
    {
        self.id
    }

    /// Position in one instrument.
    pub fn position(&self, stock_id: u64) -> (r: i64)
        ensures
            r == if self.spec_positions().contains_key(stock_id) {
                self.spec_positions()[stock_id]
            } else {
                0
            },
    {
        match self.inventory.get(&stock_id) {
            Some(v) => *v,
            None => 0,
        }
    }

    /// Total position over all instruments, saturating.
    pub fn get_inventory(&self) -> (r: i64)
        ensures
            exists|ks: Seq<u64>|
                {
                    &&& ks.no_duplicates()
                    &&& ks.to_set() == self.spec_positions().dom()
                    &&& r == #[trigger] total_position(ks, self.spec_positions())
                },
    {
        let ks = keys_of(&self.inventory);
        let mut sum: i64 = 0;
        let mut i: usize = 0;
        while i < ks.len()
            invariant
                0 <= i <= ks@.len(),
                ks@.to_set() == self.inventory@.dom(),
                sum == total_position(ks@.take(i as int), self.inventory@),
            decreases ks@.len() - i,
        {
            let k = ks[i];
            assert(ks@.to_set().contains(k));
            let pos = *self.inventory.get(&k).unwrap();
            sum = saturate(sum as i128 + pos as i128);
            i = i + 1;
            assert(ks@.take(i as int).drop_last() =~= ks@.take(i as int - 1));
        }
        assert(ks@.take(i as int) =~= ks@);
        assert(sum == total_position(ks@, self.spec_positions()));
        sum
    }

    /// Cash in cents.
    pub fn get_cash(&self) -> (r: i64)
        ensures
            r == self.spec_cash(),
    {
        self.cash
    }
}

} // verus!
