//! The market maker: seeds each instrument's book once with a decaying
//! ladder of quotes, then quotes both sides around the mid, skewed against
//! its inventory, and fills in a missing side when only one is populated.
//! Every price it posts is clamped to `[MIN_PRICE, MAX_PRICE]`.

use std::collections::{BTreeMap, BTreeSet};
use vstd::prelude::*;
use crate::agent_support::{
    cash_after, clamp_i64, listed_in_order, orders_of, pay_for_fill, random_in, random_pick, reconcile,
    reconcile_fill, saturate,
};
use crate::margin::{liquidation, margin_call_orders};
use crate::market::{listed, opening_price, Market, MarketState};
use crate::order::{Order, OrderRequest, Side, Trade};
use crate::order_book::{top, least_key};

verus! {

broadcast use vstd::laws_cmp::group_laws_cmp;

/// Lowest price the market maker posts, in cents.
pub const MIN_PRICE: u64 = 100;
/// Highest price the market maker posts, in cents.
pub const MAX_PRICE: u64 = 300_000;
pub const MM_INITIAL_INVENTORY: i64 = 100_000_000;
/// Center used when the book is empty, in cents.
pub const MM_INITIAL_CENTER_PRICE: u64 = 15_000;
/// Half of the desired spread, in cents.
pub const MM_HALF_SPREAD: u64 = 12;
pub const MM_SEED_LEVELS: u64 = 10;
pub const MM_SEED_TICK_SPACING: u64 = 5;
pub const MM_UNSTICK_VOL_MIN: u64 = 5_000;
pub const MM_UNSTICK_VOL_MAX: u64 = 25_000;
pub const MM_QUOTE_VOL_MIN: u64 = 1_000;
pub const MM_QUOTE_VOL_MAX: u64 = 10_000;
/// Inventory per cent of skew.
pub const MM_SKEW_DIVISOR: i64 = 100_000;
pub const MM_TICKS_UNTIL_ACTIVE: u32 = 2;
pub const MM_INITIAL_CASH: i64 = 10_000_000_000_000;
pub const MM_MARGIN: i64 = 40_000_000_000_000;

pub open spec fn clamp_price(p: int) -> u64 {
    if p < MIN_PRICE {
        MIN_PRICE
    } else if p > MAX_PRICE {
        MAX_PRICE
    } else {
        p as u64
    }
}

/// Clamps a price to `[MIN_PRICE, MAX_PRICE]`.
pub fn clamp(p: i128) -> (r: u64)
    ensures
        r == clamp_price(p as int),
{
    if p < MIN_PRICE as i128 {
        MIN_PRICE
    } else if p > MAX_PRICE as i128 {
        MAX_PRICE
    } else {
        p as u64
    }
}

/// How far inventory moves the quoting center: one cent per
/// `MM_SKEW_DIVISOR` shares, rounded toward zero.
pub open spec fn skew(inventory: i64) -> int {
    if inventory >= 0 {
        inventory as int / MM_SKEW_DIVISOR as int
    } else {
        -((-inventory) / MM_SKEW_DIVISOR as int)
    }
}

pub open spec fn limit(agent_id: usize, stock_id: u64, side: Side, price: u64, volume: u64) -> OrderRequest {
    OrderRequest::LimitOrder { agent_id, stock_id, side, price, volume }
}

/// A bid and an ask `MM_HALF_SPREAD` either side of `center` moved against
/// inventory, unless they would touch each other or cross the book.
pub open spec fn two_sided(
    agent_id: usize,
    stock_id: u64,
    center: u64,
    inventory: i64,
    bid: Option<u64>,
    ask: Option<u64>,
    vol: u64,
) -> Seq<OrderRequest> {
    let c = clamp_price(center - skew(inventory));
    let bp = clamp_price(c - MM_HALF_SPREAD);
    let ap = clamp_price(c + MM_HALF_SPREAD);
    if ap <= bp || (ask is Some && bp >= ask->0) || (bid is Some && ap <= bid->0) {
        Seq::empty()
    } else {
        seq![limit(agent_id, stock_id, Side::Buy, bp, vol), limit(agent_id, stock_id, Side::Sell, ap, vol)]
    }
}

/// The quotes for a book with best bid `bid` and best ask `ask`: with one
/// side only, a quote one cent inside it on the other side; with both
/// uncrossed, or none, a two-sided quote around their mid (or the initial
/// center); with a locked or crossed book, nothing.
pub open spec fn mm_quote(
    agent_id: usize,
    stock_id: u64,
    bid: Option<u64>,
    ask: Option<u64>,
    inventory: i64,
    unstick_vol: u64,
    quote_vol: u64,
) -> Seq<OrderRequest> {
    match (bid, ask) {
        (Some(b), None) => seq![limit(agent_id, stock_id, Side::Sell, clamp_price(b + 1), unstick_vol)],
        (None, Some(a)) => seq![limit(agent_id, stock_id, Side::Buy, clamp_price(a - 1), unstick_vol)],
        (None, None) => two_sided(agent_id, stock_id, MM_INITIAL_CENTER_PRICE, inventory, bid, ask, quote_vol),
        (Some(b), Some(a)) => if a > b {
            two_sided(agent_id, stock_id, ((b + a) / 2) as u64, inventory, bid, ask, quote_vol)
        } else {
            Seq::empty()
        },
    }
}

fn two_sided_quote(
    agent_id: usize,
    stock_id: u64,
    center: u64,
    inventory: i64,
    bid: Option<u64>,
    ask: Option<u64>,
    vol: u64,
) -> (r: Vec<OrderRequest>)
    ensures
        r@ == two_sided(agent_id, stock_id, center, inventory, bid, ask, vol),
{
    let sk: i128 = if inventory >= 0 {
        (inventory / MM_SKEW_DIVISOR) as i128
    } else {
        -((-(inventory as i128)) / MM_SKEW_DIVISOR as i128)
    };
    let c = clamp(center as i128 - sk);
    let bp = clamp(c as i128 - MM_HALF_SPREAD as i128);
    let ap = clamp(c as i128 + MM_HALF_SPREAD as i128);
    let mut r: Vec<OrderRequest> = Vec::new();
    let crossing = match (bid, ask) {
        (_, Some(a)) if bp >= a => true,
        (Some(b), _) if ap <= b => true,
        _ => false,
    };
    if ap <= bp || crossing {
        return r;
    }
    r.push(OrderRequest::LimitOrder { agent_id, stock_id, side: Side::Buy, price: bp, volume: vol });
    r.push(OrderRequest::LimitOrder { agent_id, stock_id, side: Side::Sell, price: ap, volume: vol });
    assert(r@ =~= two_sided(agent_id, stock_id, center, inventory, bid, ask, vol));
    r
}

/// The quotes the market maker posts on a book; see `mm_quote`.
pub fn quote(
    agent_id: usize,
    stock_id: u64,
    bid: Option<u64>,
    ask: Option<u64>,
    inventory: i64,
    unstick_vol: u64,
    quote_vol: u64,
) -> (r: Vec<OrderRequest>)
    ensures
        r@ == mm_quote(agent_id, stock_id, bid, ask, inventory, unstick_vol, quote_vol),
{
    match (bid, ask) {
        (Some(b), None) => {
            let r = vec![OrderRequest::LimitOrder { agent_id, stock_id, side: Side::Sell, price: clamp(b as i128 + 1), volume: unstick_vol }];
            assert(r@ =~= mm_quote(agent_id, stock_id, bid, ask, inventory, unstick_vol, quote_vol));
            r
        },
        (None, Some(a)) => {
            let r = vec![OrderRequest::LimitOrder { agent_id, stock_id, side: Side::Buy, price: clamp(a as i128 - 1), volume: unstick_vol }];
            assert(r@ =~= mm_quote(agent_id, stock_id, bid, ask, inventory, unstick_vol, quote_vol));
            r
        },
        (None, None) => two_sided_quote(agent_id, stock_id, MM_INITIAL_CENTER_PRICE, inventory, bid, ask, quote_vol),
        (Some(b), Some(a)) => {
            if a > b {
                two_sided_quote(agent_id, stock_id, ((b as u128 + a as u128) / 2) as u64, inventory, bid, ask, quote_vol)
            } else {
                Vec::new()
            }
        },
    }
}

/// Volume of seeding level `level`: the first level's, shrunk by a tenth
/// (rounded down) at each level further out.
pub open spec fn seed_volume(first: nat, level: nat) -> nat
    decreases level,
{
    if level == 0 {
        first
    } else {
        seed_volume(first, (level - 1) as nat) * 9 / 10
    }
}

/// First seeding level's volume: a fifth of a percent of the inventory,
/// spread over `MM_SEED_LEVELS` levels each nine tenths of the one before,
/// so that the first takes `0.1 / (1 - 0.9^10)` of it.
pub open spec fn seed_first(inventory: i64) -> nat {
    let held: nat = if inventory >= 0 { inventory as nat } else { (-inventory) as nat };
    let budget = held * 2 / 1000;
    budget * 1_000_000_000 / 6_513_215_599
}

/// The seeding ladder: for each level a bid and then an ask, the level's
/// distance from `start` growing by `MM_SEED_TICK_SPACING`.
pub open spec fn seed_ladder(agent_id: usize, stock_id: u64, start: u64, first: nat) -> Seq<OrderRequest> {
    Seq::new(
        (2 * MM_SEED_LEVELS) as nat,
        |i: int|
            {
                let lvl = i / 2;
                let off = MM_HALF_SPREAD + lvl * MM_SEED_TICK_SPACING;
                let vol = seed_volume(first, lvl as nat) as u64;
                if i % 2 == 0 {
                    limit(agent_id, stock_id, Side::Buy, clamp_price(start - off), vol)
                } else {
                    limit(agent_id, stock_id, Side::Sell, clamp_price(start + off), vol)
                }
            },
    )
}

proof fn lemma_seed_volume_bound(first: nat, level: nat)
    ensures
        seed_volume(first, level) <= first,
    decreases level,
{
    if level > 0 {
        lemma_seed_volume_bound(first, (level - 1) as nat);
    }
}

/// The seeding ladder for an instrument opening at `start` cents.
pub fn seed_liquidity(agent_id: usize, stock_id: u64, start: u64, inventory: i64) -> (r: Vec<OrderRequest>)
    ensures
        r@ == seed_ladder(agent_id, stock_id, start, seed_first(inventory)),
{
    let held: u128 = if inventory >= 0 {
        inventory as u128
    } else {
        (-(inventory as i128)) as u128
    };
    let budget: u128 = held * 2 / 1000;
    let first: u128 = budget * 1_000_000_000 / 6_513_215_599;
    assert(first <= held) by (nonlinear_arith)
        requires
            budget == held * 2 / 1000,
            first == budget * 1_000_000_000 / 6_513_215_599,
    ;
    let ghost ladder = seed_ladder(agent_id, stock_id, start, seed_first(inventory));
    let mut vol: u128 = first;
    let mut out: Vec<OrderRequest> = Vec::new();
    let mut lvl: u64 = 0;
    while lvl < MM_SEED_LEVELS
        invariant
            lvl <= MM_SEED_LEVELS,
            first == seed_first(inventory),
            ladder == seed_ladder(agent_id, stock_id, start, seed_first(inventory)),
            first <= u64::MAX,
            vol == seed_volume(first as nat, lvl as nat),
            out@ == ladder.take(2 * lvl as int),
        decreases MM_SEED_LEVELS - lvl,
    {
        proof {
            lemma_seed_volume_bound(first as nat, lvl as nat);
        }
        let ghost l0 = lvl as int;
        assert((2 * l0) / 2 == l0 && (2 * l0) % 2 == 0 && (2 * l0 + 1) / 2 == l0 && (2 * l0 + 1) % 2 == 1)
            by (nonlinear_arith);
        let off: u64 = MM_HALF_SPREAD + lvl * MM_SEED_TICK_SPACING;
        let v = vol as u64;
        out.push(OrderRequest::LimitOrder { agent_id, stock_id, side: Side::Buy, price: clamp(start as i128 - off as i128), volume: v });
        out.push(OrderRequest::LimitOrder { agent_id, stock_id, side: Side::Sell, price: clamp(start as i128 + off as i128), volume: v });
        vol = vol * 9 / 10;
        lvl = lvl + 1;
        assert(out@ =~= ladder.take(2 * lvl as int)) by {
            assert(ladder[2 * l0] == limit(agent_id, stock_id, Side::Buy, clamp_price(start - off), v));
            assert(ladder[2 * l0 + 1] == limit(agent_id, stock_id, Side::Sell, clamp_price(start + off), v));
        }
    }
    assert(out@ =~= ladder);
    out
}


pub struct MarketMakerAgent {
    id: usize,
    inventory: i64,
    ticks_until_active: u32,
    bootstrapped: BTreeSet<u64>,
    open_orders: BTreeMap<u64, Order>,
    cash: i64,
    margin: i64,
}

/// What one turn of the market maker may post on `market`, once active:
/// for a listed instrument `s` it has not seeded yet, the seeding ladder
/// from `s`'s opening price; for one it has, its quotes on `s`'s book, with
/// volumes drawn from their ranges.
pub open spec fn mm_turn(
    agent_id: usize,
    inventory: i64,
    seeded: Set<u64>,
    market: crate::market::MarketState,
    s: u64,
    r: Seq<OrderRequest>,
    seeded_after: Set<u64>,
) -> bool {
    &&& listed(market.listings).contains(s)
    &&& market.books.contains_key(s)
    &&& if !seeded.contains(s) {
        &&& seeded_after == seeded.insert(s)
        &&& r == seed_ladder(agent_id, s, opening_price(market.listings, s), seed_first(inventory))
    } else {
        &&& seeded_after == seeded
        &&& exists|uv: u64, qv: u64|
            MM_UNSTICK_VOL_MIN <= uv <= MM_UNSTICK_VOL_MAX && MM_QUOTE_VOL_MIN <= qv <= MM_QUOTE_VOL_MAX
                && r == mm_quote(
                agent_id,
                s,
                top(market.books[s].bids.dom(), Side::Sell),
                top(market.books[s].asks.dom(), Side::Buy),
                inventory,
                uv,
                qv,
            )
    }
}

impl MarketMakerAgent {
    /// One call of `decide_actions` on `market` took `a0` to `a1`, returning
    /// `r`: a countdown while warming up, then `mm_turn` on some listed
    /// instrument.
    pub open spec fn decides(a0: MarketMakerAgent, a1: MarketMakerAgent, market: MarketState, r: Seq<OrderRequest>) -> bool {
        &&& a1.spec_id() == a0.spec_id()
        &&& a1.spec_inventory() == a0.spec_inventory()
        &&& a1.spec_open_orders() == a0.spec_open_orders()
        &&& a1.spec_cash() == a0.spec_cash()
        &&& a1.spec_margin() == a0.spec_margin()
        &&& if a0.spec_ticks() > 0 {
            &&& r == Seq::<OrderRequest>::empty()
            &&& a1.spec_ticks() == a0.spec_ticks() - 1
            &&& a1.spec_seeded() == a0.spec_seeded()
        } else {
            &&& a1.spec_ticks() == 0
            &&& market.listings.len() == 0 ==> r == Seq::<OrderRequest>::empty() && a1.spec_seeded()
                == a0.spec_seeded()
            &&& market.listings.len() > 0 ==> exists|s: u64|
                #[trigger] mm_turn(a0.spec_id(), a0.spec_inventory(), a0.spec_seeded(), market, s, r, a1.spec_seeded())
        }
    }

    /// `acknowledge_order(o)` took `a0` to `a1`: `o` joins the open orders.
    pub open spec fn acks(a0: MarketMakerAgent, a1: MarketMakerAgent, o: Order) -> bool {
        &&& a1.spec_open_orders() == a0.spec_open_orders().insert(o.id, o)
        &&& a1.spec_id() == a0.spec_id()
        &&& a1.spec_inventory() == a0.spec_inventory()
        &&& a1.spec_cash() == a0.spec_cash()
        &&& a1.spec_margin() == a0.spec_margin()
        &&& a1.spec_ticks() == a0.spec_ticks()
        &&& a1.spec_seeded() == a0.spec_seeded()
    }

    /// `margin_call()` changed nothing and returned the `liquidation` of the
    /// whole position in some instrument.
    pub open spec fn calls(a0: MarketMakerAgent, a1: MarketMakerAgent, r: Seq<OrderRequest>) -> bool {
        &&& a1 == a0
        &&& exists|s: u64|
            r == #[trigger] liquidation(a0.spec_id(), s, a0.spec_inventory(), a0.spec_cash(), a0.spec_margin())
    }

    /// `update_portfolio(vol, tr)` took `a0` to `a1`.
    pub open spec fn fills(a0: MarketMakerAgent, a1: MarketMakerAgent, vol: i64, tr: Trade) -> bool {
        &&& a1.spec_inventory() == clamp_i64(a0.spec_inventory() + vol)
        &&& a1.spec_cash() == cash_after(a0.spec_cash(), vol, tr.price)
        &&& a1.spec_open_orders() == reconcile(a0.spec_open_orders(), a0.spec_id(), tr)
        &&& a1.spec_id() == a0.spec_id()
        &&& a1.spec_margin() == a0.spec_margin()
        &&& a1.spec_ticks() == a0.spec_ticks()
        &&& a1.spec_seeded() == a0.spec_seeded()
    }

    /// A fresh agent with id `id`.
    pub open spec fn fresh(a: MarketMakerAgent, id: usize) -> bool {
        &&& a.spec_id() == id
        &&& a.spec_inventory() == MM_INITIAL_INVENTORY
        &&& a.spec_ticks() == MM_TICKS_UNTIL_ACTIVE
        &&& a.spec_seeded() == Set::<u64>::empty()
        &&& a.spec_open_orders() == Map::<u64, Order>::empty()
        &&& a.spec_cash() == MM_INITIAL_CASH
        &&& a.spec_margin() == MM_MARGIN
    }

    pub closed spec fn spec_id(&self) -> usize {
        self.id
    }

    pub closed spec fn spec_inventory(&self) -> i64 {
        self.inventory
    }

    pub closed spec fn spec_ticks(&self) -> u32 {
        self.ticks_until_active
    }

    pub closed spec fn spec_seeded(&self) -> Set<u64> {
        self.bootstrapped@
    }

    pub closed spec fn spec_open_orders(&self) -> Map<u64, Order> {
        self.open_orders@
    }

    pub closed spec fn spec_cash(&self) -> i64 {
        self.cash
    }

    pub closed spec fn spec_margin(&self) -> i64 {
        self.margin
    }

    pub fn new(id: usize) -> (a: MarketMakerAgent)
        ensures
            Self::fresh(a, id),
    {
        MarketMakerAgent {
            id,
            inventory: MM_INITIAL_INVENTORY,
            ticks_until_active: MM_TICKS_UNTIL_ACTIVE,
            bootstrapped: BTreeSet::new(),
            open_orders: BTreeMap::new(),
            cash: MM_INITIAL_CASH,
            margin: MM_MARGIN,
        }
    }

    /// One turn. While warming up it only counts down. Then it picks a
    /// listed instrument at random and posts what `mm_turn` allows.
    pub fn decide_actions(&mut self, market: &Market) -> (r: Vec<OrderRequest>)
        requires
            market.wf(),
        ensures
            Self::decides(*old(self), *final(self), market@, r@),
    {
        if self.ticks_until_active > 0 {
            self.ticks_until_active = self.ticks_until_active - 1;
            return Vec::new();
        }
        let ids = market.stock_ids();
        let stock_id = match random_pick(&ids) {
            None => {
                assert(market@.listings.len() == ids@.len());
                return Vec::new();
            },
            Some(s) => s,
        };
        let ghost m = market@;
        proof {
            let j = choose|j: int| 0 <= j < ids@.len() && ids@[j] == stock_id;
            assert(m.listings[j].stock_id == stock_id);
            assert(listed(m.listings).contains(stock_id));
            assert(m.listings.len() > 0);
        }
        let start = match market.opening_price_of(stock_id) {
            Some(p) => p,
            None => MM_INITIAL_CENTER_PRICE,
        };
        let book = match market.order_book(stock_id) {
            Some(b) => b,
            None => {
                return Vec::new();
            },
        };
        if !self.bootstrapped.contains(&stock_id) {
            self.bootstrapped.insert(stock_id);
            let r = seed_liquidity(self.id, stock_id, start, self.inventory);
            assert(mm_turn(
                old(self).spec_id(),
                old(self).spec_inventory(),
                old(self).spec_seeded(),
                market@,
                stock_id,
                r@,
                self.spec_seeded(),
            ));
            return r;
        }
        let bid = book.best_bid();
        let ask = book.best_ask();
        let uv = random_in(MM_UNSTICK_VOL_MIN, MM_UNSTICK_VOL_MAX);
        let qv = random_in(MM_QUOTE_VOL_MIN, MM_QUOTE_VOL_MAX);
        let r = quote(self.id, stock_id, bid, ask, self.inventory, uv, qv);
        assert(mm_turn(
            old(self).spec_id(),
            old(self).spec_inventory(),
            old(self).spec_seeded(),
            market@,
            stock_id,
            r@,
            self.spec_seeded(),
        ));
        r
    }

    /// A market buy of `vol` shares.
    pub fn buy_stock(&mut self, stock_id: u64, vol: u64) -> (r: Vec<OrderRequest>)
        ensures
            r@ == seq![OrderRequest::MarketOrder { agent_id: old(self).spec_id(), stock_id, side: Side::Buy, volume: vol }],
            *final(self) == *old(self),
    {
        let r = vec![OrderRequest::MarketOrder { agent_id: self.id, stock_id, side: Side::Buy, volume: vol }];
        assert(r@ =~= seq![OrderRequest::MarketOrder { agent_id: self.id, stock_id, side: Side::Buy, volume: vol }]);
        r
    }

    /// A market sell of `vol` shares.
    pub fn sell_stock(&mut self, stock_id: u64, vol: u64) -> (r: Vec<OrderRequest>)
        ensures
            r@ == seq![OrderRequest::MarketOrder { agent_id: old(self).spec_id(), stock_id, side: Side::Sell, volume: vol }],
            *final(self) == *old(self),
    {
        let r = vec![OrderRequest::MarketOrder { agent_id: self.id, stock_id, side: Side::Sell, volume: vol }];
        assert(r@ =~= seq![OrderRequest::MarketOrder { agent_id: self.id, stock_id, side: Side::Sell, volume: vol }]);
        r
    }

    /// When cash has fallen below minus the margin, closes the whole
    /// position in the instrument of its lowest-numbered open order (id 0
    /// when it has none); see `liquidation`.
    pub fn margin_call(&mut self) -> (r: Vec<OrderRequest>)
        ensures
            Self::calls(*old(self), *final(self), r@),
    {
        let sid = match least_key(&self.open_orders) {
            Some(k) => match self.open_orders.get(&k) {
                Some(o) => o.stock_id,
                None => 0,
            },
            None => 0,
        };
        let r = margin_call_orders(self.id, sid, self.inventory, self.cash, self.margin);
        assert(r@ == liquidation(
            old(self).spec_id(),
            sid,
            old(self).spec_inventory(),
            old(self).spec_cash(),
            old(self).spec_margin(),
        ));
        r
    }

    /// Records an order the market stamped for this agent.
    pub fn acknowledge_order(&mut self, o: Order)
        ensures
            Self::acks(*old(self), *final(self), o),
    {
        self.open_orders.insert(o.id, o);
    }

    /// Books a fill of `vol` shares (negative for a sale) at the trade's
    /// price: inventory and cash move, saturating, and an own open order
    /// that the trade filled as maker is brought up to date.
    pub fn update_portfolio(&mut self, vol: i64, tr: &Trade)
        ensures
            Self::fills(*old(self), *final(self), vol, *tr),
    {
        self.inventory = saturate(self.inventory as i128 + vol as i128);
        self.cash = pay_for_fill(self.cash, vol, tr.price);
        reconcile_fill(&mut self.open_orders, self.id, tr);
    }

    /// The open orders, by increasing id.
    pub fn get_pending_orders(&self) -> (r: Vec<Order>)
        ensures
            listed_in_order(self.spec_open_orders(), r@),
    {
        orders_of(&self.open_orders)
    }

    /// Forgets an open order; no cancel goes to the market.
    pub fn cancel_open_order(&mut self, id: u64) -> (r: Vec<OrderRequest>)
        ensures
            r@ == Seq::<OrderRequest>::empty(),
            final(self).spec_open_orders() == old(self).spec_open_orders().remove(id),
            final(self).spec_inventory() == old(self).spec_inventory(),
    {
        self.open_orders.remove(&id);
        Vec::new()
    }

    pub fn get_id(&self) -> (r: usize)
        ensures
            r == self.spec_id(),
    {
        self.id
    }

    pub fn get_inventory(&self) -> (r: i64)
        ensures
            r == self.spec_inventory(),
    {
        self.inventory
    }

    /// Cash in cents.
    pub fn get_cash(&self) -> (r: i64)
        ensures
            r == self.spec_cash(),
    {
        self.cash
    }
}

} // verus!
