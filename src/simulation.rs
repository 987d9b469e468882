//! One simulation: a market and its participants, advanced a tick at a
//! time through five phases. Agents decide in id order; their requests are
//! stamped and matched in that order; then every agent may answer a margin
//! call, routed the same way; then each trade of the tick is settled with
//! its taker and its maker, in the order it was made.

use vstd::prelude::*;
use crate::agent_support::{clamp_i64, listed_in_order};
use crate::dumb_agent::{total_position, DumbAgent};
use crate::dumb_limit_agent::DumbLimitAgent;
use crate::ipo_agent::IpoAgent;
use crate::market::{
    distinct_ids, fills_of, lemma_submitted_keeps_listings, lemma_submitted_stamps, listed, opening, prices_after, submitted, volumes_after, Fill,
    Listing, Market, MarketState,
};
use crate::market_maker::MarketMakerAgent;
use crate::order::{Order, OrderRequest, Trade};
use crate::whale_agent::WhaleAgent;

verus! {

/// The archetypes a simulation can be populated with.
#[derive(Debug, Clone, Copy, PartialEq, Eq, Structural)]
pub enum AgentType {
    DumbMarket,
    DumbLimit,
    MarketMaker,
    IPO,
    WhaleAgent,
}

/// A participant of one of the archetypes.
pub enum Participant {
    Dumb(DumbAgent),
    DumbLimit(DumbLimitAgent),
    MarketMaker(MarketMakerAgent),
    Ipo(IpoAgent),
    Whale(WhaleAgent),
}

impl Participant {
    /// A fresh agent of the given archetype.
    pub fn spawn(t: AgentType, id: usize) -> (p: Participant)
        ensures
            Self::fresh(p, t, id),
            p.kind() == t,
            p.id_of() == id,
    {
        match t {
            AgentType::DumbMarket => Participant::Dumb(DumbAgent::new(id)),
            AgentType::DumbLimit => Participant::DumbLimit(DumbLimitAgent::new(id)),
            AgentType::MarketMaker => Participant::MarketMaker(MarketMakerAgent::new(id)),
            AgentType::IPO => Participant::Ipo(IpoAgent::new(id)),
            AgentType::WhaleAgent => Participant::Whale(WhaleAgent::new(id)),
        }
    }

    /// `decide_actions` on `market` took `p0` to `p1`, returning `r`, as the
    /// agent of that kind states.
    pub open spec fn decides(p0: Participant, p1: Participant, market: MarketState, r: Seq<OrderRequest>) -> bool {
        match (p0, p1) {
            (Participant::Dumb(a0), Participant::Dumb(a1)) => DumbAgent::decides(a0, a1, market, r),
            (Participant::DumbLimit(a0), Participant::DumbLimit(a1)) => DumbLimitAgent::decides(a0, a1, market, r),
            (Participant::MarketMaker(a0), Participant::MarketMaker(a1)) => MarketMakerAgent::decides(a0, a1, market, r),
            (Participant::Ipo(a0), Participant::Ipo(a1)) => IpoAgent::decides(
                a0,
                a1,
                market.listings.map_values(|l: Listing| l.stock_id),
                r,
            ),
            (Participant::Whale(a0), Participant::Whale(a1)) => WhaleAgent::decides(a0, a1, market, r),
            _ => false,
        }
    }

    /// `acknowledge_order(o)` took `p0` to `p1`.
    pub open spec fn acks(p0: Participant, p1: Participant, o: Order) -> bool {
        match (p0, p1) {
            (Participant::Dumb(a0), Participant::Dumb(a1)) => DumbAgent::acks(a0, a1, o),
            (Participant::DumbLimit(a0), Participant::DumbLimit(a1)) => DumbLimitAgent::acks(a0, a1, o),
            (Participant::MarketMaker(a0), Participant::MarketMaker(a1)) => MarketMakerAgent::acks(a0, a1, o),
            (Participant::Ipo(a0), Participant::Ipo(a1)) => IpoAgent::acks(a0, a1, o),
            (Participant::Whale(a0), Participant::Whale(a1)) => WhaleAgent::acks(a0, a1, o),
            _ => false,
        }
    }

    /// `margin_call()` took `p0` to `p1`, returning `r`.
    pub open spec fn calls(p0: Participant, p1: Participant, r: Seq<OrderRequest>) -> bool {
        match (p0, p1) {
            (Participant::Dumb(a0), Participant::Dumb(a1)) => DumbAgent::calls(a0, a1, r),
            (Participant::DumbLimit(a0), Participant::DumbLimit(a1)) => DumbLimitAgent::calls(a0, a1, r),
            (Participant::MarketMaker(a0), Participant::MarketMaker(a1)) => MarketMakerAgent::calls(a0, a1, r),
            (Participant::Ipo(a0), Participant::Ipo(a1)) => IpoAgent::calls(a0, a1, r),
            (Participant::Whale(a0), Participant::Whale(a1)) => WhaleAgent::calls(a0, a1, r),
            _ => false,
        }
    }

    /// `update_portfolio(vol, tr)` took `p0` to `p1`.
    pub open spec fn fills(p0: Participant, p1: Participant, vol: i64, tr: Trade) -> bool {
        match (p0, p1) {
            (Participant::Dumb(a0), Participant::Dumb(a1)) => DumbAgent::fills(a0, a1, vol, tr),
            (Participant::DumbLimit(a0), Participant::DumbLimit(a1)) => DumbLimitAgent::fills(a0, a1, vol, tr),
            (Participant::MarketMaker(a0), Participant::MarketMaker(a1)) => MarketMakerAgent::fills(a0, a1, vol, tr),
            (Participant::Ipo(a0), Participant::Ipo(a1)) => IpoAgent::fills(a0, a1, vol, tr),
            (Participant::Whale(a0), Participant::Whale(a1)) => WhaleAgent::fills(a0, a1, vol, tr),
            _ => false,
        }
    }

    /// `p` is a fresh agent of kind `t` with id `id`.
    pub open spec fn fresh(p: Participant, t: AgentType, id: usize) -> bool {
        &&& p.kind() == t
        &&& match p {
            Participant::Dumb(a) => DumbAgent::fresh(a, id),
            Participant::DumbLimit(a) => DumbLimitAgent::fresh(a, id),
            Participant::MarketMaker(a) => MarketMakerAgent::fresh(a, id),
            Participant::Ipo(a) => IpoAgent::fresh(a, id),
            Participant::Whale(a) => WhaleAgent::fresh(a, id),
        }
    }

    /// The id the participant answers to.
    pub open spec fn id_of(&self) -> usize {
        match self {
            Participant::Dumb(a) => a.spec_id(),
            Participant::DumbLimit(a) => a.spec_id(),
            Participant::MarketMaker(a) => a.spec_id(),
            Participant::Ipo(a) => a.spec_id(),
            Participant::Whale(a) => a.spec_id(),
        }
    }

    /// The open orders the participant keeps.
    pub open spec fn open_of(&self) -> Map<u64, Order> {
        match self {
            Participant::Dumb(a) => a.spec_open_orders(),
            Participant::DumbLimit(a) => a.spec_open_orders(),
            Participant::MarketMaker(a) => a.spec_open_orders(),
            Participant::Ipo(a) => a.spec_open_orders(),
            Participant::Whale(a) => a.spec_open_orders(),
        }
    }

    /// `r` is the participant's inventory: its position, or for the retail
    /// ensemble the saturating sum of its positions.
    pub open spec fn inventory_is(&self, r: i64) -> bool {
        match self {
            Participant::Dumb(a) => exists|ks: Seq<u64>|
                {
                    &&& ks.no_duplicates()
                    &&& ks.to_set() == a.spec_positions().dom()
                    &&& r == #[trigger] total_position(ks, a.spec_positions())
                },
            Participant::DumbLimit(a) => r == a.spec_inventory(),
            Participant::MarketMaker(a) => r == a.spec_inventory(),
            Participant::Ipo(a) => r == a.spec_inventory(),
            Participant::Whale(a) => r == a.spec_inventory(),
        }
    }

    pub open spec fn kind(&self) -> AgentType {
        match self {
            Participant::Dumb(_) => AgentType::DumbMarket,
            Participant::DumbLimit(_) => AgentType::DumbLimit,
            Participant::MarketMaker(_) => AgentType::MarketMaker,
            Participant::Ipo(_) => AgentType::IPO,
            Participant::Whale(_) => AgentType::WhaleAgent,
        }
    }

    pub fn decide_actions(&mut self, market: &Market) -> (r: Vec<OrderRequest>)
        requires
            market.wf(),
        ensures
            Self::decides(*old(self), *final(self), market@, r@),
            final(self).kind() == old(self).kind(),
            final(self).id_of() == old(self).id_of(),
    {
        match self {
            Participant::Dumb(a) => a.decide_actions(market),
            Participant::DumbLimit(a) => a.decide_actions(market),
            Participant::MarketMaker(a) => a.decide_actions(market),
            Participant::Ipo(a) => {
                let ids = market.stock_ids();
                a.decide_actions(&ids)
            },
            Participant::Whale(a) => a.decide_actions(market),
        }
    }

    pub fn acknowledge_order(&mut self, o: Order)
        ensures
            Self::acks(*old(self), *final(self), o),
            final(self).kind() == old(self).kind(),
            final(self).id_of() == old(self).id_of(),
    {
        match self {
            Participant::Dumb(a) => a.acknowledge_order(o),
            Participant::DumbLimit(a) => a.acknowledge_order(o),
            Participant::MarketMaker(a) => a.acknowledge_order(o),
            Participant::Ipo(a) => a.acknowledge_order(o),
            Participant::Whale(a) => a.acknowledge_order(o),
        }
    }

    pub fn margin_call(&mut self) -> (r: Vec<OrderRequest>)
        ensures
            Self::calls(*old(self), *final(self), r@),
            final(self).kind() == old(self).kind(),
            final(self).id_of() == old(self).id_of(),
    {
        match self {
            Participant::Dumb(a) => a.margin_call(),
            Participant::DumbLimit(a) => a.margin_call(),
            Participant::MarketMaker(a) => a.margin_call(),
            Participant::Ipo(a) => a.margin_call(),
            Participant::Whale(a) => a.margin_call(),
        }
    }

    pub fn update_portfolio(&mut self, vol: i64, tr: &Trade)
        ensures
            Self::fills(*old(self), *final(self), vol, *tr),
            final(self).kind() == old(self).kind(),
            final(self).id_of() == old(self).id_of(),
    {
        match self {
            Participant::Dumb(a) => a.update_portfolio(vol, tr),
            Participant::DumbLimit(a) => a.update_portfolio(vol, tr),
            Participant::MarketMaker(a) => a.update_portfolio(vol, tr),
            Participant::Ipo(a) => a.update_portfolio(vol, tr),
            Participant::Whale(a) => a.update_portfolio(vol, tr),
        }
    }

    pub fn get_inventory(&self) -> (r: i64)
        ensures
            self.inventory_is(r),
    {
        match self {
            Participant::Dumb(a) => a.get_inventory(),
            Participant::DumbLimit(a) => a.get_inventory(),
            Participant::MarketMaker(a) => a.get_inventory(),
            Participant::Ipo(a) => a.get_inventory(),
            Participant::Whale(a) => a.get_inventory(),
        }
    }

    pub fn get_id(&self) -> (r: usize)
        ensures
            r == self.id_of(),
    {
        match self {
            Participant::Dumb(a) => a.get_id(),
            Participant::DumbLimit(a) => a.get_id(),
            Participant::MarketMaker(a) => a.get_id(),
            Participant::Ipo(a) => a.get_id(),
            Participant::Whale(a) => a.get_id(),
        }
    }

    pub fn get_pending_orders(&self) -> (r: Vec<Order>)
        ensures
            listed_in_order(self.open_of(), r@),
    {
        match self {
            Participant::Dumb(a) => a.get_pending_orders(),
            Participant::DumbLimit(a) => a.get_pending_orders(),
            Participant::MarketMaker(a) => a.get_pending_orders(),
            Participant::Ipo(a) => a.get_pending_orders(),
            Participant::Whale(a) => a.get_pending_orders(),
        }
    }
}

/// The trades of each request, one after the other.
pub open spec fn joined(parts: Seq<Seq<Trade>>) -> Seq<Trade>
    decreases parts.len(),
{
    if parts.len() == 0 {
        Seq::empty()
    } else {
        joined(parts.drop_last()) + parts.last()
    }
}

/// The requests of each agent, one agent after the other.
pub open spec fn joined_reqs(parts: Seq<Seq<OrderRequest>>) -> Seq<OrderRequest>
    decreases parts.len(),
{
    if parts.len() == 0 {
        Seq::empty()
    } else {
        joined_reqs(parts.drop_last()) + parts.last()
    }
}

/// The orders stamped, in order, of a run of submissions.
pub open spec fn stamped(outs: Seq<(Option<Order>, bool)>) -> Seq<Order>
    decreases outs.len(),
{
    if outs.len() == 0 {
        Seq::empty()
    } else {
        let prev = stamped(outs.drop_last());
        match outs.last().0 {
            Some(o) => prev.push(o),
            None => prev,
        }
    }
}

/// `states` are the markets before and after each request of `reqs`, from
/// `b` to `a`; `parts` the trades of each and `outs` what else each
/// submission returned.
pub open spec fn route_witness(
    b: MarketState,
    reqs: Seq<OrderRequest>,
    trades: Seq<Trade>,
    a: MarketState,
    states: Seq<MarketState>,
    parts: Seq<Seq<Trade>>,
    outs: Seq<(Option<Order>, bool)>,
) -> bool {
    &&& states.len() == reqs.len() + 1
    &&& parts.len() == reqs.len()
    &&& outs.len() == reqs.len()
    &&& states[0] == b
    &&& states[reqs.len() as int] == a
    &&& trades == joined(parts)
    &&& forall|i: int|
        0 <= i < reqs.len() ==> submitted(
            states[i],
            reqs[i],
            outs[i].0,
            #[trigger] parts[i],
            outs[i].1,
            states[i + 1],
        )
}

/// `reqs` submitted one after the other take the market from `b` to `a`,
/// making `trades` (each request's after those of the ones before) and
/// stamping `orders`, in that order.
pub open spec fn routed(
    b: MarketState,
    reqs: Seq<OrderRequest>,
    trades: Seq<Trade>,
    orders: Seq<Order>,
    a: MarketState,
) -> bool {
    exists|states: Seq<MarketState>, parts: Seq<Seq<Trade>>, outs: Seq<(Option<Order>, bool)>|
        #[trigger] route_witness(b, reqs, trades, a, states, parts, outs) && orders == stamped(outs)
}

/// What happens to one agent during a tick.
pub enum AgentEvent {
    /// Its `decide_actions` returned these requests.
    Decided(Seq<OrderRequest>),
    /// An order stamped for it was acknowledged to it.
    Acked(Order),
    /// Its `margin_call` returned these requests.
    Called(Seq<OrderRequest>),
    /// A fill was settled with it: this inventory change for this trade.
    Filled(i64, Trade),
}

/// `ev` took participant `p0` to `p1`; decisions see `market`.
pub open spec fn applies(p0: Participant, p1: Participant, ev: AgentEvent, market: MarketState) -> bool {
    match ev {
        AgentEvent::Decided(r) => Participant::decides(p0, p1, market, r),
        AgentEvent::Acked(o) => Participant::acks(p0, p1, o),
        AgentEvent::Called(r) => Participant::calls(p0, p1, r),
        AgentEvent::Filled(d, t) => Participant::fills(p0, p1, d, t),
    }
}

/// `states` are the participant before and after each of `evs`.
pub open spec fn chain(p0: Participant, evs: Seq<AgentEvent>, p1: Participant, market: MarketState, states: Seq<Participant>) -> bool {
    &&& states.len() == evs.len() + 1
    &&& states[0] == p0
    &&& states[evs.len() as int] == p1
    &&& forall|i: int| 0 <= i < evs.len() ==> applies(states[i], states[i + 1], #[trigger] evs[i], market)
}

/// The events `evs`, in order, take participant `p0` to `p1`.
pub open spec fn runs(p0: Participant, evs: Seq<AgentEvent>, p1: Participant, market: MarketState) -> bool {
    exists|states: Seq<Participant>| #[trigger] chain(p0, evs, p1, market, states)
}

/// The acknowledgements agent `id` receives for `orders`, in order.
pub open spec fn acks_for(id: usize, orders: Seq<Order>) -> Seq<AgentEvent>
    decreases orders.len(),
{
    if orders.len() == 0 {
        Seq::empty()
    } else {
        let prev = acks_for(id, orders.drop_last());
        if orders.last().agent_id == id {
            prev.push(AgentEvent::Acked(orders.last()))
        } else {
            prev
        }
    }
}

/// The fills agent `id` receives of `fills`, in order.
pub open spec fn fills_for(id: usize, fills: Seq<Fill>) -> Seq<AgentEvent>
    decreases fills.len(),
{
    if fills.len() == 0 {
        Seq::empty()
    } else {
        let prev = fills_for(id, fills.drop_last());
        if fills.last().agent_id == id {
            prev.push(AgentEvent::Filled(fills.last().delta, fills.last().trade))
        } else {
            prev
        }
    }
}

/// What agent `id` goes through in a tick: its decision `d`, the
/// acknowledgements of its orders among `o3`, its margin call `c`, those
/// among `o4`, and its fills among `fills`.
pub open spec fn agent_events(
    id: usize,
    d: Seq<OrderRequest>,
    o3: Seq<Order>,
    c: Seq<OrderRequest>,
    o4: Seq<Order>,
    fills: Seq<Fill>,
) -> Seq<AgentEvent> {
    seq![AgentEvent::Decided(d)] + acks_for(id, o3) + seq![AgentEvent::Called(c)] + acks_for(id, o4) + fills_for(
        id,
        fills,
    )
}

/// One tick from market `m0` and agents `a0` to `m4` and `a1`. Agent `i`
/// decides `ds[i]` on `m0`; those requests, agent after agent, are routed
/// from `m0` to `m2`, making `t3` and stamping `o3`; agent `i`'s margin call
/// returns `cs[i]`; those are routed from `m2` to `m3`, making `t4` and
/// stamping `o4`; then `t3` followed by `t4` is settled. Each agent goes
/// through exactly its `agent_events`.
pub open spec fn tick(
    m0: MarketState,
    a0: Seq<Participant>,
    ds: Seq<Seq<OrderRequest>>,
    t3: Seq<Trade>,
    o3: Seq<Order>,
    m2: MarketState,
    cs: Seq<Seq<OrderRequest>>,
    t4: Seq<Trade>,
    o4: Seq<Order>,
    m3: MarketState,
    m4: MarketState,
    a1: Seq<Participant>,
) -> bool {
    &&& ds.len() == a0.len()
    &&& cs.len() == a0.len()
    &&& a1.len() == a0.len()
    &&& routed(m0, joined_reqs(ds), t3, o3, m2)
    &&& routed(m2, joined_reqs(cs), t4, o4, m3)
    &&& m4 == settled(m3, t3 + t4)
    &&& forall|i: int|
        0 <= i < a0.len() ==> runs(
            #[trigger] a0[i],
            agent_events(i as usize, ds[i], o3, cs[i], o4, fills_of(t3 + t4)),
            a1[i],
            m0,
        )
}

pub proof fn lemma_runs_empty(p: Participant, m: MarketState)
    ensures
        runs(p, Seq::empty(), p, m),
{
    assert(chain(p, Seq::empty(), p, m, seq![p]));
}

pub proof fn lemma_runs_push(p0: Participant, evs: Seq<AgentEvent>, p1: Participant, ev: AgentEvent, p2: Participant, m: MarketState)
    requires
        runs(p0, evs, p1, m),
        applies(p1, p2, ev, m),
    ensures
        runs(p0, evs.push(ev), p2, m),
{
    let states = choose|states: Seq<Participant>| chain(p0, evs, p1, m, states);
    let st2 = states.push(p2);
    assert forall|i: int| 0 <= i < evs.push(ev).len() implies applies(st2[i], st2[i + 1], #[trigger] evs.push(ev)[i], m) by {
        if i < evs.len() {
            assert(evs.push(ev)[i] == evs[i]);
        }
    }
    assert(chain(p0, evs.push(ev), p2, m, st2));
}

pub proof fn lemma_runs_concat(
    p0: Participant,
    e1: Seq<AgentEvent>,
    p1: Participant,
    e2: Seq<AgentEvent>,
    p2: Participant,
    m: MarketState,
)
    requires
        runs(p0, e1, p1, m),
        runs(p1, e2, p2, m),
    ensures
        runs(p0, e1 + e2, p2, m),
{
    let s1 = choose|states: Seq<Participant>| chain(p0, e1, p1, m, states);
    let s2 = choose|states: Seq<Participant>| chain(p1, e2, p2, m, states);
    let st = s1 + s2.drop_first();
    let e = e1 + e2;
    assert forall|i: int| 0 <= i < e.len() implies applies(st[i], st[i + 1], #[trigger] e[i], m) by {
        if i < e1.len() {
            assert(e[i] == e1[i]);
            assert(st[i] == s1[i]);
            assert(st[i + 1] == s1[i + 1]);
        } else {
            let k = i - e1.len();
            assert(e[i] == e2[k]);
            assert(st[i] == s2[k]);
            assert(st[i + 1] == s2[k + 1]);
        }
    }
    assert(chain(p0, e, p2, m, st));
}

pub proof fn lemma_runs_one(p0: Participant, ev: AgentEvent, p1: Participant, m: MarketState)
    requires
        applies(p0, p1, ev, m),
    ensures
        runs(p0, seq![ev], p1, m),
{
    lemma_runs_empty(p0, m);
    assert(Seq::<AgentEvent>::empty().push(ev) =~= seq![ev]);
    lemma_runs_push(p0, Seq::empty(), p0, ev, p1, m);
}

/// Saturating running sum of `vals`.
pub open spec fn saturating_sum(vals: Seq<i64>) -> i64
    decreases vals.len(),
{
    if vals.len() == 0 {
        0
    } else {
        clamp_i64(saturating_sum(vals.drop_last()) + vals.last())
    }
}

/// The market after settling `trades`.
pub open spec fn settled(m: MarketState, trades: Seq<Trade>) -> MarketState {
    MarketState { last_price: prices_after(m.last_price, trades), volume: volumes_after(m.volume, trades), ..m }
}

pub struct Simulation {
    market: Market,
    agents: Vec<Participant>,
    kinds: Vec<AgentType>,
}

impl Simulation {
    pub closed spec fn spec_market(&self) -> MarketState {
        self.market@
    }

    /// The market is well formed, and agent `i` has id `i` and the kind it
    /// was created with.
    pub closed spec fn wf(&self) -> bool {
        &&& self.market.wf()
        &&& self.agents@.len() == self.kinds@.len()
        &&& forall|i: int|
            0 <= i < self.agents@.len() ==> (#[trigger] self.agents@[i]).id_of() == i && self.agents@[i].kind()
                == self.kinds@[i]
    }

    /// The kind of each agent, agent `i` at index `i`.
    pub closed spec fn spec_kinds(&self) -> Seq<AgentType> {
        self.kinds@
    }

    /// A market over `listings` with one agent per entry of `kinds`, agent
    /// `i` of kind `kinds[i]`.
    pub fn new(kinds: &Vec<AgentType>, listings: Vec<Listing>) -> (s: Simulation)
        requires
            distinct_ids(listings@),
        ensures
            s.wf(),
            s.spec_market() == opening(listings@),
            s.spec_kinds() == kinds@,
            s.spec_agents().len() == kinds@.len(),
            forall|i: int|
                0 <= i < kinds@.len() ==> Participant::fresh(#[trigger] s.spec_agents()[i], kinds@[i], i as usize),
    {
        let market = Market::new(listings);
        let agents = Self::spawn_all(kinds);
        let mut ks: Vec<AgentType> = Vec::new();
        let mut i: usize = 0;
        while i < kinds.len()
            invariant
                0 <= i <= kinds@.len(),
                ks@ == kinds@.take(i as int),
            decreases kinds@.len() - i,
        {
            ks.push(kinds[i]);
            i = i + 1;
            assert(ks@ =~= kinds@.take(i as int));
        }
        assert(kinds@.take(i as int) =~= kinds@);
        Simulation { market, agents, kinds: ks }
    }

    fn spawn_all(kinds: &Vec<AgentType>) -> (r: Vec<Participant>)
        ensures
            r@.len() == kinds@.len(),
            forall|i: int| 0 <= i < r@.len() ==> (#[trigger] r@[i]).id_of() == i && r@[i].kind() == kinds@[i],
            forall|i: int| 0 <= i < r@.len() ==> Participant::fresh(#[trigger] r@[i], kinds@[i], i as usize),
    {
        let mut r: Vec<Participant> = Vec::new();
        let mut i: usize = 0;
        while i < kinds.len()
            invariant
                0 <= i <= kinds@.len(),
                r@.len() == i,
                forall|j: int| 0 <= j < r@.len() ==> (#[trigger] r@[j]).id_of() == j && r@[j].kind() == kinds@[j],
                forall|j: int| 0 <= j < r@.len() ==> Participant::fresh(#[trigger] r@[j], kinds@[j], j as usize),
            decreases kinds@.len() - i,
        {
            r.push(Participant::spawn(kinds[i], i));
            i = i + 1;
        }
        r
    }

    /// Back to the opening state, with fresh agents of the same kinds and
    /// ids.
    pub fn reset(&mut self)
        requires
            old(self).wf(),
        ensures
            final(self).wf(),
            final(self).spec_market() == opening(old(self).spec_market().listings),
            final(self).spec_kinds() == old(self).spec_kinds(),
            final(self).spec_agents().len() == old(self).spec_kinds().len(),
            forall|i: int|
                0 <= i < old(self).spec_kinds().len() ==> Participant::fresh(
                    #[trigger] final(self).spec_agents()[i],
                    old(self).spec_kinds()[i],
                    i as usize,
                ),
    {
        self.agents = Self::spawn_all(&self.kinds);
        self.market.reset();
    }

    /// The market, for observers.
    pub fn market(&self) -> (r: &Market)
        requires
            self.wf(),
        ensures
            r.wf(),
            r@ == self.spec_market(),
    {
        &self.market
    }

    pub closed spec fn spec_agents(&self) -> Seq<Participant> {
        self.agents@
    }

    /// Sum of the agents' inventories in id order, saturating.
    pub fn total_inventory(&self) -> (r: i64)
        ensures
            exists|vals: Seq<i64>|
                {
                    &&& vals.len() == self.spec_agents().len()
                    &&& forall|i: int| 0 <= i < vals.len() ==> (#[trigger] self.spec_agents()[i]).inventory_is(vals[i])
                    &&& r == #[trigger] saturating_sum(vals)
                },
    {
        let mut sum: i64 = 0;
        let mut i: usize = 0;
        let ghost mut vals: Seq<i64> = Seq::empty();
        while i < self.agents.len()
            invariant
                0 <= i <= self.agents@.len(),
                vals.len() == i,
                forall|j: int| 0 <= j < vals.len() ==> (#[trigger] self.agents@[j]).inventory_is(vals[j]),
                sum == saturating_sum(vals),
            decreases self.agents@.len() - i,
        {
            let v = self.agents[i].get_inventory();
            let next = if sum as i128 + v as i128 > i64::MAX as i128 {
                i64::MAX
            } else if (sum as i128 + v as i128) < i64::MIN as i128 {
                i64::MIN
            } else {
                sum + v
            };
            proof {
                let before = vals;
                vals = vals.push(v);
                assert(vals.drop_last() =~= before);
            }
            sum = next;
            i = i + 1;
        }
        sum
    }

    /// Submits `reqs` in order. Each order is acknowledged to its agent, as
    /// stamped, before its book is called. Returns the trades made and the
    /// orders stamped.
    fn route(&mut self, reqs: &Vec<OrderRequest>, Ghost(mev): Ghost<MarketState>) -> (res: (
        Vec<Trade>,
        Ghost<Seq<Order>>,
    ))
        requires
            old(self).wf(),
        ensures
            final(self).wf(),
            final(self).kinds@ == old(self).kinds@,
            final(self).agents@.len() == old(self).agents@.len(),
            final(self).market@.listings == old(self).market@.listings,
            routed(old(self).market@, reqs@, res.0@, res.1@, final(self).market@),
            forall|j: int|
                0 <= j < old(self).agents@.len() ==> runs(
                    #[trigger] old(self).agents@[j],
                    acks_for(j as usize, res.1@),
                    final(self).agents@[j],
                    mev,
                ),
    {
        let ghost m0 = self.market@;
        let ghost a0 = self.agents@;
        let ghost k0 = self.kinds@;
        let mut trades: Vec<Trade> = Vec::new();
        let mut i: usize = 0;
        let ghost mut states: Seq<MarketState> = seq![m0];
        let ghost mut parts: Seq<Seq<Trade>> = Seq::empty();
        let ghost mut outs: Seq<(Option<Order>, bool)> = Seq::empty();
        assert(joined(parts) == Seq::<Trade>::empty());
        assert(trades@ =~= joined(parts));
        assert(stamped(outs) == Seq::<Order>::empty());
        assert forall|j: int| 0 <= j < a0.len() implies runs(#[trigger] a0[j], acks_for(j as usize, stamped(outs)), self.agents@[j], mev) by {
            lemma_runs_empty(a0[j], mev);
        }
        while i < reqs.len()
            invariant
                self.wf(),
                self.kinds@ == k0,
                self.agents@.len() == a0.len(),
                self.market@.listings == m0.listings,
                0 <= i <= reqs@.len(),
                route_witness(m0, reqs@.take(i as int), trades@, self.market@, states, parts, outs),
                forall|j: int|
                    0 <= j < a0.len() ==> runs(#[trigger] a0[j], acks_for(j as usize, stamped(outs)), self.agents@[j], mev),
            decreases reqs@.len() - i,
        {
            let ghost mid = self.market@;
            let ghost ag = self.agents@;
            let ghost os = stamped(outs);
            let req = reqs[i];
            let stamp = self.market.next_stamp(req);
            if let Some(o) = stamp {
                if o.agent_id < self.agents.len() {
                    self.agents[o.agent_id].acknowledge_order(o);
                }
            }
            let sub = self.market.submit(req);
            let mut made = sub.trades;
            let ghost t1 = made@;
            trades.append(&mut made);
            proof {
                lemma_submitted_stamps(mid, req, sub.order, t1, sub.cancelled, self.market@);
                lemma_submitted_keeps_listings(mid, req, sub.order, t1, sub.cancelled, self.market@);
                let old_parts = parts;
                let old_outs = outs;
                states = states.push(self.market@);
                parts = parts.push(t1);
                outs = outs.push((sub.order, sub.cancelled));
                assert(parts.drop_last() =~= old_parts);
                assert(joined(parts) == joined(old_parts) + t1);
                assert(outs.drop_last() =~= old_outs);
                assert forall|j: int| 0 <= j < a0.len() implies runs(
                    #[trigger] a0[j],
                    acks_for(j as usize, stamped(outs)),
                    self.agents@[j],
                    mev,
                ) by {
                    match stamp {
                        None => {
                            assert(stamped(outs) == os);
                            assert(self.agents@[j] == ag[j]);
                        },
                        Some(o) => {
                            assert(stamped(outs) == os.push(o));
                            assert(os.push(o).drop_last() =~= os);
                            if o.agent_id == j {
                                assert(acks_for(j as usize, os.push(o)) == acks_for(j as usize, os).push(AgentEvent::Acked(o)));
                                lemma_runs_push(a0[j], acks_for(j as usize, os), ag[j], AgentEvent::Acked(o), self.agents@[j], mev);
                            } else {
                                assert(acks_for(j as usize, os.push(o)) == acks_for(j as usize, os));
                                assert(self.agents@[j] == ag[j]);
                            }
                        },
                    }
                }
            }
            i = i + 1;
            assert(reqs@.take(i as int).drop_last() =~= reqs@.take(i as int - 1));
            assert forall|k: int| 0 <= k < i implies submitted(
                states[k],
                reqs@.take(i as int)[k],
                outs[k].0,
                #[trigger] parts[k],
                outs[k].1,
                states[k + 1],
            ) by {
                if k < i - 1 {
                    assert(reqs@.take(i as int)[k] == reqs@.take(i as int - 1)[k]);
                }
            }
        }
        assert(reqs@.take(i as int) =~= reqs@);
        assert(route_witness(m0, reqs@, trades@, self.market@, states, parts, outs));
        (trades, Ghost(stamped(outs)))
    }

    /// Advances one tick (see `tick`) and returns the last traded price, in
    /// cents, of the first listed instrument (none when nothing is listed).
    pub fn step(&mut self) -> (r: Option<u64>)
        requires
            old(self).wf(),
        ensures
            final(self).wf(),
            final(self).spec_kinds() == old(self).spec_kinds(),
            final(self).spec_market().listings == old(self).spec_market().listings,
            r == if old(self).spec_market().listings.len() == 0 {
                None
            } else {
                Some(final(self).spec_market().last_price[old(self).spec_market().listings[0].stock_id])
            },
            exists|
                ds: Seq<Seq<OrderRequest>>,
                t3: Seq<Trade>,
                o3: Seq<Order>,
                m2: MarketState,
                cs: Seq<Seq<OrderRequest>>,
                t4: Seq<Trade>,
                o4: Seq<Order>,
                m3: MarketState,
            |
                #[trigger] tick(
                    old(self).spec_market(),
                    old(self).spec_agents(),
                    ds,
                    t3,
                    o3,
                    m2,
                    cs,
                    t4,
                    o4,
                    m3,
                    final(self).spec_market(),
                    final(self).spec_agents(),
                ),
    {
        let ghost m0 = self.market@;
        let ghost k0 = self.kinds@;
        let ghost a0 = self.agents@;
        // decide, in id order
        let mut decided: Vec<OrderRequest> = Vec::new();
        let ghost mut ds: Seq<Seq<OrderRequest>> = Seq::empty();
        let mut i: usize = 0;
        assert(decided@ =~= joined_reqs(ds));
        while i < self.agents.len()
            invariant
                self.wf(),
                self.market@ == m0,
                self.kinds@ == k0,
                self.agents@.len() == a0.len(),
                0 <= i <= self.agents@.len(),
                ds.len() == i,
                decided@ == joined_reqs(ds),
                forall|j: int|
                    0 <= j < i ==> runs(#[trigger] a0[j], seq![AgentEvent::Decided(ds[j])], self.agents@[j], m0),
                forall|j: int| i <= j < a0.len() ==> #[trigger] self.agents@[j] == a0[j],
            decreases self.agents@.len() - i,
        {
            let ghost before = self.agents@;
            let mut reqs = self.agents[i].decide_actions(&self.market);
            let ghost rq = reqs@;
            decided.append(&mut reqs);
            proof {
                let old_ds = ds;
                ds = ds.push(rq);
                assert(ds.drop_last() =~= old_ds);
                assert(joined_reqs(ds) == joined_reqs(old_ds) + rq);
                lemma_runs_one(before[i as int], AgentEvent::Decided(rq), self.agents@[i as int], m0);
                assert forall|j: int| 0 <= j < i + 1 implies runs(
                    #[trigger] a0[j],
                    seq![AgentEvent::Decided(ds[j])],
                    self.agents@[j],
                    m0,
                ) by {
                    if j < i {
                        assert(ds[j] == old_ds[j]);
                        assert(self.agents@[j] == before[j]);
                    }
                }
            }
            i = i + 1;
        }
        let ghost a1 = self.agents@;
        // execute
        let (mut trades, Ghost(o3)) = self.route(&decided, Ghost(m0));
        let ghost t3 = trades@;
        let ghost m2 = self.market@;
        let ghost a2 = self.agents@;
        // margin calls, in id order, routed the same way
        let mut called: Vec<OrderRequest> = Vec::new();
        let ghost mut cs: Seq<Seq<OrderRequest>> = Seq::empty();
        let mut j: usize = 0;
        assert(called@ =~= joined_reqs(cs));
        while j < self.agents.len()
            invariant
                self.wf(),
                self.market@ == m2,
                self.kinds@ == k0,
                self.agents@.len() == a0.len(),
                0 <= j <= self.agents@.len(),
                cs.len() == j,
                called@ == joined_reqs(cs),
                forall|q: int|
                    0 <= q < j ==> runs(#[trigger] a2[q], seq![AgentEvent::Called(cs[q])], self.agents@[q], m0),
                forall|q: int| j <= q < a0.len() ==> #[trigger] self.agents@[q] == a2[q],
            decreases self.agents@.len() - j,
        {
            let ghost before = self.agents@;
            let mut reqs = self.agents[j].margin_call();
            let ghost rq = reqs@;
            called.append(&mut reqs);
            proof {
                let old_cs = cs;
                cs = cs.push(rq);
                assert(cs.drop_last() =~= old_cs);
                assert(joined_reqs(cs) == joined_reqs(old_cs) + rq);
                lemma_runs_one(before[j as int], AgentEvent::Called(rq), self.agents@[j as int], m0);
                assert forall|q: int| 0 <= q < j + 1 implies runs(
                    #[trigger] a2[q],
                    seq![AgentEvent::Called(cs[q])],
                    self.agents@[q],
                    m0,
                ) by {
                    if q < j {
                        assert(cs[q] == old_cs[q]);
                        assert(self.agents@[q] == before[q]);
                    }
                }
            }
            j = j + 1;
        }
        let ghost a3 = self.agents@;
        let (mut margin_trades, Ghost(o4)) = self.route(&called, Ghost(m0));
        let ghost t4 = margin_trades@;
        let ghost m3 = self.market@;
        let ghost a4 = self.agents@;
        trades.append(&mut margin_trades);
        // settle, in buffer order
        let fills = self.market.settle(&trades);
        let mut k: usize = 0;
        assert forall|q: int| 0 <= q < a0.len() implies runs(
            #[trigger] a4[q],
            fills_for(q as usize, fills@.take(0)),
            self.agents@[q],
            m0,
        ) by {
            assert(fills@.take(0) =~= Seq::<Fill>::empty());
            lemma_runs_empty(a4[q], m0);
        }
        while k < fills.len()
            invariant
                self.wf(),
                self.market@ == settled(m3, t3 + t4),
                self.kinds@ == k0,
                self.agents@.len() == a0.len(),
                0 <= k <= fills@.len(),
                forall|q: int|
                    0 <= q < a0.len() ==> runs(#[trigger] a4[q], fills_for(q as usize, fills@.take(k as int)), self.agents@[q], m0),
            decreases fills@.len() - k,
        {
            let ghost before = self.agents@;
            let ghost pre = fills@.take(k as int);
            let f = fills[k];
            if f.agent_id < self.agents.len() {
                self.agents[f.agent_id].update_portfolio(f.delta, &f.trade);
            }
            k = k + 1;
            proof {
                let now = fills@.take(k as int);
                assert(now.drop_last() =~= pre);
                assert(now.last() == f);
                assert forall|q: int| 0 <= q < a0.len() implies runs(
                    #[trigger] a4[q],
                    fills_for(q as usize, now),
                    self.agents@[q],
                    m0,
                ) by {
                    if f.agent_id == q {
                        lemma_runs_push(a4[q], fills_for(q as usize, pre), before[q], AgentEvent::Filled(f.delta, f.trade), self.agents@[q], m0);
                    } else {
                        assert(self.agents@[q] == before[q]);
                    }
                }
            }
        }
        proof {
            assert(fills@.take(k as int) =~= fills@);
            assert forall|q: int| 0 <= q < a0.len() implies runs(
                #[trigger] a0[q],
                agent_events(q as usize, ds[q], o3, cs[q], o4, fills_of(t3 + t4)),
                self.agents@[q],
                m0,
            ) by {
                let qq = q as usize;
                assert(runs(a1[q], acks_for(qq, o3), a2[q], m0));
                assert(runs(a3[q], acks_for(qq, o4), a4[q], m0));
                lemma_runs_concat(a0[q], seq![AgentEvent::Decided(ds[q])], a1[q], acks_for(qq, o3), a2[q], m0);
                lemma_runs_concat(
                    a0[q],
                    seq![AgentEvent::Decided(ds[q])] + acks_for(qq, o3),
                    a2[q],
                    seq![AgentEvent::Called(cs[q])],
                    a3[q],
                    m0,
                );
                lemma_runs_concat(
                    a0[q],
                    seq![AgentEvent::Decided(ds[q])] + acks_for(qq, o3) + seq![AgentEvent::Called(cs[q])],
                    a3[q],
                    acks_for(qq, o4),
                    a4[q],
                    m0,
                );
                lemma_runs_concat(
                    a0[q],
                    seq![AgentEvent::Decided(ds[q])] + acks_for(qq, o3) + seq![AgentEvent::Called(cs[q])] + acks_for(qq, o4),
                    a4[q],
                    fills_for(qq, fills_of(t3 + t4)),
                    self.agents@[q],
                    m0,
                );
            }
            assert(tick(m0, a0, ds, t3, o3, m2, cs, t4, o4, m3, self.market@, self.agents@));
            assert(tick(
                old(self).spec_market(),
                old(self).spec_agents(),
                ds,
                t3,
                o3,
                m2,
                cs,
                t4,
                o4,
                m3,
                self.spec_market(),
                self.spec_agents(),
            ));
            self.market.lemma_books_listed();
        }
        let ids = self.market.stock_ids();
        if ids.len() == 0 {
            None
        } else {
            proof {
                assert(ids@[0] == self.market@.listings[0].stock_id);
                assert(listed(self.market@.listings).contains(ids@[0]));
            }
            self.market.last_price(ids[0])
        }
    }
}

} // verus!
