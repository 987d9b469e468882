//! Price-time priority limit order book for one instrument.
//!
//! Each side maps a price to a `PriceLevel`, a FIFO of resting orders with
//! its aggregate open volume. `id_index` maps every resting order id to the
//! side and price of its level, so a cancel finds its level directly.

use std::collections::{BTreeMap, VecDeque};
use vstd::prelude::*;
use crate::order::{open_volume, Order, Side, Trade};

verus! {

broadcast use vstd::laws_cmp::group_laws_cmp;

/// All resting orders at one price on one side.
#[derive(Debug)]
pub struct PriceLevel {
    /// Sum of the open volume of the queued orders.
    pub total_volume: u64,
    /// Orders in arrival order; the front is matched first.
    pub orders: VecDeque<Order>,
}

/// The book of one instrument.
#[derive(Debug)]
pub struct OrderBook {
    pub bids: BTreeMap<u64, PriceLevel>,
    pub asks: BTreeMap<u64, PriceLevel>,
    /// Order id to the side and price of the level that holds it.
    pub id_index: BTreeMap<u64, (Side, u64)>,
}

// ---------------------------------------------------------------------------
//  Model
// ---------------------------------------------------------------------------

/// Open volume of a queue of orders.
pub open spec fn queue_volume(q: Seq<Order>) -> nat
    decreases q.len(),
{
    if q.len() == 0 {
        0
    } else {
        open_volume(q[0]) + queue_volume(q.drop_first())
    }
}

/// Sum of the volumes of a sequence of trades.
pub open spec fn traded_volume(ts: Seq<Trade>) -> nat
    decreases ts.len(),
{
    if ts.len() == 0 {
        0
    } else {
        traded_volume(ts.drop_last()) + ts.last().volume as nat
    }
}

/// The trade of `v` units between a taker and the resting order `m`, at `m`'s price.
pub open spec fn fill_trade(m: Order, v: nat, taker: usize, side: Side) -> Trade {
    Trade {
        price: m.price,
        stock_id: m.stock_id,
        volume: v as u64,
        taker_agent_id: taker,
        maker_agent_id: m.agent_id,
        taker_side: side,
        maker_order_id: m.id,
    }
}

/// A taker on `side` wanting `want` units meets the FIFO `q`: the trades it
/// makes, front first, and what is left of the queue.
pub open spec fn fill_queue(q: Seq<Order>, want: nat, taker: usize, side: Side) -> (Seq<Trade>, Seq<Order>)
    decreases q.len(),
{
    if want == 0 || q.len() == 0 {
        (Seq::empty(), q)
    } else {
        let m = q[0];
        let avail = open_volume(m);
        if want < avail {
            (
                seq![fill_trade(m, want, taker, side)],
                q.update(0, Order { filled: (m.filled + want) as u64, ..m }),
            )
        } else {
            let rest = fill_queue(q.drop_first(), (want - avail) as nat, taker, side);
            (seq![fill_trade(m, avail, taker, side)] + rest.0, rest.1)
        }
    }
}

/// Whether a taker on `side` with the given limit accepts price `p`.
pub open spec fn crosses(p: u64, side: Side, limit: Option<u64>) -> bool {
    match limit {
        None => true,
        Some(l) => match side {
            Side::Buy => p <= l,
            Side::Sell => p >= l,
        },
    }
}

/// `p` is the most aggressive price of `prices` for a taker on `side`:
/// the lowest ask for a buyer, the highest bid for a seller.
pub open spec fn is_best(p: u64, prices: Set<u64>, side: Side) -> bool {
    &&& prices.contains(p)
    &&& forall|k: u64| prices.contains(k) ==> (if side == Side::Buy { p <= k } else { k <= p })
}

pub open spec fn best_price(prices: Set<u64>, side: Side) -> u64 {
    choose|p: u64| is_best(p, prices, side)
}

/// The best price of a side, if it has any.
pub open spec fn top(prices: Set<u64>, side: Side) -> Option<u64> {
    if exists|p: u64| is_best(p, prices, side) {
        Some(best_price(prices, side))
    } else {
        None
    }
}

/// A taker on `side` wanting `want` units meets the opposite side `levels`,
/// best price first, up to its limit: the trades made, in order, and the
/// levels left behind.
pub open spec fn sweep(
    levels: Map<u64, Seq<Order>>,
    want: nat,
    taker: usize,
    side: Side,
    limit: Option<u64>,
) -> (Seq<Trade>, Map<u64, Seq<Order>>)
    decreases levels.dom().len(),
{
    let p = best_price(levels.dom(), side);
    if want == 0 || !levels.dom().finite() || !levels.contains_key(p) || !crosses(p, side, limit) {
        (Seq::empty(), levels)
    } else {
        let here = fill_queue(levels[p], want, taker, side);
        if here.1.len() == 0 {
            let further = sweep(
                levels.remove(p),
                (want - traded_volume(here.0)) as nat,
                taker,
                side,
                limit,
            );
            (here.0 + further.0, further.1)
        } else {
            (here.0, levels.insert(p, here.1))
        }
    }
}

/// The order queues of one side of a book.
pub open spec fn queues(m: Map<u64, PriceLevel>) -> Map<u64, Seq<Order>> {
    Map::new(|p: u64| m.contains_key(p), |p: u64| m[p].orders@)
}

/// What a book holds: the queues of both sides and the id index.
pub struct BookView {
    pub bids: Map<u64, Seq<Order>>,
    pub asks: Map<u64, Seq<Order>>,
    pub index: Map<u64, (Side, u64)>,
}

pub open spec fn queue_has(q: Seq<Order>, id: u64) -> bool {
    exists|i: int| 0 <= i < q.len() && (#[trigger] q[i]).id == id
}

/// A resting order stands on side `s` at price `p`, is not closed, and the
/// index sends its id to that level.
pub open spec fn order_ok(o: Order, s: Side, p: u64, idx: Map<u64, (Side, u64)>) -> bool {
    &&& o.side == s
    &&& o.price == p
    &&& o.filled < o.volume
    &&& idx.contains_key(o.id)
    &&& idx[o.id] == (s, p)
}

pub open spec fn queue_ok(q: Seq<Order>, s: Side, p: u64, idx: Map<u64, (Side, u64)>) -> bool {
    &&& forall|i: int| 0 <= i < q.len() ==> order_ok(#[trigger] q[i], s, p, idx)
    &&& forall|i: int, j: int|
        #![trigger q[i], q[j]]
        0 <= i < q.len() && 0 <= j < q.len() && i != j ==> q[i].id != q[j].id
}

pub open spec fn side_ok(m: Map<u64, Seq<Order>>, s: Side, idx: Map<u64, (Side, u64)>) -> bool {
    forall|p: u64| #[trigger] m.contains_key(p) ==> m[p].len() > 0 && queue_ok(m[p], s, p, idx)
}

impl BookView {
    pub open spec fn side(self, s: Side) -> Map<u64, Seq<Order>> {
        if s == Side::Buy {
            self.bids
        } else {
            self.asks
        }
    }

    pub open spec fn with_side(self, s: Side, m: Map<u64, Seq<Order>>) -> BookView {
        if s == Side::Buy {
            BookView { bids: m, ..self }
        } else {
            BookView { asks: m, ..self }
        }
    }

    /// Every index entry names a live level that holds that id.
    pub open spec fn index_ok(self) -> bool {
        forall|id: u64| #[trigger]
            self.index.contains_key(id) ==> {
                let loc = self.index[id];
                &&& self.side(loc.0).contains_key(loc.1)
                &&& queue_has(self.side(loc.0)[loc.1], id)
            }
    }

    /// No empty level; every queued order is open, on its own side and
    /// price, and indexed there; ids are unique; the index holds nothing else.
    pub open spec fn wf(self) -> bool {
        &&& side_ok(self.bids, Side::Buy, self.index)
        &&& side_ok(self.asks, Side::Sell, self.index)
        &&& self.index_ok()
    }
}

pub open spec fn totals_ok(m: Map<u64, PriceLevel>) -> bool {
    forall|p: u64| #[trigger]
        m.contains_key(p) ==> m[p].total_volume as nat == queue_volume(m[p].orders@)
}

impl View for OrderBook {
    type V = BookView;

    open spec fn view(&self) -> BookView {
        BookView { bids: queues(self.bids@), asks: queues(self.asks@), index: self.id_index@ }
    }
}

impl OrderBook {
    /// The book's invariant: its view is well formed and each level's
    /// `total_volume` is the open volume of its queue.
    pub open spec fn wf(&self) -> bool {
        &&& self@.wf()
        &&& totals_ok(self.bids@)
        &&& totals_ok(self.asks@)
    }
}

// ---------------------------------------------------------------------------
//  Lemmas
// ---------------------------------------------------------------------------

proof fn lemma_traded_volume_push(ts: Seq<Trade>, t: Trade)
    ensures
        traded_volume(ts.push(t)) == traded_volume(ts) + t.volume,
{
    assert(ts.push(t).drop_last() =~= ts);
}

pub proof fn lemma_traded_volume_append(a: Seq<Trade>, b: Seq<Trade>)
    ensures
        traded_volume(a + b) == traded_volume(a) + traded_volume(b),
    decreases b.len(),
{
    if b.len() == 0 {
        assert(a + b =~= a);
    } else {
        lemma_traded_volume_append(a, b.drop_last());
        assert((a + b).drop_last() =~= a + b.drop_last());
    }
}

// ---------------------------------------------------------------------------
//  Matching against one queue
// ---------------------------------------------------------------------------

/// Matches a taker against the detached queue of the level at `(ms, p)`,
/// dropping filled makers from the queue and from the index.
fn fill_from_queue(
    orders: &mut VecDeque<Order>,
    total: &mut u64,
    index: &mut BTreeMap<u64, (Side, u64)>,
    want: u64,
    taker: usize,
    side: Side,
    Ghost(p): Ghost<u64>,
) -> (res: (Vec<Trade>, u64))
    requires
        queue_ok(old(orders)@, side.spec_opposite(), p, old(index)@),
        *old(total) as nat == queue_volume(old(orders)@),
    ensures
        (res.0@, final(orders)@) == fill_queue(old(orders)@, want as nat, taker, side),
        res.1 as nat == traded_volume(res.0@),
        res.1 <= want,
        final(orders)@.len() > 0 ==> res.1 == want,
        *final(total) as nat == queue_volume(final(orders)@),
        queue_ok(final(orders)@, side.spec_opposite(), p, final(index)@),
        forall|id: u64| #[trigger]
            final(index)@.contains_key(id) ==> old(index)@.contains_key(id) && final(index)@[id]
                == old(index)@[id],
        forall|id: u64| #[trigger]
            old(index)@.contains_key(id) && old(index)@[id] != (side.spec_opposite(), p)
                ==> final(index)@.contains_key(id),
        forall|id: u64|
            #![trigger final(index)@.contains_key(id)]
            (forall|id2: u64| #[trigger]
                old(index)@.contains_key(id2) && old(index)@[id2] == (side.spec_opposite(), p)
                    ==> queue_has(old(orders)@, id2)) ==> (final(index)@.contains_key(id)
                && final(index)@[id] == (side.spec_opposite(), p) ==> queue_has(final(orders)@, id)),
{
    let ghost ms = side.spec_opposite();
    let ghost q0 = orders@;
    let ghost idx0 = index@;
    let mut left: u64 = want;
    let mut out: Vec<Trade> = Vec::new();
    while left > 0 && orders.len() > 0
        invariant
            queue_ok(orders@, ms, p, index@),
            *total as nat == queue_volume(orders@),
            left <= want,
            traded_volume(out@) == want - left,
            fill_queue(q0, want as nat, taker, side) == (
                out@ + fill_queue(orders@, left as nat, taker, side).0,
                fill_queue(orders@, left as nat, taker, side).1,
            ),
            forall|id: u64| #[trigger]
                index@.contains_key(id) ==> idx0.contains_key(id) && index@[id] == idx0[id],
            forall|id: u64| #[trigger]
                idx0.contains_key(id) && idx0[id] != (ms, p) ==> index@.contains_key(id),
            (forall|id2: u64| #[trigger]
                idx0.contains_key(id2) && idx0[id2] == (ms, p) ==> queue_has(q0, id2)) ==> (
            forall|id: u64| #[trigger]
                index@.contains_key(id) && index@[id] == (ms, p) ==> queue_has(orders@, id)),
        decreases orders@.len() + left,
    {
        let ghost before = orders@;
        let ghost idx_before = index@;
        let m = orders.pop_front().unwrap();
        assert(before[0] == m);
        assert(orders@ =~= before.drop_first());
        assert(order_ok(before[0], ms, p, idx_before));
        let avail = m.volume - m.filled;
        if left < avail {
            let t = Trade {
                price: m.price,
                stock_id: m.stock_id,
                volume: left,
                taker_agent_id: taker,
                maker_agent_id: m.agent_id,
                taker_side: side,
                maker_order_id: m.id,
            };
            let ghost out_before = out@;
            out.push(t);
            proof {
                lemma_traded_volume_push(out_before, t);
            }
            *total = *total - left;
            let m2 = Order { filled: m.filled + left, ..m };
            orders.push_front(m2);
            assert(orders@ =~= before.update(0, m2));
            assert(orders@.drop_first() =~= before.drop_first());
            assert(out@ =~= out_before + seq![t]);
            left = 0;
            assert forall|i: int| 0 <= i < orders@.len() implies order_ok(
                #[trigger] orders@[i],
                ms,
                p,
                index@,
            ) by {
                assert(order_ok(before[i], ms, p, idx_before));
            }
            assert forall|i: int, j: int|
                0 <= i < orders@.len() && 0 <= j < orders@.len() && i != j implies #[trigger] orders@[i].id
                != #[trigger] orders@[j].id by {
                assert(before[i].id != before[j].id);
            }
            assert forall|id: u64| #[trigger]
                index@.contains_key(id) && index@[id] == (ms, p) && (forall|id2: u64| #[trigger]
                    idx0.contains_key(id2) && idx0[id2] == (ms, p) ==> queue_has(q0, id2))
                implies queue_has(orders@, id) by {
                let i = choose|i: int| 0 <= i < before.len() && (#[trigger] before[i]).id == id;
                assert(orders@[i].id == id);
            }
        } else {
            let t = Trade {
                price: m.price,
                stock_id: m.stock_id,
                volume: avail,
                taker_agent_id: taker,
                maker_agent_id: m.agent_id,
                taker_side: side,
                maker_order_id: m.id,
            };
            let ghost out_before = out@;
            out.push(t);
            proof {
                lemma_traded_volume_push(out_before, t);
            }
            let ghost rest = fill_queue(orders@, (left - avail) as nat, taker, side);
            assert(out@ + rest.0 =~= out_before + (seq![t] + rest.0));
            *total = *total - avail;
            left = left - avail;
            index.remove(&m.id);
            assert forall|i: int| 0 <= i < orders@.len() implies order_ok(
                #[trigger] orders@[i],
                ms,
                p,
                index@,
            ) by {
                assert(order_ok(before[i + 1], ms, p, idx_before));
                assert(before[i + 1].id != before[0].id);
            }
            assert forall|i: int, j: int|
                0 <= i < orders@.len() && 0 <= j < orders@.len() && i != j implies #[trigger] orders@[i].id
                != #[trigger] orders@[j].id by {
                assert(before[i + 1].id != before[j + 1].id);
            }
            assert forall|id: u64| #[trigger]
                idx0.contains_key(id) && idx0[id] != (ms, p) implies index@.contains_key(id) by {
                assert(idx_before.contains_key(id));
                if id == m.id {
                    assert(idx_before[id] == (ms, p));
                }
            }
            assert forall|id: u64| #[trigger]
                index@.contains_key(id) && index@[id] == (ms, p) && (forall|id2: u64| #[trigger]
                    idx0.contains_key(id2) && idx0[id2] == (ms, p) ==> queue_has(q0, id2))
                implies queue_has(orders@, id) by {
                assert(idx_before.contains_key(id));
                let i = choose|i: int| 0 <= i < before.len() && (#[trigger] before[i]).id == id;
                assert(i != 0);
                assert(orders@[i - 1].id == id);
            }
        }
    }
    (out, want - left)
}


// ---------------------------------------------------------------------------
//  Best prices
// ---------------------------------------------------------------------------

/// Relies on BTreeMap::first_key_value: the least key, none when the map
/// is empty.
#[verifier::external_body]
pub(crate) fn least_key<V>(m: &BTreeMap<u64, V>) -> (r: Option<u64>)
    ensures
        match r {
            None => m@.dom() == Set::<u64>::empty(),
            Some(p) => is_best(p, m@.dom(), Side::Buy),
        },
{
    m.first_key_value().map(|(k, _)| *k)
}

/// Relies on BTreeMap::last_key_value: the entry with the greatest key, none
/// when the map is empty.
#[verifier::external_body]
fn highest_price(m: &BTreeMap<u64, PriceLevel>) -> (r: Option<u64>)
    ensures
        match r {
            None => m@.dom() == Set::<u64>::empty(),
            Some(p) => is_best(p, m@.dom(), Side::Sell),
        },
{
    m.last_key_value().map(|(k, _)| *k)
}

fn price_crosses(p: u64, side: Side, limit: Option<u64>) -> (r: bool)
    ensures
        r == crosses(p, side, limit),
{
    match limit {
        None => true,
        Some(l) => match side {
            Side::Buy => p <= l,
            Side::Sell => p >= l,
        },
    }
}

pub proof fn lemma_best_unique(p: u64, prices: Set<u64>, side: Side)
    requires
        is_best(p, prices, side),
    ensures
        best_price(prices, side) == p,
{
    let b = best_price(prices, side);
    assert(is_best(b, prices, side));
    assert(prices.contains(b) && prices.contains(p));
}

/// A finite non-empty set of prices has a best one for either side.
pub proof fn lemma_best_exists(prices: Set<u64>, side: Side)
    requires
        prices.finite(),
        prices.len() > 0,
    ensures
        is_best(best_price(prices, side), prices, side),
    decreases prices.len(),
{
    let x = prices.choose();
    assert(prices.contains(x));
    let rest = prices.remove(x);
    if rest.len() == 0 {
        assert forall|k: u64| prices.contains(k) implies k == x by {
            if k != x {
                assert(rest.contains(k));
            }
        }
        assert(is_best(x, prices, side));
    } else {
        lemma_best_exists(rest, side);
        let b = best_price(rest, side);
        let c = if side == Side::Buy {
            if x <= b { x } else { b }
        } else {
            if x >= b { x } else { b }
        };
        assert forall|k: u64| prices.contains(k) implies (if side == Side::Buy { c <= k } else { k <= c }) by {
            if k != x {
                assert(rest.contains(k));
            }
        }
        assert(is_best(c, prices, side));
    }
}

/// One matching step keeps a book well formed: the level at `(ms, p)` is
/// replaced by what is left of its queue (or dropped when nothing is), and
/// the index loses only ids of that level that are no longer queued.
proof fn lemma_level_step(
    v: BookView,
    ms: Side,
    p: u64,
    rest: Seq<Order>,
    idx2: Map<u64, (Side, u64)>,
)
    requires
        v.wf(),
        v.side(ms).contains_key(p),
        queue_ok(rest, ms, p, idx2),
        forall|id: u64| #[trigger]
            idx2.contains_key(id) ==> v.index.contains_key(id) && idx2[id] == v.index[id],
        forall|id: u64| #[trigger]
            v.index.contains_key(id) && v.index[id] != (ms, p) ==> idx2.contains_key(id),
        forall|id: u64| #[trigger]
            idx2.contains_key(id) && idx2[id] == (ms, p) ==> queue_has(rest, id),
    ensures
        ({
            let m2 = if rest.len() == 0 {
                v.side(ms).remove(p)
            } else {
                v.side(ms).insert(p, rest)
            };
            BookView { index: idx2, ..v.with_side(ms, m2) }.wf()
        }),
{
    let m2 = if rest.len() == 0 {
        v.side(ms).remove(p)
    } else {
        v.side(ms).insert(p, rest)
    };
    let w = BookView { index: idx2, ..v.with_side(ms, m2) };
    assert forall|s: Side| side_ok(#[trigger] w.side(s), s, idx2) by {
        assert forall|q: u64| #[trigger] w.side(s).contains_key(q) implies w.side(s)[q].len() > 0
            && queue_ok(w.side(s)[q], s, q, idx2) by {
            if s == ms && q == p {
            } else {
                assert(v.side(s).contains_key(q));
                let qq = v.side(s)[q];
                assert(w.side(s)[q] == qq);
                assert(side_ok(v.side(s), s, v.index));
                assert forall|i: int| 0 <= i < qq.len() implies order_ok(#[trigger] qq[i], s, q, idx2) by {
                    assert(order_ok(qq[i], s, q, v.index));
                }
            }
        }
    }
    assert(side_ok(w.bids, Side::Buy, idx2)) by {
        assert(w.side(Side::Buy) == w.bids);
    }
    assert(side_ok(w.asks, Side::Sell, idx2)) by {
        assert(w.side(Side::Sell) == w.asks);
    }
    assert forall|id: u64| #[trigger] w.index.contains_key(id) implies {
        let loc = w.index[id];
        &&& w.side(loc.0).contains_key(loc.1)
        &&& queue_has(w.side(loc.0)[loc.1], id)
    } by {
        let loc = idx2[id];
        if loc == (ms, p) {
            assert(queue_has(rest, id));
        } else {
            assert(v.index.contains_key(id));
        }
    }
}

impl OrderBook {
    /// Queues and totals of one side, as the map of levels.
    pub open spec fn levels(&self, s: Side) -> Map<u64, PriceLevel> {
        if s == Side::Buy {
            self.bids@
        } else {
            self.asks@
        }
    }

    /// Best price of the side a taker on `side` trades against.
    fn best_opposite(&self, side: Side) -> (r: Option<u64>)
        ensures
            match r {
                None => self.levels(side.spec_opposite()).dom() == Set::<u64>::empty(),
                Some(p) => is_best(p, self.levels(side.spec_opposite()).dom(), side),
            },
    {
        match side {
            Side::Buy => least_key(&self.asks),
            Side::Sell => highest_price(&self.bids),
        }
    }

    fn take_level(&mut self, s: Side, p: u64) -> (l: PriceLevel)
        requires
            old(self).levels(s).contains_key(p),
        ensures
            l == old(self).levels(s)[p],
            final(self).levels(s) == old(self).levels(s).remove(p),
            final(self).levels(s.spec_opposite()) == old(self).levels(s.spec_opposite()),
            final(self).id_index@ == old(self).id_index@,
    {
        match s {
            Side::Buy => self.bids.remove(&p).unwrap(),
            Side::Sell => self.asks.remove(&p).unwrap(),
        }
    }

    fn put_level(&mut self, s: Side, p: u64, l: PriceLevel)
        ensures
            final(self).levels(s) == old(self).levels(s).insert(p, l),
            final(self).levels(s.spec_opposite()) == old(self).levels(s.spec_opposite()),
            final(self).id_index@ == old(self).id_index@,
    {
        match s {
            Side::Buy => {
                self.bids.insert(p, l);
            },
            Side::Sell => {
                self.asks.insert(p, l);
            },
        }
    }
}


impl OrderBook {
    /// Matches a taker on `side` wanting `volume` units against the opposite
    /// side, best price first, up to `limit`. Returns the trades and the
    /// volume they fill.
    fn sweep_side(&mut self, taker: usize, side: Side, volume: u64, limit: Option<u64>) -> (res: (
        Vec<Trade>,
        u64,
    ))
        requires
            old(self).wf(),
        ensures
            final(self).wf(),
            (res.0@, final(self)@.side(side.spec_opposite())) == sweep(
                old(self)@.side(side.spec_opposite()),
                volume as nat,
                taker,
                side,
                limit,
            ),
            final(self)@.side(side) == old(self)@.side(side),
            res.1 as nat == traded_volume(res.0@),
            res.1 <= volume,
            forall|id: u64| #[trigger]
                final(self)@.index.contains_key(id) ==> old(self)@.index.contains_key(id),
    {
        let ghost idx_start = self.id_index@;
        let ghost ms = side.spec_opposite();
        let ghost opp0 = self@.side(ms);
        let ghost own0 = self@.side(side);
        let mut trades: Vec<Trade> = Vec::new();
        let mut left: u64 = volume;
        let mut done = false;
        assert(trades@ + sweep(opp0, volume as nat, taker, side, limit).0 =~= sweep(
            opp0,
            volume as nat,
            taker,
            side,
            limit,
        ).0);
        while !done && left > 0
            invariant
                self.wf(),
                self@.side(side) == own0,
                ms == side.spec_opposite(),
                left <= volume,
                traded_volume(trades@) == volume - left,
                forall|id: u64| #[trigger]
                    self.id_index@.contains_key(id) ==> idx_start.contains_key(id),
                done ==> sweep(self@.side(ms), left as nat, taker, side, limit) == (
                    Seq::<Trade>::empty(),
                    self@.side(ms),
                ),
                sweep(opp0, volume as nat, taker, side, limit) == (
                    trades@ + sweep(self@.side(ms), left as nat, taker, side, limit).0,
                    sweep(self@.side(ms), left as nat, taker, side, limit).1,
                ),
            decreases self@.side(ms).dom().len() + (if done { 0int } else { 1int }),
        {
            let ghost v = self@;
            let ghost cur = self@.side(ms);
            assert(cur.dom() == self.levels(ms).dom());
            match self.best_opposite(side) {
                None => {
                    done = true;
                    assert(!cur.contains_key(best_price(cur.dom(), side)));
                },
                Some(p) => {
                    proof {
                        lemma_best_unique(p, cur.dom(), side);
                    }
                    if !price_crosses(p, side, limit) {
                        done = true;
                    } else {
                        let ghost tv = self.id_index@;
                        let mut level = self.take_level(side.opposite(), p);
                        assert(level.orders@ == cur[p]);
                        let ghost q0 = level.orders@;
                        assert(queue_ok(q0, ms, p, tv));
                        let (mut ts, got) = fill_from_queue(
                            &mut level.orders,
                            &mut level.total_volume,
                            &mut self.id_index,
                            left,
                            taker,
                            side,
                            Ghost(p),
                        );
                        let ghost rest = level.orders@;
                        proof {
                            assert forall|id2: u64| #[trigger]
                                tv.contains_key(id2) && tv[id2] == (ms, p) implies queue_has(q0, id2) by {
                                assert(v.index_ok());
                                assert(v.index.contains_key(id2));
                            }
                            lemma_level_step(v, ms, p, rest, self.id_index@);
                        }
                        let ghost ts_seq = ts@;
                        let ghost trades_before = trades@;
                        left = left - got;
                        trades.append(&mut ts);
                        if level.orders.len() > 0 {
                            self.put_level(side.opposite(), p, level);
                            done = true;
                            assert(self@.side(ms) =~= cur.insert(p, rest));
                        } else {
                            assert(self@.side(ms) =~= cur.remove(p));
                            assert(self@.side(ms).dom().len() < cur.dom().len()) by {
                                assert(self@.side(ms).dom() =~= cur.dom().remove(p));
                            }
                            let ghost further = sweep(self@.side(ms), left as nat, taker, side, limit);
                            assert(trades@ + further.0 =~= trades_before + (ts_seq + further.0));
                        }
                        assert(self@.side(side) =~= own0);
                        assert(self@ =~= BookView {
                            index: self.id_index@,
                            ..v.with_side(
                                ms,
                                if rest.len() == 0 {
                                    cur.remove(p)
                                } else {
                                    cur.insert(p, rest)
                                },
                            )
                        });
                        proof {
                            lemma_traded_volume_append(trades_before, ts_seq);
                        }
                    }
                },
            }
        }
        (trades, volume - left)
    }
}


/// The queue at price `p` of a side, empty when there is no such level.
pub open spec fn queue_at(m: Map<u64, Seq<Order>>, p: u64) -> Seq<Order> {
    if m.contains_key(p) {
        m[p]
    } else {
        Seq::empty()
    }
}

/// Index of the order with the given id in a queue.
pub open spec fn position_of(q: Seq<Order>, id: u64) -> int {
    choose|i: int| 0 <= i < q.len() && q[i].id == id
}

impl BookView {
    /// The book with `o` appended to the queue at its side and price.
    pub open spec fn rest_order(self, o: Order) -> BookView {
        BookView {
            index: self.index.insert(o.id, (o.side, o.price)),
            ..self.with_side(o.side, self.side(o.side).insert(o.price, queue_at(self.side(o.side), o.price).push(o)))
        }
    }

    /// The resting order with id `id`.
    pub open spec fn order_of(self, id: u64) -> Order {
        let loc = self.index[id];
        let q = self.side(loc.0)[loc.1];
        q[position_of(q, id)]
    }

    /// `agent` owns a resting order with id `id`.
    pub open spec fn owns(self, id: u64, agent: usize) -> bool {
        &&& self.index.contains_key(id)
        &&& self.order_of(id).agent_id == agent
    }

    /// The book with the resting order `id` taken out, and its level with it
    /// when that leaves the level empty.
    pub open spec fn without_order(self, id: u64) -> BookView {
        let loc = self.index[id];
        let q = self.side(loc.0)[loc.1];
        let q2 = q.remove(position_of(q, id));
        let m = if q2.len() == 0 {
            self.side(loc.0).remove(loc.1)
        } else {
            self.side(loc.0).insert(loc.1, q2)
        };
        BookView { index: self.index.remove(id), ..self.with_side(loc.0, m) }
    }

    /// Adding `o` keeps its level's total within `u64`.
    pub open spec fn fits(self, o: Order) -> bool {
        queue_volume(queue_at(self.side(o.side), o.price)) + open_volume(o) <= u64::MAX
    }
}

proof fn lemma_queue_volume_push(q: Seq<Order>, o: Order)
    ensures
        queue_volume(q.push(o)) == queue_volume(q) + open_volume(o),
    decreases q.len(),
{
    assert(q.push(o)[0] == if q.len() == 0 { o } else { q[0] });
    if q.len() == 0 {
        assert(q.push(o).drop_first() =~= Seq::<Order>::empty());
        assert(queue_volume(q) == 0);
        assert(queue_volume(Seq::<Order>::empty()) == 0);
    } else {
        lemma_queue_volume_push(q.drop_first(), o);
        assert(q.push(o).drop_first() =~= q.drop_first().push(o));
    }
}

proof fn lemma_queue_volume_remove(q: Seq<Order>, i: int)
    requires
        0 <= i < q.len(),
    ensures
        queue_volume(q) == queue_volume(q.remove(i)) + open_volume(q[i]),
    decreases q.len(),
{
    if i == 0 {
        assert(q.remove(0) =~= q.drop_first());
    } else {
        lemma_queue_volume_remove(q.drop_first(), i - 1);
        assert(q.remove(i).drop_first() =~= q.drop_first().remove(i - 1));
    }
}

/// Resting a fresh open order keeps a book well formed.
pub proof fn lemma_rest_order(v: BookView, o: Order)
    requires
        v.wf(),
        o.filled < o.volume,
        !v.index.contains_key(o.id),
    ensures
        v.rest_order(o).wf(),
{
    let w = v.rest_order(o);
    let idx2 = w.index;
    assert forall|s: Side| side_ok(#[trigger] w.side(s), s, idx2) by {
        assert(side_ok(v.side(s), s, v.index));
        assert forall|q: u64| #[trigger] w.side(s).contains_key(q) implies w.side(s)[q].len() > 0
            && queue_ok(w.side(s)[q], s, q, idx2) by {
            if s == o.side && q == o.price {
                let q0 = queue_at(v.side(s), q);
                let q1 = q0.push(o);
                assert(w.side(s)[q] == q1);
                assert forall|i: int| 0 <= i < q1.len() implies order_ok(#[trigger] q1[i], s, q, idx2) by {
                    if i < q0.len() {
                        assert(q1[i] == q0[i]);
                        assert(order_ok(q0[i], s, q, v.index));
                    }
                }
                assert forall|i: int, j: int|
                    0 <= i < q1.len() && 0 <= j < q1.len() && i != j implies #[trigger] q1[i].id
                    != #[trigger] q1[j].id by {
                    if i < q0.len() {
                        assert(order_ok(q0[i], s, q, v.index));
                    }
                    if j < q0.len() {
                        assert(order_ok(q0[j], s, q, v.index));
                    }
                    if i < q0.len() && j < q0.len() {
                        assert(q0[i].id != q0[j].id);
                    }
                }
            } else {
                let qq = v.side(s)[q];
                assert(w.side(s)[q] == qq);
                assert forall|i: int| 0 <= i < qq.len() implies order_ok(#[trigger] qq[i], s, q, idx2) by {
                    assert(order_ok(qq[i], s, q, v.index));
                }
            }
        }
    }
    assert(side_ok(w.bids, Side::Buy, idx2)) by {
        assert(w.side(Side::Buy) == w.bids);
    }
    assert(side_ok(w.asks, Side::Sell, idx2)) by {
        assert(w.side(Side::Sell) == w.asks);
    }
    assert forall|id: u64| #[trigger] w.index.contains_key(id) implies {
        let loc = w.index[id];
        &&& w.side(loc.0).contains_key(loc.1)
        &&& queue_has(w.side(loc.0)[loc.1], id)
    } by {
        let q1 = queue_at(v.side(o.side), o.price).push(o);
        if id == o.id {
            assert(q1[q1.len() - 1].id == id);
        } else {
            let loc = v.index[id];
            assert(v.index.contains_key(id));
            if loc == (o.side, o.price) {
                let q0 = v.side(loc.0)[loc.1];
                let i = choose|i: int| 0 <= i < q0.len() && (#[trigger] q0[i]).id == id;
                assert(q1[i].id == id);
            }
        }
    }
}

/// Taking a resting order out keeps a book well formed.
pub proof fn lemma_without_order(v: BookView, id: u64)
    requires
        v.wf(),
        v.index.contains_key(id),
    ensures
        v.without_order(id).wf(),
        ({
            let loc = v.index[id];
            let q = v.side(loc.0)[loc.1];
            &&& 0 <= position_of(q, id) < q.len()
            &&& q[position_of(q, id)].id == id
        }),
{
    let loc = v.index[id];
    let (s, p) = loc;
    let q = v.side(s)[p];
    assert(v.side(s).contains_key(p));
    assert(queue_has(q, id));
    let i = position_of(q, id);
    let rest = q.remove(i);
    let idx2 = v.index.remove(id);
    assert(side_ok(v.side(s), s, v.index));
    assert(queue_ok(q, s, p, v.index));
    assert forall|k: int| 0 <= k < rest.len() implies order_ok(#[trigger] rest[k], s, p, idx2) by {
        let kk = if k < i { k } else { k + 1 };
        assert(rest[k] == q[kk]);
        assert(order_ok(q[kk], s, p, v.index));
        assert(q[kk].id != q[i].id);
    }
    assert forall|a: int, b: int|
        0 <= a < rest.len() && 0 <= b < rest.len() && a != b implies #[trigger] rest[a].id
        != #[trigger] rest[b].id by {
        let aa = if a < i { a } else { a + 1 };
        let bb = if b < i { b } else { b + 1 };
        assert(rest[a] == q[aa] && rest[b] == q[bb]);
        assert(q[aa].id != q[bb].id);
    }
    assert forall|x: u64| #[trigger] idx2.contains_key(x) && idx2[x] == (s, p) implies queue_has(rest, x) by {
        assert(v.index.contains_key(x));
        let j = choose|j: int| 0 <= j < q.len() && (#[trigger] q[j]).id == x;
        assert(j != i);
        let jj = if j < i { j } else { j - 1 };
        assert(rest[jj] == q[j]);
    }
    lemma_level_step(v, s, p, rest, idx2);
    assert(v.without_order(id) == BookView {
        index: idx2,
        ..v.with_side(s, if rest.len() == 0 { v.side(s).remove(p) } else { v.side(s).insert(p, rest) })
    });
}

/// What a market order does to a book: the trades of a sweep of the
/// opposite side with no limit, and that side left as the sweep leaves it.
pub open spec fn market_outcome(
    before: BookView,
    taker: usize,
    side: Side,
    volume: u64,
    trades: Seq<Trade>,
    after: BookView,
) -> bool {
    let sw = sweep(before.side(side.spec_opposite()), volume as nat, taker, side, None);
    &&& trades == sw.0
    &&& after.side(side.spec_opposite()) == sw.1
    &&& after.side(side) == before.side(side)
}

/// What a limit order `o` does to a book. With nothing open, or when its
/// level could not hold its volume, nothing. Otherwise the trades of a sweep
/// of the opposite side up to its price, that side as the sweep leaves it,
/// and what is left of `o` resting at the back of its level.
pub open spec fn limit_outcome(before: BookView, o: Order, trades: Seq<Trade>, after: BookView) -> bool {
    let opp = o.side.spec_opposite();
    let sw = sweep(before.side(opp), open_volume(o), o.agent_id, o.side, Some(o.price));
    let rested = Order { filled: (o.filled + traded_volume(sw.0)) as u64, ..o };
    if open_volume(o) == 0 || !before.fits(o) {
        &&& trades == Seq::<Trade>::empty()
        &&& after == before
    } else {
        &&& trades == sw.0
        &&& after.side(opp) == sw.1
        &&& after.side(o.side) == if rested.filled < rested.volume {
            before.side(o.side).insert(o.price, queue_at(before.side(o.side), o.price).push(rested))
        } else {
            before.side(o.side)
        }
    }
}

impl OrderBook {
    /// An empty book.
    pub fn new() -> (b: OrderBook)
        ensures
            b.wf(),
            b@.bids == Map::<u64, Seq<Order>>::empty(),
            b@.asks == Map::<u64, Seq<Order>>::empty(),
            b@.index == Map::<u64, (Side, u64)>::empty(),
    {
        let b = OrderBook { bids: BTreeMap::new(), asks: BTreeMap::new(), id_index: BTreeMap::new() };
        assert(b@.bids =~= Map::<u64, Seq<Order>>::empty());
        assert(b@.asks =~= Map::<u64, Seq<Order>>::empty());
        b
    }

    /// Appends an open order to the FIFO at its side and price, without
    /// matching, and registers its id.
    pub fn add_limit_order(&mut self, order: Order)
        requires
            old(self).wf(),
            order.filled < order.volume,
            !old(self)@.index.contains_key(order.id),
            old(self)@.fits(order),
        ensures
            final(self).wf(),
            final(self)@ == old(self)@.rest_order(order),
    {
        let ghost v = self@;
        let s = order.side;
        let p = order.price;
        let has = match s {
            Side::Buy => self.bids.contains_key(&p),
            Side::Sell => self.asks.contains_key(&p),
        };
        let mut level = if has {
            self.take_level(s, p)
        } else {
            PriceLevel { total_volume: 0, orders: VecDeque::new() }
        };
        assert(level.orders@ == queue_at(v.side(s), p));
        proof {
            lemma_queue_volume_push(level.orders@, order);
            lemma_rest_order(v, order);
        }
        level.total_volume = level.total_volume + (order.volume - order.filled);
        level.orders.push_back(order);
        self.id_index.insert(order.id, (s, p));
        self.put_level(s, p, level);
        assert(self@.side(s) =~= v.side(s).insert(p, queue_at(v.side(s), p).push(order)));
        assert(self@.side(s.spec_opposite()) =~= v.side(s.spec_opposite()));
        assert(self@ =~= v.rest_order(order));
    }

    /// Matches a market order of `volume_to_fill` units against the opposite
    /// side, best price first and in arrival order within a price, until the
    /// volume is filled or that side is empty. Nothing rests.
    pub fn process_market_order(&mut self, taker_agent_id: usize, side: Side, volume_to_fill: u64) -> (trades: Vec<Trade>)
        requires
            old(self).wf(),
        ensures
            final(self).wf(),
            market_outcome(old(self)@, taker_agent_id, side, volume_to_fill, trades@, final(self)@),
            forall|id: u64| #[trigger]
                final(self)@.index.contains_key(id) ==> old(self)@.index.contains_key(id),
    {
        let (trades, _) = self.sweep_side(taker_agent_id, side, volume_to_fill, None);
        trades
    }

    /// Matches a limit order against the opposite side at prices no worse
    /// than its own, then rests what is left of it at its price.
    ///
    /// An order with nothing open, or whose rest could push its level's
    /// total past `u64::MAX`, is dropped: no trade, nothing changes.
    pub fn process_limit_order(&mut self, order: &mut Order) -> (trades: Vec<Trade>)
        requires
            old(self).wf(),
            !old(self)@.index.contains_key(old(order).id),
        ensures
            final(self).wf(),
            limit_outcome(old(self)@, *old(order), trades@, final(self)@),
            forall|id: u64| #[trigger]
                final(self)@.index.contains_key(id) ==> old(self)@.index.contains_key(id) || id
                    == old(order).id,
            *final(order) == (Order {
                filled: (old(order).filled + traded_volume(trades@)) as u64,
                ..*old(order)
            }),
    {
        let ghost v = self@;
        if order.filled >= order.volume {
            return Vec::new();
        }
        let want = order.volume - order.filled;
        let s = order.side;
        let p = order.price;
        let level_total = match s {
            Side::Buy => match self.bids.get(&p) {
                Some(l) => l.total_volume,
                None => 0,
            },
            Side::Sell => match self.asks.get(&p) {
                Some(l) => l.total_volume,
                None => 0,
            },
        };
        assert(level_total as nat == queue_volume(queue_at(v.side(s), p)));
        if level_total > u64::MAX - want {
            return Vec::new();
        }
        let (trades, got) = self.sweep_side(order.agent_id, s, want, Some(p));
        order.filled = order.filled + got;
        if order.filled < order.volume {
            assert(queue_at(self@.side(s), p) == queue_at(v.side(s), p));
            proof {
                lemma_queue_volume_push(queue_at(v.side(s), p), *order);
            }
            let ghost mid = self@;
            self.add_limit_order(*order);
            assert(self@.side(s) == mid.side(s).insert(p, queue_at(mid.side(s), p).push(*order)));
        }
        trades
    }

    /// Cancels the resting order `order_id` if `agent_id` owns it: the order
    /// leaves its queue, its level's total drops by its open volume, an
    /// emptied level goes, and the id leaves the index. Returns whether it did.
    pub fn cancel_order(&mut self, order_id: u64, agent_id: usize) -> (r: bool)
        requires
            old(self).wf(),
        ensures
            final(self).wf(),
            r == old(self)@.owns(order_id, agent_id),
            r ==> final(self)@ == old(self)@.without_order(order_id),
            !r ==> final(self)@ == old(self)@,
    {
        let ghost v = self@;
        let loc = match self.id_index.get(&order_id) {
            None => {
                return false;
            },
            Some(l) => *l,
        };
        let s = loc.0;
        let p = loc.1;
        proof {
            lemma_without_order(v, order_id);
        }
        let ghost q = v.side(s)[p];
        let ghost pos = position_of(q, order_id);
        let level_ref = match s {
            Side::Buy => self.bids.get(&p),
            Side::Sell => self.asks.get(&p),
        };
        let level_ref = level_ref.unwrap();
        assert(level_ref.orders@ == q);
        let mut i: usize = 0;
        while i < level_ref.orders.len() && level_ref.orders[i].id != order_id
            invariant
                0 <= i <= pos,
                level_ref.orders@ == q,
                0 <= pos < q.len(),
                q[pos].id == order_id,
            decreases pos - i,
        {
            i = i + 1;
        }
        assert(queue_ok(q, s, p, v.index));
        assert(i == pos);
        if level_ref.orders[i].agent_id != agent_id {
            return false;
        }
        let mut level = self.take_level(s, p);
        proof {
            lemma_queue_volume_remove(q, pos);
        }
        let o = level.orders.remove(i).unwrap();
        level.total_volume = level.total_volume - (o.volume - o.filled);
        self.id_index.remove(&order_id);
        if level.orders.len() > 0 {
            self.put_level(s, p, level);
            assert(self@.side(s) =~= v.side(s).insert(p, q.remove(pos)));
        } else {
            assert(self@.side(s) =~= v.side(s).remove(p));
        }
        assert(self@.side(s.spec_opposite()) =~= v.side(s.spec_opposite()));
        assert(self@ =~= v.without_order(order_id));
        true
    }
}


impl OrderBook {
    /// Highest bid price, if any bid rests.
    pub fn best_bid(&self) -> (r: Option<u64>)
        ensures
            match r {
                None => self@.bids.dom() == Set::<u64>::empty(),
                Some(p) => is_best(p, self@.bids.dom(), Side::Sell),
            },
            r == top(self@.bids.dom(), Side::Sell),
    {
        let r = highest_price(&self.bids);
        assert(self@.bids.dom() =~= self.bids@.dom());
        if let Some(p) = r {
            proof {
                lemma_best_unique(p, self@.bids.dom(), Side::Sell);
            }
        }
        r
    }

    /// Lowest ask price, if any ask rests.
    pub fn best_ask(&self) -> (r: Option<u64>)
        ensures
            match r {
                None => self@.asks.dom() == Set::<u64>::empty(),
                Some(p) => is_best(p, self@.asks.dom(), Side::Buy),
            },
            r == top(self@.asks.dom(), Side::Buy),
    {
        let r = least_key(&self.asks);
        assert(self@.asks.dom() =~= self.asks@.dom());
        if let Some(p) = r {
            proof {
                lemma_best_unique(p, self@.asks.dom(), Side::Buy);
            }
        }
        r
    }
}

} // verus!
