//! Laws of the matching model that the book's operations are stated in.

use vstd::prelude::*;
use crate::order::{open_volume, Order, Side, Trade};
use crate::order_book::{
    OrderBook,
    best_price, crosses, fill_trade, is_best, lemma_best_exists, lemma_rest_order,
    lemma_traded_volume_append, position_of, queue_at, queue_volume, fill_queue, lemma_without_order, order_ok, queue_has, queue_ok, side_ok, sweep,
    traded_volume, BookView, limit_outcome, market_outcome,
};

verus! {

/// Every order of a side stands at the price of its level.
pub open spec fn priced_at_level(levels: Map<u64, Seq<Order>>) -> bool {
    forall|p: u64, i: int|
        #![trigger levels[p][i]]
        levels.contains_key(p) && 0 <= i < levels[p].len() ==> levels[p][i].price == p
}

/// Time priority: the k-th trade of a taker against one queue is with the
/// k-th order of that queue, at its price.
pub proof fn lemma_fill_queue_fifo(q: Seq<Order>, want: nat, taker: usize, side: Side)
    ensures
        fill_queue(q, want, taker, side).0.len() <= q.len(),
        forall|k: int|
            0 <= k < fill_queue(q, want, taker, side).0.len() ==> {
                let t = #[trigger] fill_queue(q, want, taker, side).0[k];
                &&& t.maker_order_id == q[k].id
                &&& t.maker_agent_id == q[k].agent_id
                &&& t.price == q[k].price
                &&& t.taker_agent_id == taker
                &&& t.taker_side == side
            },
    decreases q.len(),
{
    if want == 0 || q.len() == 0 {
    } else {
        let m = q[0];
        if want < open_volume(m) {
        } else {
            let rest = fill_queue(q.drop_first(), (want - open_volume(m)) as nat, taker, side);
            lemma_fill_queue_fifo(q.drop_first(), (want - open_volume(m)) as nat, taker, side);
            let ts = fill_queue(q, want, taker, side).0;
            assert forall|k: int| 0 < k < ts.len() implies #[trigger] ts[k] == rest.0[k - 1] by {}
        }
    }
}

/// Price priority: the trades of a sweep are all at prices of the side
/// swept, best first: never decreasing for a buyer, never increasing for a
/// seller.
pub proof fn lemma_sweep_best_first(
    levels: Map<u64, Seq<Order>>,
    want: nat,
    taker: usize,
    side: Side,
    limit: Option<u64>,
)
    requires
        priced_at_level(levels),
    ensures
        forall|k: int|
            0 <= k < sweep(levels, want, taker, side, limit).0.len() ==> levels.contains_key(
                (#[trigger] sweep(levels, want, taker, side, limit).0[k]).price,
            ),
        forall|i: int, j: int|
            0 <= i < j < sweep(levels, want, taker, side, limit).0.len() ==> {
                let a = #[trigger] sweep(levels, want, taker, side, limit).0[i];
                let b = #[trigger] sweep(levels, want, taker, side, limit).0[j];
                if side == Side::Buy {
                    a.price <= b.price
                } else {
                    a.price >= b.price
                }
            },
    decreases levels.dom().len(),
{
    let p = best_price(levels.dom(), side);
    if want == 0 || !levels.dom().finite() || !levels.contains_key(p) || !crosses(p, side, limit) {
    } else {
        let here = fill_queue(levels[p], want, taker, side);
        lemma_best_exists(levels.dom(), side);
        lemma_fill_queue_fifo(levels[p], want, taker, side);
        assert forall|k: int| 0 <= k < here.0.len() implies (#[trigger] here.0[k]).price == p by {
            assert(levels[p][k].price == p);
        }
        if here.1.len() == 0 {
            let lv2 = levels.remove(p);
            let w2 = (want - traded_volume(here.0)) as nat;
            assert(lv2.dom().len() < levels.dom().len()) by {
                assert(lv2.dom() =~= levels.dom().remove(p));
            }
            lemma_sweep_best_first(lv2, w2, taker, side, limit);
            let further = sweep(lv2, w2, taker, side, limit);
            let ts = sweep(levels, want, taker, side, limit).0;
            assert(ts == here.0 + further.0);
            assert forall|k: int| 0 <= k < further.0.len() implies (if side == Side::Buy {
                p <= (#[trigger] further.0[k]).price
            } else {
                p >= further.0[k].price
            }) by {
                assert(lv2.contains_key(further.0[k].price));
                assert(levels.dom().contains(further.0[k].price));
            }
            assert forall|k: int| 0 <= k < ts.len() implies levels.contains_key(
                (#[trigger] ts[k]).price,
            ) by {
                if k >= here.0.len() {
                    assert(ts[k] == further.0[k - here.0.len()]);
                }
            }
            assert forall|i: int, j: int| 0 <= i < j < ts.len() implies {
                let a = #[trigger] ts[i];
                let b = #[trigger] ts[j];
                if side == Side::Buy {
                    a.price <= b.price
                } else {
                    a.price >= b.price
                }
            } by {
                if j < here.0.len() {
                } else if i < here.0.len() {
                    assert(ts[j] == further.0[j - here.0.len()]);
                } else {
                    assert(ts[i] == further.0[i - here.0.len()]);
                    assert(ts[j] == further.0[j - here.0.len()]);
                }
            }
        }
    }
}

/// Idempotent cancel: once its owner has cancelled an order, a second
/// cancel of it by the same owner finds nothing, so it returns false and
/// leaves the book as it is.
pub proof fn lemma_cancel_idempotent(v: BookView, id: u64, agent: usize)
    requires
        v.wf(),
        v.owns(id, agent),
    ensures
        v.without_order(id).wf(),
        !v.without_order(id).owns(id, agent),
{
    lemma_without_order(v, id);
}

/// Two well-formed books with the same queues have the same index.
pub proof fn lemma_index_determined(a: BookView, b: BookView)
    requires
        a.wf(),
        b.wf(),
        a.bids == b.bids,
        a.asks == b.asks,
    ensures
        a.index == b.index,
{
    assert forall|id: u64| a.index.contains_key(id) implies b.index.contains_key(id) && b.index[id] == a.index[id] by {
        let loc = a.index[id];
        assert(a.index_ok());
        let q = a.side(loc.0)[loc.1];
        let i = choose|i: int| 0 <= i < q.len() && (#[trigger] q[i]).id == id;
        assert(side_ok(b.side(loc.0), loc.0, b.index));
        assert(b.side(loc.0) == a.side(loc.0));
        assert(order_ok(q[i], loc.0, loc.1, b.index));
    }
    assert forall|id: u64| b.index.contains_key(id) implies a.index.contains_key(id) by {
        let loc = b.index[id];
        assert(b.index_ok());
        let q = b.side(loc.0)[loc.1];
        let i = choose|i: int| 0 <= i < q.len() && (#[trigger] q[i]).id == id;
        assert(side_ok(a.side(loc.0), loc.0, a.index));
        assert(b.side(loc.0) == a.side(loc.0));
        assert(order_ok(q[i], loc.0, loc.1, a.index));
    }
    assert(a.index =~= b.index);
}

/// Index coherence: in a well-formed book the index holds exactly the ids
/// of the queued orders, each sent to the side and price of its level, and
/// no id is queued twice.
pub proof fn lemma_index_bijection(v: BookView)
    requires
        v.wf(),
    ensures
        forall|id: u64|
            #[trigger] v.index.contains_key(id) <==> exists|s: Side, p: u64|
                v.side(s).contains_key(p) && queue_has(v.side(s)[p], id),
        forall|s: Side, p: u64, i: int|
            #![trigger v.side(s)[p][i]]
            v.side(s).contains_key(p) && 0 <= i < v.side(s)[p].len() ==> v.index.contains_key(
                v.side(s)[p][i].id,
            ) && v.index[v.side(s)[p][i].id] == (s, p),
        forall|sa: Side, pa: u64, ia: int, sb: Side, pb: u64, ib: int|
            #![trigger v.side(sa)[pa][ia], v.side(sb)[pb][ib]]
            v.side(sa).contains_key(pa) && 0 <= ia < v.side(sa)[pa].len() && v.side(sb).contains_key(
                pb,
            ) && 0 <= ib < v.side(sb)[pb].len() && v.side(sa)[pa][ia].id == v.side(sb)[pb][ib].id
                ==> sa == sb && pa == pb && ia == ib,
{
    assert forall|s: Side, p: u64, i: int|
        v.side(s).contains_key(p) && 0 <= i < v.side(s)[p].len() implies v.index.contains_key(
        (#[trigger] v.side(s)[p][i]).id,
    ) && v.index[v.side(s)[p][i].id] == (s, p) by {
        assert(side_ok(v.side(s), s, v.index));
        assert(order_ok(v.side(s)[p][i], s, p, v.index));
    }
    assert forall|id: u64| #[trigger] v.index.contains_key(id) <==> exists|s: Side, p: u64|
        v.side(s).contains_key(p) && queue_has(v.side(s)[p], id) by {
        if v.index.contains_key(id) {
            let loc = v.index[id];
            assert(v.side(loc.0).contains_key(loc.1) && queue_has(v.side(loc.0)[loc.1], id));
        }
        if exists|s: Side, p: u64| v.side(s).contains_key(p) && queue_has(v.side(s)[p], id) {
            let (s, p) = choose|s: Side, p: u64| v.side(s).contains_key(p) && queue_has(v.side(s)[p], id);
            let i = choose|i: int| 0 <= i < v.side(s)[p].len() && (#[trigger] v.side(s)[p][i]).id == id;
            assert(v.side(s)[p][i].id == id);
        }
    }
    assert forall|sa: Side, pa: u64, ia: int, sb: Side, pb: u64, ib: int|
        v.side(sa).contains_key(pa) && 0 <= ia < v.side(sa)[pa].len() && v.side(sb).contains_key(pb)
            && 0 <= ib < v.side(sb)[pb].len() && #[trigger] v.side(sa)[pa][ia].id
            == #[trigger] v.side(sb)[pb][ib].id implies sa == sb && pa == pb && ia == ib by {
        assert(side_ok(v.side(sa), sa, v.index));
        assert(side_ok(v.side(sb), sb, v.index));
        assert(order_ok(v.side(sa)[pa][ia], sa, pa, v.index));
        assert(order_ok(v.side(sb)[pb][ib], sb, pb, v.index));
        assert(queue_ok(v.side(sa)[pa], sa, pa, v.index));
    }
}


/// Posting a limit order that crosses nothing and then cancelling it as its
/// owner gives back the book exactly as it was. `w` is the book that
/// `process_limit_order` leaves for such an order.
pub proof fn lemma_post_then_cancel(v: BookView, w: BookView, o: Order)
    requires
        v.wf(),
        w.wf(),
        !v.index.contains_key(o.id),
        o.filled < o.volume,
        v.fits(o),
        forall|p: u64| #[trigger]
            v.side(o.side.spec_opposite()).contains_key(p) ==> !crosses(p, o.side, Some(o.price)),
        w.side(o.side.spec_opposite()) == sweep(
            v.side(o.side.spec_opposite()),
            open_volume(o),
            o.agent_id,
            o.side,
            Some(o.price),
        ).1,
        w.side(o.side) == v.side(o.side).insert(o.price, queue_at(v.side(o.side), o.price).push(o)),
    ensures
        sweep(v.side(o.side.spec_opposite()), open_volume(o), o.agent_id, o.side, Some(o.price)).0
            == Seq::<Trade>::empty(),
        w.owns(o.id, o.agent_id),
        w.without_order(o.id) == v,
{
    let s = o.side;
    let opp = s.spec_opposite();
    let bp = best_price(v.side(opp).dom(), s);
    if v.side(opp).contains_key(bp) {
        assert(!crosses(bp, s, Some(o.price)));
    }
    let r = v.rest_order(o);
    lemma_rest_order(v, o);
    assert(r.side(opp) == v.side(opp));
    assert(r.bids == w.bids && r.asks == w.asks) by {
        if s == Side::Buy {
            assert(r.bids == w.side(s));
        } else {
            assert(r.asks == w.side(s));
        }
    }
    lemma_index_determined(w, r);
    assert(w == r);
    let q0 = queue_at(v.side(s), o.price);
    let q1 = q0.push(o);
    assert(r.side(s)[o.price] == q1);
    assert(r.index[o.id] == (s, o.price));
    assert(side_ok(r.side(s), s, r.index));
    assert(queue_ok(q1, s, o.price, r.index));
    assert(q1[q0.len() as int].id == o.id);
    let i = position_of(q1, o.id);
    assert(0 <= i < q1.len() && q1[i].id == o.id);
    assert(i == q0.len());
    assert(q1.remove(i) =~= q0);
    let m = if q0.len() == 0 {
        r.side(s).remove(o.price)
    } else {
        r.side(s).insert(o.price, q0)
    };
    if q0.len() == 0 {
        assert(!v.side(s).contains_key(o.price)) by {
            if v.side(s).contains_key(o.price) {
                assert(side_ok(v.side(s), s, v.index));
            }
        }
    }
    assert(m =~= v.side(s));
    assert(r.index.remove(o.id) =~= v.index);
    assert(r.without_order(o.id) == BookView { index: r.index.remove(o.id), ..r.with_side(s, m) });
}

/// A market order of `want > 0` units whose whole volume the first order of
/// the best level can take makes exactly one trade: with that order, at
/// that level's price, for `want` units.
pub proof fn lemma_market_single_fill(levels: Map<u64, Seq<Order>>, want: nat, taker: usize, side: Side)
    requires
        levels.dom().finite(),
        levels.dom().len() > 0,
        forall|p: u64| #[trigger] levels.contains_key(p) ==> levels[p].len() > 0,
        0 < want,
        want <= open_volume(levels[best_price(levels.dom(), side)][0]),
    ensures
        ({
            let p = best_price(levels.dom(), side);
            sweep(levels, want, taker, side, None).0 == seq![fill_trade(levels[p][0], want, taker, side)]
        }),
{
    lemma_best_exists(levels.dom(), side);
    let p = best_price(levels.dom(), side);
    let q = levels[p];
    let here = fill_queue(q, want, taker, side);
    if want < open_volume(q[0]) {
        assert(here.0 == seq![fill_trade(q[0], want, taker, side)]);
    } else {
        let tail = fill_queue(q.drop_first(), 0, taker, side);
        assert(here.0 =~= seq![fill_trade(q[0], want, taker, side)]);
        if here.1.len() == 0 {
            let t = fill_trade(q[0], want, taker, side);
            lemma_traded_volume_one(t);
            let rest = sweep(levels.remove(p), 0, taker, side, None);
            assert(rest.0 == Seq::<Trade>::empty());
            assert(here.0 + rest.0 =~= here.0);
        }
    }
}

proof fn lemma_traded_volume_one(t: Trade)
    ensures
        traded_volume(seq![t]) == t.volume,
{
    assert(seq![t].drop_last() =~= Seq::<Trade>::empty());
    assert(traded_volume(Seq::<Trade>::empty()) == 0);
    assert(seq![t].last() == t);
}

/// Open volume of a side, summed best price first.
pub open spec fn side_volume(levels: Map<u64, Seq<Order>>, side: Side) -> nat
    decreases levels.dom().len(),
{
    let p = best_price(levels.dom(), side);
    if !levels.dom().finite() || !levels.contains_key(p) {
        0
    } else {
        queue_volume(levels[p]) + side_volume(levels.remove(p), side)
    }
}

proof fn lemma_fill_queue_volume(q: Seq<Order>, want: nat, taker: usize, side: Side)
    requires
        queue_volume(q) <= u64::MAX,
    ensures
        ({
            let f = fill_queue(q, want, taker, side);
            &&& traded_volume(f.0) == if want <= queue_volume(q) { want } else { queue_volume(q) }
            &&& f.1.len() == 0 ==> traded_volume(f.0) == queue_volume(q)
            &&& f.1.len() > 0 ==> traded_volume(f.0) == want
            &&& want > 0 && q.len() > 0 ==> f.0.len() >= 1
        }),
    decreases q.len(),
{
    if want == 0 || q.len() == 0 {
        assert(traded_volume(Seq::<Trade>::empty()) == 0);
        if q.len() == 0 {
            assert(queue_volume(q) == 0);
        }
    } else {
        let m = q[0];
        let avail = open_volume(m);
        if want < avail {
            let t = fill_trade(m, want, taker, side);
            lemma_traded_volume_one(t);
        } else {
            lemma_fill_queue_volume(q.drop_first(), (want - avail) as nat, taker, side);
            let rest = fill_queue(q.drop_first(), (want - avail) as nat, taker, side);
            let t = fill_trade(m, avail, taker, side);
            lemma_traded_volume_one(t);
            lemma_traded_volume_append(seq![t], rest.0);
        }
    }
}

/// A market order of `want` units fills `min(want, open volume of the side)`,
/// and makes at least one trade for every level it empties.
pub proof fn lemma_market_sweep_volume(levels: Map<u64, Seq<Order>>, want: nat, taker: usize, side: Side)
    requires
        levels.dom().finite(),
        forall|p: u64| #[trigger] levels.contains_key(p) ==> levels[p].len() > 0 && queue_volume(levels[p]) <= u64::MAX,
    ensures
        ({
            let sw = sweep(levels, want, taker, side, None);
            &&& traded_volume(sw.0) == if want <= side_volume(levels, side) { want } else { side_volume(levels, side) }
            &&& sw.1.dom().finite()
            &&& sw.1.dom().subset_of(levels.dom())
            &&& sw.0.len() >= levels.dom().len() - sw.1.dom().len()
        }),
    decreases levels.dom().len(),
{
    let p = best_price(levels.dom(), side);
    if levels.dom().len() > 0 {
        lemma_best_exists(levels.dom(), side);
    } else {
        assert(!levels.contains_key(p));
    }
    if want == 0 || !levels.contains_key(p) {
        assert(traded_volume(Seq::<Trade>::empty()) == 0);
    } else {
        let q = levels[p];
        let here = fill_queue(q, want, taker, side);
        lemma_fill_queue_volume(q, want, taker, side);
        if here.1.len() == 0 {
            let lv2 = levels.remove(p);
            let w2 = (want - traded_volume(here.0)) as nat;
            assert(lv2.dom() =~= levels.dom().remove(p));
            lemma_market_sweep_volume(lv2, w2, taker, side);
            let further = sweep(lv2, w2, taker, side, None);
            lemma_traded_volume_append(here.0, further.0);
        } else {
            assert(levels.insert(p, here.1).dom() =~= levels.dom());
        }
    }
}


/// What every operation of the book preserves, spelled out: each live
/// level's `total_volume` is the open volume `volume - filled` of its queue,
/// no level is empty, and no closed order (`filled == volume`) is queued.
pub proof fn lemma_book_invariants(b: &OrderBook)
    requires
        b.wf(),
    ensures
        forall|p: u64| #[trigger]
            b.bids@.contains_key(p) ==> b.bids@[p].total_volume as nat == queue_volume(b.bids@[p].orders@)
                && b.bids@[p].orders@.len() > 0,
        forall|p: u64| #[trigger]
            b.asks@.contains_key(p) ==> b.asks@[p].total_volume as nat == queue_volume(b.asks@[p].orders@)
                && b.asks@[p].orders@.len() > 0,
        forall|s: Side, p: u64, i: int|
            #![trigger b@.side(s)[p][i]]
            b@.side(s).contains_key(p) && 0 <= i < b@.side(s)[p].len() ==> b@.side(s)[p][i].filled
                < b@.side(s)[p][i].volume,
{
    assert forall|p: u64| #[trigger] b.bids@.contains_key(p) implies b.bids@[p].orders@.len() > 0 by {
        assert(b@.bids.contains_key(p));
    }
    assert forall|p: u64| #[trigger] b.asks@.contains_key(p) implies b.asks@[p].orders@.len() > 0 by {
        assert(b@.asks.contains_key(p));
    }
    assert forall|s: Side, p: u64, i: int|
        b@.side(s).contains_key(p) && 0 <= i < b@.side(s)[p].len() implies (#[trigger] b@.side(s)[p][i]).filled
        < b@.side(s)[p][i].volume by {
        assert(side_ok(b@.side(s), s, b@.index));
        assert(order_ok(b@.side(s)[p][i], s, p, b@.index));
    }
}


/// In a well-formed book every order stands at the price of its level.
pub proof fn lemma_wf_priced(v: BookView)
    requires
        v.wf(),
    ensures
        priced_at_level(v.bids),
        priced_at_level(v.asks),
{
    assert forall|p: u64, i: int| v.bids.contains_key(p) && 0 <= i < v.bids[p].len() implies (#[trigger] v.bids[p][i]).price == p by {
        assert(queue_ok(v.bids[p], Side::Buy, p, v.index));
        assert(order_ok(v.bids[p][i], Side::Buy, p, v.index));
    }
    assert forall|p: u64, i: int| v.asks.contains_key(p) && 0 <= i < v.asks[p].len() implies (#[trigger] v.asks[p][i]).price == p by {
        assert(queue_ok(v.asks[p], Side::Sell, p, v.index));
        assert(order_ok(v.asks[p][i], Side::Sell, p, v.index));
    }
}

/// `p` is a strictly better price than `q` for a taker on `side`.
pub open spec fn better(p: u64, q: u64, side: Side) -> bool {
    if side == Side::Buy {
        p < q
    } else {
        p > q
    }
}

/// Price priority, second half: after a sweep, no level of the side swept
/// that was strictly better than the price of any of its trades is left,
/// and no level appears that was not there.
pub proof fn lemma_sweep_clears_better(
    levels: Map<u64, Seq<Order>>,
    want: nat,
    taker: usize,
    side: Side,
    limit: Option<u64>,
)
    requires
        priced_at_level(levels),
    ensures
        sweep(levels, want, taker, side, limit).1.dom().subset_of(levels.dom()),
        forall|k: int, p: u64|
            0 <= k < sweep(levels, want, taker, side, limit).0.len() && levels.contains_key(p) && better(
                p,
                (#[trigger] sweep(levels, want, taker, side, limit).0[k]).price,
                side,
            ) ==> !(#[trigger] sweep(levels, want, taker, side, limit).1.contains_key(p)),
    decreases levels.dom().len(),
{
    let p0 = best_price(levels.dom(), side);
    if want == 0 || !levels.dom().finite() || !levels.contains_key(p0) || !crosses(p0, side, limit) {
    } else {
        lemma_best_exists(levels.dom(), side);
        let here = fill_queue(levels[p0], want, taker, side);
        lemma_fill_queue_fifo(levels[p0], want, taker, side);
        assert forall|k: int| 0 <= k < here.0.len() implies (#[trigger] here.0[k]).price == p0 by {
            assert(levels[p0][k].price == p0);
        }
        let sw = sweep(levels, want, taker, side, limit);
        if here.1.len() == 0 {
            let lv2 = levels.remove(p0);
            let w2 = (want - traded_volume(here.0)) as nat;
            assert(lv2.dom().len() < levels.dom().len()) by {
                assert(lv2.dom() =~= levels.dom().remove(p0));
            }
            lemma_sweep_clears_better(lv2, w2, taker, side, limit);
            let further = sweep(lv2, w2, taker, side, limit);
            assert(sw.0 == here.0 + further.0);
            assert forall|k: int, p: u64|
                0 <= k < sw.0.len() && levels.contains_key(p) && better(p, (#[trigger] sw.0[k]).price, side)
                implies !(#[trigger] sw.1.contains_key(p)) by {
                if k < here.0.len() {
                    assert(sw.0[k].price == p0);
                } else {
                    assert(sw.0[k] == further.0[k - here.0.len()]);
                    if p != p0 {
                        assert(lv2.contains_key(p));
                    }
                }
            }
        } else {
            assert forall|k: int, p: u64|
                0 <= k < sw.0.len() && levels.contains_key(p) && better(p, (#[trigger] sw.0[k]).price, side)
                implies !(#[trigger] sw.1.contains_key(p)) by {
                assert(sw.0[k].price == p0);
            }
            assert(sw.1.dom() =~= levels.dom());
        }
    }
}


/// How many of the trades `ts` are at price `p`.
pub open spec fn count_at(ts: Seq<Trade>, p: u64) -> nat
    decreases ts.len(),
{
    if ts.len() == 0 {
        0
    } else {
        count_at(ts.drop_last(), p) + if ts.last().price == p { 1nat } else { 0nat }
    }
}

proof fn lemma_count_at_concat(a: Seq<Trade>, b: Seq<Trade>, p: u64)
    ensures
        count_at(a + b, p) == count_at(a, p) + count_at(b, p),
    decreases b.len(),
{
    if b.len() == 0 {
        assert(a + b =~= a);
    } else {
        lemma_count_at_concat(a, b.drop_last(), p);
        assert((a + b).drop_last() =~= a + b.drop_last());
    }
}

proof fn lemma_count_at_uniform(a: Seq<Trade>, k: int, p: u64)
    requires
        0 <= k <= a.len(),
        forall|i: int| 0 <= i < a.len() ==> (#[trigger] a[i]).price == p,
    ensures
        count_at(a.take(k), p) == k,
    decreases k,
{
    if k > 0 {
        lemma_count_at_uniform(a, k - 1, p);
        assert(a.take(k).drop_last() =~= a.take(k - 1));
    } else {
        assert(a.take(0) =~= Seq::<Trade>::empty());
    }
}

proof fn lemma_count_at_none(a: Seq<Trade>, p: u64)
    requires
        forall|i: int| 0 <= i < a.len() ==> (#[trigger] a[i]).price != p,
    ensures
        count_at(a, p) == 0,
    decreases a.len(),
{
    if a.len() > 0 {
        lemma_count_at_none(a.drop_last(), p);
    }
}

/// Time priority over a whole sweep: each trade is with the order of its
/// price's old queue that comes right after those the earlier trades at
/// that price were with, so the trades at one price take a prefix of its
/// queue in arrival order, each order once.
#[verifier::rlimit(80)]
pub proof fn lemma_sweep_fifo(levels: Map<u64, Seq<Order>>, want: nat, taker: usize, side: Side, limit: Option<u64>)
    requires
        priced_at_level(levels),
    ensures
        forall|k: int|
            0 <= k < sweep(levels, want, taker, side, limit).0.len() ==> {
                let t = #[trigger] sweep(levels, want, taker, side, limit).0[k];
                let ts = sweep(levels, want, taker, side, limit).0;
                let q = levels[t.price];
                let j = count_at(ts.take(k), t.price) as int;
                &&& levels.contains_key(t.price)
                &&& 0 <= j < q.len()
                &&& q[j].id == t.maker_order_id
                &&& q[j].agent_id == t.maker_agent_id
            },
    decreases levels.dom().len(),
{
    let p0 = best_price(levels.dom(), side);
    if want == 0 || !levels.dom().finite() || !levels.contains_key(p0) || !crosses(p0, side, limit) {
    } else {
        lemma_best_exists(levels.dom(), side);
        let q0 = levels[p0];
        let here = fill_queue(q0, want, taker, side);
        lemma_fill_queue_fifo(q0, want, taker, side);
        assert forall|k: int| 0 <= k < here.0.len() implies (#[trigger] here.0[k]).price == p0 by {
            assert(q0[k].price == p0);
        }
        let ts = sweep(levels, want, taker, side, limit).0;
        if here.1.len() == 0 {
            let lv2 = levels.remove(p0);
            let w2 = (want - traded_volume(here.0)) as nat;
            assert(lv2.dom().len() < levels.dom().len()) by {
                assert(lv2.dom() =~= levels.dom().remove(p0));
            }
            lemma_sweep_fifo(lv2, w2, taker, side, limit);
            lemma_sweep_best_first(lv2, w2, taker, side, limit);
            let further = sweep(lv2, w2, taker, side, limit).0;
            assert(ts == here.0 + further);
            assert forall|k: int| 0 <= k < ts.len() implies {
                let t = #[trigger] ts[k];
                let q = levels[t.price];
                let j = count_at(ts.take(k), t.price) as int;
                &&& levels.contains_key(t.price)
                &&& 0 <= j < q.len()
                &&& q[j].id == t.maker_order_id
                &&& q[j].agent_id == t.maker_agent_id
            } by {
                let h = here.0.len() as int;
                if k < h {
                    assert(ts.take(k) =~= here.0.take(k));
                    lemma_count_at_uniform(here.0, k, p0);
                    assert(ts[k] == here.0[k]);
                } else {
                    let t = ts[k];
                    assert(t == further[k - h]);
                    assert(lv2.contains_key(t.price));
                    assert(t.price != p0);
                    assert(ts.take(k) =~= here.0 + further.take(k - h));
                    lemma_count_at_concat(here.0, further.take(k - h), t.price);
                    lemma_count_at_none(here.0, t.price);
                    assert(lv2[t.price] == levels[t.price]);
                }
            }
        } else {
            assert forall|k: int| 0 <= k < ts.len() implies {
                let t = #[trigger] ts[k];
                let q = levels[t.price];
                let j = count_at(ts.take(k), t.price) as int;
                &&& levels.contains_key(t.price)
                &&& 0 <= j < q.len()
                &&& q[j].id == t.maker_order_id
                &&& q[j].agent_id == t.maker_agent_id
            } by {
                lemma_count_at_uniform(here.0, k, p0);
                assert(ts[k] == here.0[k]);
            }
        }
    }
}


/// Price-time priority of a taker on `side` against `opp`, the opposite
/// side before, leaving `rest`: trade prices never get worse; no level
/// strictly better than a trade's price is left; and the trades at each
/// price take its old queue's orders in arrival order from the front.
pub open spec fn priority_kept(opp: Map<u64, Seq<Order>>, side: Side, trades: Seq<Trade>, rest: Map<u64, Seq<Order>>) -> bool {
    &&& forall|i: int, j: int|
        0 <= i < j < trades.len() ==> (if side == Side::Buy {
            (#[trigger] trades[i]).price <= (#[trigger] trades[j]).price
        } else {
            trades[i].price >= trades[j].price
        })
    &&& forall|k: int, p: u64|
        0 <= k < trades.len() && opp.contains_key(p) && better(p, (#[trigger] trades[k]).price, side) ==> !(
        #[trigger] rest.contains_key(p))
    &&& forall|k: int|
        0 <= k < trades.len() ==> {
            let t = #[trigger] trades[k];
            let j = count_at(trades.take(k), t.price) as int;
            &&& opp.contains_key(t.price)
            &&& 0 <= j < opp[t.price].len()
            &&& opp[t.price][j].id == t.maker_order_id
        }
}

proof fn lemma_sweep_priority(opp: Map<u64, Seq<Order>>, want: nat, taker: usize, side: Side, limit: Option<u64>)
    requires
        priced_at_level(opp),
    ensures
        priority_kept(opp, side, sweep(opp, want, taker, side, limit).0, sweep(opp, want, taker, side, limit).1),
{
    lemma_sweep_best_first(opp, want, taker, side, limit);
    lemma_sweep_clears_better(opp, want, taker, side, limit);
    lemma_sweep_fifo(opp, want, taker, side, limit);
}

/// A market order keeps price-time priority (see `priority_kept`).
pub proof fn lemma_market_order_priority(
    before: BookView,
    taker: usize,
    side: Side,
    volume: u64,
    trades: Seq<Trade>,
    after: BookView,
)
    requires
        before.wf(),
        market_outcome(before, taker, side, volume, trades, after),
    ensures
        priority_kept(before.side(side.spec_opposite()), side, trades, after.side(side.spec_opposite())),
{
    lemma_wf_priced(before);
    lemma_sweep_priority(before.side(side.spec_opposite()), volume as nat, taker, side, None);
}

/// A limit order keeps price-time priority against the side it meets (see
/// `priority_kept`).
pub proof fn lemma_limit_order_priority(before: BookView, o: Order, trades: Seq<Trade>, after: BookView)
    requires
        before.wf(),
        limit_outcome(before, o, trades, after),
    ensures
        priority_kept(before.side(o.side.spec_opposite()), o.side, trades, after.side(o.side.spec_opposite())),
{
    lemma_wf_priced(before);
    let opp = o.side.spec_opposite();
    lemma_sweep_priority(before.side(opp), open_volume(o), o.agent_id, o.side, Some(o.price));
    if open_volume(o) == 0 || !before.fits(o) {
        assert(trades == Seq::<Trade>::empty());
    }
}

} // verus!
