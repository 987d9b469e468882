//! The market engine: one book per listed instrument, a counter that stamps
//! monotonic order ids, routing of agent requests to the books, and the
//! settlement of the trades of a tick.
//!
//! Prices are integer cents throughout, the last traded price included.

use std::collections::BTreeMap;
use vstd::prelude::*;
use crate::order::{Order, OrderRequest, Side, Trade};
use crate::order_book::{is_best, limit_outcome, market_outcome, BookView, OrderBook};

verus! {

broadcast use vstd::laws_cmp::group_laws_cmp;

/// A listed instrument: its id and its opening price in cents.
#[derive(Debug, Clone, Copy, PartialEq, Eq, Structural)]
pub struct Listing {
    pub stock_id: u64,
    pub initial_price: u64,
}

/// What the market did with one request.
#[derive(Debug)]
pub struct Submission {
    /// The order as stamped, for its agent to acknowledge; none for a cancel
    /// or a dropped request.
    pub order: Option<Order>,
    /// The trades the request made, in the order they were made.
    pub trades: Vec<Trade>,
    /// Whether a cancel took effect.
    pub cancelled: bool,
}

/// An inventory change for one agent from one trade.
#[derive(Debug, Clone, Copy, PartialEq, Eq, Structural)]
pub struct Fill {
    pub agent_id: usize,
    pub delta: i64,
    pub trade: Trade,
}

pub struct Market {
    listings: Vec<Listing>,
    order_books: BTreeMap<u64, OrderBook>,
    last_traded_price: BTreeMap<u64, u64>,
    cumulative_volume: BTreeMap<u64, u64>,
    order_id_counter: u64,
}

/// What a market holds.
pub struct MarketState {
    pub listings: Seq<Listing>,
    pub books: Map<u64, BookView>,
    pub last_price: Map<u64, u64>,
    pub volume: Map<u64, u64>,
    /// The last id stamped; zero before the first.
    pub counter: u64,
}

impl View for Market {
    type V = MarketState;

    closed spec fn view(&self) -> MarketState {
        MarketState {
            listings: self.listings@,
            books: Map::new(|s: u64| self.order_books@.contains_key(s), |s: u64| self.order_books@[s]@),
            last_price: self.last_traded_price@,
            volume: self.cumulative_volume@,
            counter: self.order_id_counter,
        }
    }
}

// ---------------------------------------------------------------------------
//  Model
// ---------------------------------------------------------------------------

pub open spec fn listed(ls: Seq<Listing>) -> Set<u64> {
    Set::new(|id: u64| exists|i: int| 0 <= i < ls.len() && (#[trigger] ls[i]).stock_id == id)
}

pub open spec fn distinct_ids(ls: Seq<Listing>) -> bool {
    forall|i: int, j: int|
        #![trigger ls[i], ls[j]]
        0 <= i < ls.len() && 0 <= j < ls.len() && i != j ==> ls[i].stock_id != ls[j].stock_id
}

/// Opening price of a listed instrument.
pub open spec fn opening_price(ls: Seq<Listing>, id: u64) -> u64 {
    ls[choose|i: int| 0 <= i < ls.len() && (#[trigger] ls[i]).stock_id == id].initial_price
}

pub open spec fn empty_book() -> BookView {
    BookView {
        bids: Map::<u64, Seq<Order>>::empty(),
        asks: Map::<u64, Seq<Order>>::empty(),
        index: Map::<u64, (Side, u64)>::empty(),
    }
}

/// A market as it opens: every listed book empty, every price at its
/// opening value, no volume traded, no id stamped yet.
pub open spec fn opening(ls: Seq<Listing>) -> MarketState {
    MarketState {
        listings: ls,
        books: Map::new(|s: u64| listed(ls).contains(s), |s: u64| empty_book()),
        last_price: Map::new(|s: u64| listed(ls).contains(s), |s: u64| opening_price(ls, s)),
        volume: Map::new(|s: u64| listed(ls).contains(s), |s: u64| 0u64),
        counter: 0,
    }
}

/// What submitting `req` does. A limit or market order with no volume, for
/// an instrument not listed, or once the id counter is spent, is dropped.
/// Otherwise it is stamped with the next id and matched in its book; a
/// market order carries the last traded price, for the record only. A
/// cancel takes effect in the book where its agent owns that order, if any.
pub open spec fn submitted(
    b: MarketState,
    req: OrderRequest,
    order: Option<Order>,
    trades: Seq<Trade>,
    cancelled: bool,
    a: MarketState,
) -> bool {
    match req {
        OrderRequest::LimitOrder { agent_id, stock_id, side, price, volume } => {
            if volume == 0 || !b.books.contains_key(stock_id) || b.counter == u64::MAX {
                &&& order is None
                &&& trades == Seq::<Trade>::empty()
                &&& !cancelled
                &&& a == b
            } else {
                let o = Order {
                    id: (b.counter + 1) as u64,
                    agent_id,
                    stock_id,
                    side,
                    price,
                    volume,
                    filled: 0,
                };
                &&& order == Some(o)
                &&& !cancelled
                &&& limit_outcome(b.books[stock_id], o, trades, a.books[stock_id])
                &&& a == MarketState {
                    books: b.books.insert(stock_id, a.books[stock_id]),
                    counter: (b.counter + 1) as u64,
                    ..b
                }
            }
        },
        OrderRequest::MarketOrder { agent_id, stock_id, side, volume } => {
            if volume == 0 || !b.books.contains_key(stock_id) || b.counter == u64::MAX {
                &&& order is None
                &&& trades == Seq::<Trade>::empty()
                &&& !cancelled
                &&& a == b
            } else {
                let o = Order {
                    id: (b.counter + 1) as u64,
                    agent_id,
                    stock_id,
                    side,
                    price: b.last_price[stock_id],
                    volume,
                    filled: 0,
                };
                &&& order == Some(o)
                &&& !cancelled
                &&& market_outcome(b.books[stock_id], agent_id, side, volume, trades, a.books[stock_id])
                &&& a == MarketState {
                    books: b.books.insert(stock_id, a.books[stock_id]),
                    counter: (b.counter + 1) as u64,
                    ..b
                }
            }
        },
        OrderRequest::CancelOrder { agent_id, order_id } => {
            &&& order is None
            &&& trades == Seq::<Trade>::empty()
            &&& cancelled == exists|s: u64|
                #![trigger b.books[s]]
                b.books.contains_key(s) && b.books[s].owns(order_id, agent_id)
            &&& cancelled ==> exists|s: u64|
                #![trigger b.books[s]]
                {
                    &&& b.books.contains_key(s)
                    &&& b.books[s].owns(order_id, agent_id)
                    &&& a == MarketState {
                        books: b.books.insert(s, b.books[s].without_order(order_id)),
                        ..b
                    }
                }
            &&& !cancelled ==> a == b
        },
    }
}

/// Inventory change of the taker of `t`: plus its volume for a buyer, minus
/// for a seller, the magnitude capped at `i64::MAX`.
pub open spec fn taker_delta(t: Trade) -> int {
    let m: int = if t.volume > i64::MAX { i64::MAX as int } else { t.volume as int };
    if t.taker_side == Side::Buy {
        m
    } else {
        -m
    }
}

/// Last traded prices after the trades `ts`, each listed instrument taking
/// the price of its final trade.
pub open spec fn prices_after(prices: Map<u64, u64>, ts: Seq<Trade>) -> Map<u64, u64>
    decreases ts.len(),
{
    if ts.len() == 0 {
        prices
    } else {
        let p = prices_after(prices, ts.drop_last());
        let t = ts.last();
        if p.contains_key(t.stock_id) {
            p.insert(t.stock_id, t.price)
        } else {
            p
        }
    }
}

/// Cumulative volumes after the trades `ts`, added with saturation.
pub open spec fn volumes_after(vols: Map<u64, u64>, ts: Seq<Trade>) -> Map<u64, u64>
    decreases ts.len(),
{
    if ts.len() == 0 {
        vols
    } else {
        let v = volumes_after(vols, ts.drop_last());
        let t = ts.last();
        if v.contains_key(t.stock_id) {
            v.insert(
                t.stock_id,
                if v[t.stock_id] + t.volume > u64::MAX {
                    u64::MAX
                } else {
                    (v[t.stock_id] + t.volume) as u64
                },
            )
        } else {
            v
        }
    }
}

impl Market {
    /// Books for exactly the listed instruments, each well formed, holding
    /// no id above the counter; price and volume kept for each listed one.
    pub closed spec fn wf(&self) -> bool {
        &&& distinct_ids(self.listings@)
        &&& self.order_books@.dom() == listed(self.listings@)
        &&& self.last_traded_price@.dom() == listed(self.listings@)
        &&& self.cumulative_volume@.dom() == listed(self.listings@)
        &&& forall|s: u64| #[trigger]
            self.order_books@.contains_key(s) ==> {
                &&& self.order_books@[s].wf()
                &&& forall|id: u64| #[trigger]
                    self.order_books@[s]@.index.contains_key(id) ==> id <= self.order_id_counter
            }
    }
}


fn opening_maps(listings: &Vec<Listing>) -> (r: (
    BTreeMap<u64, OrderBook>,
    BTreeMap<u64, u64>,
    BTreeMap<u64, u64>,
))
    requires
        distinct_ids(listings@),
    ensures
        r.0@.dom() == listed(listings@),
        forall|s: u64| #[trigger] r.0@.contains_key(s) ==> r.0@[s].wf() && r.0@[s]@ == empty_book(),
        r.1@ == opening(listings@).last_price,
        r.2@ == opening(listings@).volume,
{
    let ghost ls = listings@;
    let mut books: BTreeMap<u64, OrderBook> = BTreeMap::new();
    let mut prices: BTreeMap<u64, u64> = BTreeMap::new();
    let mut vols: BTreeMap<u64, u64> = BTreeMap::new();
    let mut i: usize = 0;
    while i < listings.len()
        invariant
            0 <= i <= ls.len(),
            ls == listings@,
            distinct_ids(ls),
            forall|s: u64|
                #![trigger books@.contains_key(s)]
                books@.contains_key(s) <==> exists|j: int| 0 <= j < i && (#[trigger] ls[j]).stock_id == s,
            forall|s: u64| #[trigger]
                books@.contains_key(s) ==> books@[s].wf() && books@[s]@ == empty_book(),
            forall|s: u64| #[trigger] prices@.contains_key(s) <==> books@.contains_key(s),
            forall|s: u64| #[trigger] vols@.contains_key(s) <==> books@.contains_key(s),
            forall|s: u64| #[trigger]
                prices@.contains_key(s) ==> prices@[s] == opening_price(ls, s),
            forall|s: u64| #[trigger] vols@.contains_key(s) ==> vols@[s] == 0,
        decreases ls.len() - i,
    {
        let l = listings[i];
        let ghost cur = i as int;
        assert(ls[cur] == l);
        assert(opening_price(ls, l.stock_id) == l.initial_price) by {
            let k = choose|k: int| 0 <= k < ls.len() && (#[trigger] ls[k]).stock_id == l.stock_id;
            assert(ls[k].stock_id == ls[cur].stock_id);
        }
        let b = OrderBook::new();
        assert(b@ == empty_book());
        books.insert(l.stock_id, b);
        prices.insert(l.stock_id, l.initial_price);
        vols.insert(l.stock_id, 0);
        i = i + 1;
        assert forall|s: u64| (exists|j: int| 0 <= j < i && (#[trigger] ls[j]).stock_id == s) implies #[trigger] books@.contains_key(s) by {
            let j = choose|j: int| 0 <= j < i && (#[trigger] ls[j]).stock_id == s;
            if j < cur {
            }
        }
    }
    assert(prices@ =~= opening(ls).last_price);
    assert(vols@ =~= opening(ls).volume);
    assert(books@.dom() =~= listed(ls));
    (books, prices, vols)
}

impl Market {
    /// A market over the given instruments, as it opens.
    pub fn new(listings: Vec<Listing>) -> (m: Market)
        requires
            distinct_ids(listings@),
        ensures
            m.wf(),
            m@ == opening(listings@),
    {
        let (order_books, last_traded_price, cumulative_volume) = opening_maps(&listings);
        let m = Market { listings, order_books, last_traded_price, cumulative_volume, order_id_counter: 0 };
        assert(m@.books =~= opening(m.listings@).books);
        assert(m.last_traded_price@.dom() =~= listed(m.listings@));
        assert(m.cumulative_volume@.dom() =~= listed(m.listings@));
        assert forall|s: u64| #[trigger] m.order_books@.contains_key(s) implies {
            &&& m.order_books@[s].wf()
            &&& forall|id: u64| #[trigger]
                m.order_books@[s]@.index.contains_key(id) ==> id <= m.order_id_counter
        } by {
            assert(m.order_books@[s]@ == empty_book());
        }
        m
    }

    /// Back to the opening state: empty books, opening prices, no volume,
    /// and ids counted from 1 again.
    pub fn reset(&mut self)
        requires
            old(self).wf(),
        ensures
            final(self).wf(),
            final(self)@ == opening(old(self)@.listings),
    {
        let (order_books, last_traded_price, cumulative_volume) = opening_maps(&self.listings);
        self.order_books = order_books;
        self.last_traded_price = last_traded_price;
        self.cumulative_volume = cumulative_volume;
        self.order_id_counter = 0;
        assert(self@.books =~= opening(self.listings@).books);
        assert(self.last_traded_price@.dom() =~= listed(self.listings@));
        assert(self.cumulative_volume@.dom() =~= listed(self.listings@));
        assert forall|s: u64| #[trigger] self.order_books@.contains_key(s) implies {
            &&& self.order_books@[s].wf()
            &&& forall|id: u64| #[trigger]
                self.order_books@[s]@.index.contains_key(id) ==> id <= self.order_id_counter
        } by {
            assert(self.order_books@[s]@ == empty_book());
        }
    }

    /// The book of an instrument, if it is listed.
    pub fn order_book(&self, stock_id: u64) -> (r: Option<&OrderBook>)
        requires
            self.wf(),
        ensures
            r is Some <==> self@.books.contains_key(stock_id),
            r is Some <==> listed(self@.listings).contains(stock_id),
            r is Some ==> r->0.wf() && r->0@ == self@.books[stock_id],
    {
        self.order_books.get(&stock_id)
    }

    /// Shares traded so far in an instrument, if it is listed.
    pub fn cumulative_volume(&self, stock_id: u64) -> (r: Option<u64>)
        requires
            self.wf(),
        ensures
            r == if self@.volume.contains_key(stock_id) {
                Some(self@.volume[stock_id])
            } else {
                None
            },
    {
        match self.cumulative_volume.get(&stock_id) {
            Some(v) => Some(*v),
            None => None,
        }
    }

    /// Last traded price of an instrument in cents, if it is listed.
    pub fn last_price(&self, stock_id: u64) -> (r: Option<u64>)
        requires
            self.wf(),
        ensures
            r == if self@.last_price.contains_key(stock_id) {
                Some(self@.last_price[stock_id])
            } else {
                None
            },
    {
        match self.last_traded_price.get(&stock_id) {
            Some(v) => Some(*v),
            None => None,
        }
    }

    /// The listed instrument ids, in listing order.
    pub fn stock_ids(&self) -> (r: Vec<u64>)
        ensures
            r@ == self@.listings.map_values(|l: Listing| l.stock_id),
    {
        let mut r: Vec<u64> = Vec::new();
        let mut i: usize = 0;
        while i < self.listings.len()
            invariant
                0 <= i <= self.listings@.len(),
                r@ == self.listings@.take(i as int).map_values(|l: Listing| l.stock_id),
            decreases self.listings@.len() - i,
        {
            r.push(self.listings[i].stock_id);
            i = i + 1;
            assert(r@ =~= self.listings@.take(i as int).map_values(|l: Listing| l.stock_id));
        }
        assert(self.listings@.take(i as int) =~= self.listings@);
        r
    }

    /// The last id stamped; zero before the first.
    pub fn last_order_id(&self) -> (r: u64)
        ensures
            r == self@.counter,
    {
        self.order_id_counter
    }

    fn next_order_id(&mut self) -> (id: u64)
        requires
            old(self).order_id_counter < u64::MAX,
        ensures
            id == old(self).order_id_counter + 1,
            final(self).order_id_counter == id,
            final(self).listings == old(self).listings,
            final(self).order_books == old(self).order_books,
            final(self).last_traded_price == old(self).last_traded_price,
            final(self).cumulative_volume == old(self).cumulative_volume,
    {
        self.order_id_counter = self.order_id_counter + 1;
        self.order_id_counter
    }
}


impl Market {
    /// Carries out one request of an agent, as `submitted` describes.
    pub fn submit(&mut self, request: OrderRequest) -> (r: Submission)
        requires
            old(self).wf(),
        ensures
            final(self).wf(),
            submitted(old(self)@, request, r.order, r.trades@, r.cancelled, final(self)@),
    {
        let ghost b = self@;
        match request {
            OrderRequest::LimitOrder { agent_id, stock_id, side, price, volume } => {
                if volume == 0 || !self.order_books.contains_key(&stock_id) || self.order_id_counter
                    == u64::MAX {
                    return Submission { order: None, trades: Vec::new(), cancelled: false };
                }
                let id = self.next_order_id();
                let mut o = Order { id, agent_id, stock_id, side, price, volume, filled: 0 };
                let stamped = o;
                let mut book = self.order_books.remove(&stock_id).unwrap();
                let trades = book.process_limit_order(&mut o);
                self.order_books.insert(stock_id, book);
                assert(self@.books =~= b.books.insert(stock_id, self@.books[stock_id]));
                assert(self@ == MarketState { books: b.books.insert(stock_id, self@.books[stock_id]), counter: id, ..b });
                Submission { order: Some(stamped), trades, cancelled: false }
            },
            OrderRequest::MarketOrder { agent_id, stock_id, side, volume } => {
                if volume == 0 || !self.order_books.contains_key(&stock_id) || self.order_id_counter
                    == u64::MAX {
                    return Submission { order: None, trades: Vec::new(), cancelled: false };
                }
                let px = *self.last_traded_price.get(&stock_id).unwrap();
                let id = self.next_order_id();
                let stamped = Order { id, agent_id, stock_id, side, price: px, volume, filled: 0 };
                let mut book = self.order_books.remove(&stock_id).unwrap();
                let trades = book.process_market_order(agent_id, side, volume);
                self.order_books.insert(stock_id, book);
                assert(self@.books =~= b.books.insert(stock_id, self@.books[stock_id]));
                assert(self@ == MarketState { books: b.books.insert(stock_id, self@.books[stock_id]), counter: id, ..b });
                Submission { order: Some(stamped), trades, cancelled: false }
            },
            OrderRequest::CancelOrder { agent_id, order_id } => {
                let mut i: usize = 0;
                while i < self.listings.len()
                    invariant
                        self.wf(),
                        self@ == b,
                        b == old(self)@,
                        request == (OrderRequest::CancelOrder { agent_id, order_id }),
                        0 <= i <= self.listings@.len(),
                        forall|j: int|
                            0 <= j < i ==> !(#[trigger] b.books[self.listings@[j].stock_id]).owns(
                                order_id,
                                agent_id,
                            ),
                    decreases self.listings@.len() - i,
                {
                    let sid = self.listings[i].stock_id;
                    assert(listed(self.listings@).contains(sid));
                    let mut book = self.order_books.remove(&sid).unwrap();
                    assert(book@ == b.books[sid]);
                    let done = book.cancel_order(order_id, agent_id);
                    self.order_books.insert(sid, book);
                    if done {
                        assert(b.books.contains_key(sid) && b.books[sid].owns(order_id, agent_id));
                        assert(self@.books =~= b.books.insert(sid, b.books[sid].without_order(order_id)));
                        assert(self@ == MarketState {
                            books: b.books.insert(sid, b.books[sid].without_order(order_id)),
                            ..b
                        });
                        let r = Submission { order: None, trades: Vec::new(), cancelled: true };
                        assert(r.trades@ == Seq::<Trade>::empty());
                        assert(exists|s: u64|
                            #![trigger b.books[s]]
                            b.books.contains_key(s) && b.books[s].owns(order_id, agent_id));
                        assert(exists|s: u64|
                            #![trigger b.books[s]]
                            {
                                &&& b.books.contains_key(s)
                                &&& b.books[s].owns(order_id, agent_id)
                                &&& self@ == MarketState {
                                    books: b.books.insert(s, b.books[s].without_order(order_id)),
                                    ..b
                                }
                            });
                        return r;
                    }
                    assert(self@.books =~= b.books);
                    i = i + 1;
                }
                assert forall|s: u64| #[trigger] b.books.contains_key(s) implies !b.books[s].owns(
                    order_id,
                    agent_id,
                ) by {
                    assert(listed(self.listings@).contains(s));
                    let j = choose|j: int| 0 <= j < self.listings@.len() && (#[trigger] self.listings@[j]).stock_id == s;
                    assert(!b.books[self.listings@[j].stock_id].owns(order_id, agent_id));
                }
                Submission { order: None, trades: Vec::new(), cancelled: false }
            },
        }
    }
}


fn taker_delta_of(t: &Trade) -> (d: i64)
    ensures
        d as int == taker_delta(*t),
{
    let m: i64 = if t.volume > i64::MAX as u64 {
        i64::MAX
    } else {
        t.volume as i64
    };
    match t.taker_side {
        Side::Buy => m,
        Side::Sell => -m,
    }
}

impl Market {
    /// Settles the trades of a tick, in order: for each, the taker's
    /// inventory change and then the maker's, which cancel out; and per
    /// instrument the price of its final trade and the volume traded.
    pub fn settle(&mut self, trades: &Vec<Trade>) -> (fills: Vec<Fill>)
        requires
            old(self).wf(),
        ensures
            final(self).wf(),
            final(self)@ == (MarketState {
                last_price: prices_after(old(self)@.last_price, trades@),
                volume: volumes_after(old(self)@.volume, trades@),
                ..old(self)@
            }),
            fills@ == fills_of(trades@),
            fills@.len() == 2 * trades@.len(),
            forall|k: int|
                0 <= k < trades@.len() ==> {
                    let t = #[trigger] trades@[k];
                    &&& fills@[2 * k] == (Fill { agent_id: t.taker_agent_id, delta: taker_delta(t) as i64, trade: t })
                    &&& fills@[2 * k + 1] == (Fill {
                        agent_id: t.maker_agent_id,
                        delta: (-taker_delta(t)) as i64,
                        trade: t,
                    })
                    &&& fills@[2 * k].delta + fills@[2 * k + 1].delta == 0
                },
    {
        let ghost b = self@;
        let mut fills: Vec<Fill> = Vec::new();
        let mut i: usize = 0;
        while i < trades.len()
            invariant
                self.wf(),
                0 <= i <= trades@.len(),
                self.listings@ == b.listings,
                self@.books == b.books,
                self.order_id_counter == b.counter,
                self.last_traded_price@ == prices_after(b.last_price, trades@.take(i as int)),
                self.cumulative_volume@ == volumes_after(b.volume, trades@.take(i as int)),
                fills@.len() == 2 * i,
                forall|k: int|
                    0 <= k < i ==> {
                        let t = #[trigger] trades@[k];
                        &&& fills@[2 * k] == (Fill { agent_id: t.taker_agent_id, delta: taker_delta(t) as i64, trade: t })
                        &&& fills@[2 * k + 1] == (Fill {
                            agent_id: t.maker_agent_id,
                            delta: (-taker_delta(t)) as i64,
                            trade: t,
                        })
                        &&& fills@[2 * k].delta + fills@[2 * k + 1].delta == 0
                    },
            decreases trades@.len() - i,
        {
            let t = trades[i];
            let d = taker_delta_of(&t);
            fills.push(Fill { agent_id: t.taker_agent_id, delta: d, trade: t });
            fills.push(Fill { agent_id: t.maker_agent_id, delta: -d, trade: t });
            let ghost prefix = trades@.take(i as int + 1);
            assert(prefix.drop_last() =~= trades@.take(i as int));
            assert(prefix.last() == t);
            if self.last_traded_price.contains_key(&t.stock_id) {
                self.last_traded_price.insert(t.stock_id, t.price);
                let v = *self.cumulative_volume.get(&t.stock_id).unwrap();
                let nv = if v > u64::MAX - t.volume {
                    u64::MAX
                } else {
                    v + t.volume
                };
                self.cumulative_volume.insert(t.stock_id, nv);
                assert(self.last_traded_price@.dom() =~= listed(self.listings@));
                assert(self.cumulative_volume@.dom() =~= listed(self.listings@));
            }
            i = i + 1;
            assert(self@.books =~= b.books);
        }
        assert(trades@.take(i as int) =~= trades@);
        proof {
            lemma_fills_of_index(trades@);
        }
        assert forall|m: int| 0 <= m < fills@.len() implies fills@[m] == fills_of(trades@)[m] by {
            let k = m / 2;
            assert(0 <= k < trades@.len());
            let t = trades@[k];
            if m % 2 == 0 {
                assert(m == 2 * k);
            } else {
                assert(m == 2 * k + 1);
            }
        }
        assert(fills@ =~= fills_of(trades@));
        fills
    }
}

/// Conservation of volume: a trade moves inventory from one side to the
/// other; the taker's change is plus the volume for a buyer and minus it for
/// a seller, exactly the volume whenever that fits in an `i64`, and the
/// maker's change is its negation.
pub proof fn lemma_conservation(t: Trade)
    ensures
        taker_delta(t) + (-taker_delta(t)) == 0,
        t.volume <= i64::MAX ==> (if t.taker_side == Side::Buy {
            taker_delta(t) == t.volume
        } else {
            taker_delta(t) == -t.volume
        }),
        -i64::MAX <= taker_delta(t) <= i64::MAX,
{
}

/// Monotonic ids: of two requests submitted one after the other, each of
/// which was stamped, the later one has the greater id; and no submission
/// moves the counter back.
pub proof fn lemma_ids_increase(
    b: MarketState,
    r1: OrderRequest,
    o1: Option<Order>,
    t1: Seq<Trade>,
    c1: bool,
    m: MarketState,
    r2: OrderRequest,
    o2: Option<Order>,
    t2: Seq<Trade>,
    c2: bool,
    a: MarketState,
)
    requires
        submitted(b, r1, o1, t1, c1, m),
        submitted(m, r2, o2, t2, c2, a),
    ensures
        b.counter <= m.counter <= a.counter,
        o1 is Some ==> o1->0.id == m.counter && o1->0.id > b.counter,
        o2 is Some ==> o2->0.id == a.counter && o2->0.id > m.counter,
        o1 is Some && o2 is Some ==> o1->0.id < o2->0.id,
{
}

/// After opening or a reset: every book is empty, every price is its
/// opening price, no volume has traded, and the first order stamped gets
/// id 1.
pub proof fn lemma_opening_state(
    ls: Seq<Listing>,
    req: OrderRequest,
    o: Option<Order>,
    ts: Seq<Trade>,
    c: bool,
    a: MarketState,
)
    requires
        submitted(opening(ls), req, o, ts, c, a),
    ensures
        forall|s: u64| #[trigger] opening(ls).books.contains_key(s) ==> opening(ls).books[s] == empty_book(),
        forall|s: u64| #[trigger] opening(ls).volume.contains_key(s) ==> opening(ls).volume[s] == 0,
        forall|s: u64| #[trigger]
            opening(ls).last_price.contains_key(s) ==> opening(ls).last_price[s] == opening_price(ls, s),
        o is Some ==> o->0.id == 1,
{
}


/// Mid price of a book: the mean of best bid and best ask, rounded down,
/// when both sides hold orders.
pub open spec fn mid_of(b: BookView) -> Option<u64> {
    if exists|bid: u64, ask: u64| is_best(bid, b.bids.dom(), Side::Sell) && is_best(ask, b.asks.dom(), Side::Buy) {
        let (bid, ask) = choose|bid: u64, ask: u64|
            is_best(bid, b.bids.dom(), Side::Sell) && is_best(ask, b.asks.dom(), Side::Buy);
        Some(((bid + ask) / 2) as u64)
    } else {
        None
    }
}

impl Market {
    /// Mid price of a listed instrument's book, in cents, when it has both
    /// a bid and an ask.
    pub fn mid_price(&self, stock_id: u64) -> (r: Option<u64>)
        requires
            self.wf(),
        ensures
            r == if self@.books.contains_key(stock_id) {
                mid_of(self@.books[stock_id])
            } else {
                None
            },
    {
        match self.order_books.get(&stock_id) {
            None => None,
            Some(book) => {
                let ghost b = book@;
                match (book.best_bid(), book.best_ask()) {
                    (Some(bid), Some(ask)) => {
                        proof {
                            let (b2, a2) = choose|x: u64, y: u64|
                                is_best(x, b.bids.dom(), Side::Sell) && is_best(y, b.asks.dom(), Side::Buy);
                            assert(b.bids.dom().contains(b2) && b.asks.dom().contains(a2));
                        }
                        Some(((bid as u128 + ask as u128) / 2) as u64)
                    },
                    (bb, aa) => {
                        proof {
                            if exists|x: u64, y: u64|
                                is_best(x, b.bids.dom(), Side::Sell) && is_best(y, b.asks.dom(), Side::Buy) {
                                let (x, y) = choose|x: u64, y: u64|
                                    is_best(x, b.bids.dom(), Side::Sell) && is_best(y, b.asks.dom(), Side::Buy);
                                assert(b.bids.dom().contains(x) && b.asks.dom().contains(y));
                            }
                        }
                        None
                    },
                }
            },
        }
    }

    /// Opening price of a listed instrument, in cents.
    pub fn opening_price_of(&self, stock_id: u64) -> (r: Option<u64>)
        requires
            self.wf(),
        ensures
            r == if listed(self@.listings).contains(stock_id) {
                Some(opening_price(self@.listings, stock_id))
            } else {
                None
            },
    {
        let mut i: usize = 0;
        while i < self.listings.len()
            invariant
                0 <= i <= self.listings@.len(),
                distinct_ids(self.listings@),
                forall|j: int| 0 <= j < i ==> (#[trigger] self.listings@[j]).stock_id != stock_id,
            decreases self.listings@.len() - i,
        {
            if self.listings[i].stock_id == stock_id {
                let ghost ls = self.listings@;
                proof {
                    let k = choose|k: int| 0 <= k < ls.len() && (#[trigger] ls[k]).stock_id == stock_id;
                    assert(ls[k].stock_id == ls[i as int].stock_id);
                }
                return Some(self.listings[i].initial_price);
            }
            i = i + 1;
        }
        None
    }
}


impl Market {
    /// A well-formed market has a book for each listed instrument and no other.
    pub proof fn lemma_books_listed(&self)
        requires
            self.wf(),
        ensures
            forall|s: u64| #[trigger] self@.books.contains_key(s) <==> listed(self@.listings).contains(s),
            forall|s: u64| #[trigger] self@.last_price.contains_key(s) <==> listed(self@.listings).contains(s),
    {
    }
}


/// The order a request is stamped as when submitted to `b`, if any.
pub open spec fn stamp_of(b: MarketState, req: OrderRequest) -> Option<Order> {
    match req {
        OrderRequest::LimitOrder { agent_id, stock_id, side, price, volume } => {
            if volume == 0 || !b.books.contains_key(stock_id) || b.counter == u64::MAX {
                None
            } else {
                Some(Order { id: (b.counter + 1) as u64, agent_id, stock_id, side, price, volume, filled: 0 })
            }
        },
        OrderRequest::MarketOrder { agent_id, stock_id, side, volume } => {
            if volume == 0 || !b.books.contains_key(stock_id) || b.counter == u64::MAX {
                None
            } else {
                Some(
                    Order {
                        id: (b.counter + 1) as u64,
                        agent_id,
                        stock_id,
                        side,
                        price: b.last_price[stock_id],
                        volume,
                        filled: 0,
                    },
                )
            }
        },
        OrderRequest::CancelOrder { .. } => None,
    }
}

/// A submission stamps exactly `stamp_of` its request.
pub proof fn lemma_submitted_stamps(
    b: MarketState,
    req: OrderRequest,
    order: Option<Order>,
    trades: Seq<Trade>,
    cancelled: bool,
    a: MarketState,
)
    requires
        submitted(b, req, order, trades, cancelled, a),
    ensures
        order == stamp_of(b, req),
{
}

/// A submission keeps the listings and the shape of the books' map.
pub proof fn lemma_submitted_keeps_listings(
    b: MarketState,
    req: OrderRequest,
    order: Option<Order>,
    trades: Seq<Trade>,
    cancelled: bool,
    a: MarketState,
)
    requires
        submitted(b, req, order, trades, cancelled, a),
    ensures
        a.listings == b.listings,
        a.last_price == b.last_price,
{
    match req {
        OrderRequest::CancelOrder { agent_id, order_id } => {
            if cancelled {
                let s = choose|s: u64|
                    #![trigger b.books[s]]
                    {
                        &&& b.books.contains_key(s)
                        &&& b.books[s].owns(order_id, agent_id)
                        &&& a == MarketState { books: b.books.insert(s, b.books[s].without_order(order_id)), ..b }
                    };
            }
        },
        _ => {},
    }
}

/// The fills `settle` hands out for `ts`: per trade, its taker's and then
/// its maker's.
pub open spec fn fills_of(ts: Seq<Trade>) -> Seq<Fill>
    decreases ts.len(),
{
    if ts.len() == 0 {
        Seq::empty()
    } else {
        let t = ts.last();
        fills_of(ts.drop_last()) + seq![
            Fill { agent_id: t.taker_agent_id, delta: taker_delta(t) as i64, trade: t },
            Fill { agent_id: t.maker_agent_id, delta: (-taker_delta(t)) as i64, trade: t },
        ]
    }
}

pub proof fn lemma_fills_of_index(ts: Seq<Trade>)
    ensures
        fills_of(ts).len() == 2 * ts.len(),
        forall|k: int|
            0 <= k < ts.len() ==> {
                let t = #[trigger] ts[k];
                &&& fills_of(ts)[2 * k] == (Fill { agent_id: t.taker_agent_id, delta: taker_delta(t) as i64, trade: t })
                &&& fills_of(ts)[2 * k + 1] == (Fill {
                    agent_id: t.maker_agent_id,
                    delta: (-taker_delta(t)) as i64,
                    trade: t,
                })
            },
    decreases ts.len(),
{
    if ts.len() > 0 {
        lemma_fills_of_index(ts.drop_last());
        let n = ts.len() - 1;
        assert forall|k: int| 0 <= k < ts.len() implies {
            let t = #[trigger] ts[k];
            &&& fills_of(ts)[2 * k] == (Fill { agent_id: t.taker_agent_id, delta: taker_delta(t) as i64, trade: t })
            &&& fills_of(ts)[2 * k + 1] == (Fill {
                agent_id: t.maker_agent_id,
                delta: (-taker_delta(t)) as i64,
                trade: t,
            })
        } by {
            if k < n {
                assert(ts.drop_last()[k] == ts[k]);
            }
        }
    }
}

impl Market {
    /// The order `req` would be stamped as by `submit` now.
    pub fn next_stamp(&self, req: OrderRequest) -> (r: Option<Order>)
        requires
            self.wf(),
        ensures
            r == stamp_of(self@, req),
    {
        proof {
            self.lemma_books_listed();
        }
        match req {
            OrderRequest::LimitOrder { agent_id, stock_id, side, price, volume } => {
                if volume == 0 || !self.order_books.contains_key(&stock_id) || self.order_id_counter == u64::MAX {
                    None
                } else {
                    Some(Order { id: self.order_id_counter + 1, agent_id, stock_id, side, price, volume, filled: 0 })
                }
            },
            OrderRequest::MarketOrder { agent_id, stock_id, side, volume } => {
                if volume == 0 || !self.order_books.contains_key(&stock_id) || self.order_id_counter == u64::MAX {
                    None
                } else {
                    let px = *self.last_traded_price.get(&stock_id).unwrap();
                    Some(Order { id: self.order_id_counter + 1, agent_id, stock_id, side, price: px, volume, filled: 0 })
                }
            },
            OrderRequest::CancelOrder { .. } => None,
        }
    }
}

} // verus!
