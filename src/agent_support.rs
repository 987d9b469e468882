//! What the agent archetypes share: random draws from the thread-local
//! generator, the ledger of open orders an agent keeps, and its cash and
//! inventory arithmetic. Cash is in cents, in an `i64`, and saturates.

use std::collections::BTreeMap;
use vstd::prelude::*;
use crate::order::{Order, Trade};

verus! {

broadcast use vstd::laws_cmp::group_laws_cmp;

/// Relies on rand::Rng::gen_range with the thread-local generator: a value
/// of `lo..=hi` (it panics on an empty range, which `requires` rules out).
#[verifier::external_body]
pub(crate) fn random_in(lo: u64, hi: u64) -> (r: u64)
    requires
        lo <= hi,
    ensures
        lo <= r <= hi,
{
    rand::Rng::gen_range(&mut rand::thread_rng(), lo..=hi)
}

/// Relies on rand::Rng::gen_ratio with the thread-local generator: true
/// with probability `num / den`, so never for `num == 0` and always for
/// `num == den` (it panics unless `0 < den` and `num <= den`).
#[verifier::external_body]
pub(crate) fn random_ratio(num: u32, den: u32) -> (r: bool)
    requires
        0 < den,
        num <= den,
    ensures
        num == 0 ==> !r,
        num == den ==> r,
{
    rand::Rng::gen_ratio(&mut rand::thread_rng(), num, den)
}

/// Relies on rand::seq::SliceRandom::choose with the thread-local
/// generator: one of the elements, none when there is none.
#[verifier::external_body]
pub(crate) fn random_pick(ids: &Vec<u64>) -> (r: Option<u64>)
    ensures
        match r {
            None => ids@.len() == 0,
            Some(x) => ids@.contains(x),
        },
{
    rand::seq::SliceRandom::choose(ids.as_slice(), &mut rand::thread_rng()).copied()
}

/// `x` held within the range of `i64`.
pub open spec fn clamp_i64(x: int) -> i64 {
    if x > i64::MAX {
        i64::MAX
    } else if x < i64::MIN {
        i64::MIN
    } else {
        x as i64
    }
}

pub(crate) fn saturate(x: i128) -> (r: i64)
    ensures
        r == clamp_i64(x as int),
{
    if x > i64::MAX as i128 {
        i64::MAX
    } else if x < i64::MIN as i128 {
        i64::MIN
    } else {
        x as i64
    }
}

/// Cash in cents after a fill of `vol` shares at `price` cents: a buy
/// (`vol > 0`) pays, a sell receives.
pub open spec fn cash_after(cash: i64, vol: i64, price: u64) -> i64 {
    clamp_i64(cash - vol * price)
}

pub(crate) fn pay_for_fill(cash: i64, vol: i64, price: u64) -> (r: i64)
    ensures
        r == cash_after(cash, vol, price),
{
    assert(vol * price <= i64::MAX * 0xffff_ffff_ffff_ffff) by (nonlinear_arith)
        requires
            i64::MIN <= vol <= i64::MAX,
            0 <= price <= u64::MAX,
    ;
    assert(vol * price >= i64::MIN * 0xffff_ffff_ffff_ffff) by (nonlinear_arith)
        requires
            i64::MIN <= vol <= i64::MAX,
            0 <= price <= u64::MAX,
    ;
    saturate(cash as i128 - vol as i128 * price as i128)
}

/// Open orders after a fill: when `t` fills one of agent `me`'s open
/// orders as maker, that order's `filled` grows by the trade's volume, and
/// the order goes once it is complete.
pub open spec fn reconcile(open: Map<u64, Order>, me: usize, t: Trade) -> Map<u64, Order> {
    if t.maker_agent_id == me && open.contains_key(t.maker_order_id) {
        let o = open[t.maker_order_id];
        if o.filled + t.volume >= o.volume {
            open.remove(t.maker_order_id)
        } else {
            open.insert(t.maker_order_id, Order { filled: (o.filled + t.volume) as u64, ..o })
        }
    } else {
        open
    }
}

pub(crate) fn reconcile_fill(open: &mut BTreeMap<u64, Order>, me: usize, tr: &Trade)
    ensures
        final(open)@ == reconcile(old(open)@, me, *tr),
{
    if tr.maker_agent_id == me {
        match open.get(&tr.maker_order_id) {
            Some(o) => {
                let o = *o;
                if o.filled >= o.volume || tr.volume >= o.volume - o.filled {
                    open.remove(&tr.maker_order_id);
                } else {
                    open.insert(tr.maker_order_id, Order { filled: o.filled + tr.volume, ..o });
                }
            },
            None => {},
        }
    }
}

/// The ledger's orders in increasing id order.
pub open spec fn listed_in_order(open: Map<u64, Order>, r: Seq<Order>) -> bool {
    exists|ks: Seq<u64>|
        {
            &&& ks.no_duplicates()
            &&& ks.to_set() == open.dom()
            &&& r == ks.map_values(|k: u64| open[k])
        }
}

pub(crate) fn orders_of(open: &BTreeMap<u64, Order>) -> (r: Vec<Order>)
    ensures
        listed_in_order(open@, r@),
{
    let mut r: Vec<Order> = Vec::new();
    let values = open.values();
    let ghost ks = choose|ks: Seq<u64>|
        {
            &&& ks.to_set() == open@.dom()
            &&& ks.no_duplicates()
            &&& vstd::std_specs::iter::IteratorSpec::remaining(&values) == ks.map(
                |i: int, k: u64| &open@[k],
            )
        };
    for o in it: values
        invariant
            it.seq() == ks.map(|i: int, k: u64| &open@[k]),
            r@.len() == it.index(),
            forall|j: int| 0 <= j < r@.len() ==> r@[j] == *it.seq()[j],
    {
        r.push(*o);
    }
    assert(r@ =~= ks.map_values(|k: u64| open@[k]));
    r
}


/// The keys of a map, each once.
pub(crate) fn keys_of<V>(m: &BTreeMap<u64, V>) -> (r: Vec<u64>)
    ensures
        r@.no_duplicates(),
        r@.to_set() == m@.dom(),
{
    let mut r: Vec<u64> = Vec::new();
    let keys = m.keys();
    let ghost rem = vstd::std_specs::iter::IteratorSpec::remaining(&keys);
    for k in it: keys
        invariant
            it.seq() == rem,
            rem.unref().to_set() == m@.dom(),
            rem.no_duplicates(),
            r@.len() == it.index(),
            forall|j: int| 0 <= j < r@.len() ==> r@[j] == *it.seq()[j],
    {
        r.push(*k);
    }
    assert(r@ =~= rem.unref());
    assert(r@.no_duplicates()) by {
        assert forall|i: int, j: int| 0 <= i < r@.len() && 0 <= j < r@.len() && i != j implies r@[i] != r@[j] by {
            assert(rem[i] != rem[j]);
        }
    }
    r
}

} // verus!
