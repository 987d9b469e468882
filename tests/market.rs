use market_sim::{margin_call_orders, Fill, Listing, Market, OrderRequest, Side, Trade};

fn one_stock_market() -> Market {
    Market::new(vec![Listing { stock_id: 1, initial_price: 15_000 }])
}

fn limit(agent_id: usize, side: Side, price: u64, volume: u64) -> OrderRequest {
    OrderRequest::LimitOrder { agent_id, stock_id: 1, side, price, volume }
}

fn market_order(agent_id: usize, side: Side, volume: u64) -> OrderRequest {
    OrderRequest::MarketOrder { agent_id, stock_id: 1, side, volume }
}

fn inventory_of(fills: &[Fill], agent_id: usize) -> i64 {
    fills.iter().filter(|f| f.agent_id == agent_id).map(|f| f.delta).sum()
}

#[test]
fn simple_cross() {
    let mut m = one_stock_market();
    let mut trades: Vec<Trade> = Vec::new();
    trades.extend(m.submit(limit(1, Side::Sell, 15_000, 50)).trades);
    trades.extend(m.submit(market_order(2, Side::Buy, 30)).trades);

    assert_eq!(trades.len(), 1);
    let t = trades[0];
    assert_eq!(t.price, 15_000);
    assert_eq!(t.volume, 30);
    assert_eq!(t.taker_agent_id, 2);
    assert_eq!(t.taker_side, Side::Buy);
    assert_eq!(t.maker_agent_id, 1);

    let book = m.order_book(1).unwrap();
    let level = book.asks.get(&15_000).unwrap();
    assert_eq!(level.total_volume, 20);
    assert_eq!(level.orders.len(), 1);
    assert_eq!(level.orders[0].filled, 30);

    let fills = m.settle(&trades);
    assert_eq!(inventory_of(&fills, 1), -30);
    assert_eq!(inventory_of(&fills, 2), 30);
    assert_eq!(m.last_price(1), Some(15_000));
    assert_eq!(m.cumulative_volume(1), Some(30));
}

#[test]
fn sweep_multiple_levels() {
    let mut m = one_stock_market();
    m.submit(limit(1, Side::Sell, 100, 20));
    m.submit(limit(1, Side::Sell, 101, 30));
    m.submit(limit(1, Side::Sell, 102, 40));
    let trades = m.submit(market_order(2, Side::Buy, 100)).trades;

    let got: Vec<(u64, u64)> = trades.iter().map(|t| (t.price, t.volume)).collect();
    assert_eq!(got, vec![(100, 20), (101, 30), (102, 40)]);
    assert!(m.order_book(1).unwrap().asks.is_empty());
    assert_eq!(trades.iter().map(|t| t.volume).sum::<u64>(), 90);

    let fills = m.settle(&trades);
    assert_eq!(inventory_of(&fills, 2), 90);
    assert_eq!(m.last_price(1), Some(102));
}

#[test]
fn marketable_limit_with_price_protection() {
    let mut m = one_stock_market();
    m.submit(limit(1, Side::Sell, 100, 30));
    m.submit(limit(1, Side::Sell, 105, 30));
    let sub = m.submit(limit(2, Side::Buy, 103, 50));

    assert_eq!(sub.trades.len(), 1);
    assert_eq!((sub.trades[0].price, sub.trades[0].volume), (100, 30));
    let book = m.order_book(1).unwrap();
    let bid = book.bids.get(&103).unwrap();
    assert_eq!(bid.total_volume, 20);
    assert_eq!(bid.orders[0].agent_id, 2);
    assert_eq!(book.asks.len(), 1);
    assert_eq!(book.asks.get(&105).unwrap().total_volume, 30);
}

#[test]
fn cancel_after_partial_fill() {
    let mut m = one_stock_market();
    let posted = m.submit(limit(1, Side::Sell, 100, 100)).order.unwrap();
    m.submit(market_order(2, Side::Buy, 40));

    let first = m.submit(OrderRequest::CancelOrder { agent_id: 1, order_id: posted.id });
    assert!(first.cancelled);
    assert!(m.order_book(1).unwrap().asks.is_empty());

    let second = m.submit(OrderRequest::CancelOrder { agent_id: 1, order_id: posted.id });
    assert!(!second.cancelled);
}

#[test]
fn foreign_cancel_rejected() {
    let mut m = one_stock_market();
    let posted = m.submit(limit(1, Side::Buy, 100, 50)).order.unwrap();

    let sub = m.submit(OrderRequest::CancelOrder { agent_id: 2, order_id: posted.id });

    assert!(!sub.cancelled);
    let level = m.order_book(1).unwrap().bids.get(&100).unwrap();
    assert_eq!(level.total_volume, 50);
    assert_eq!(level.orders[0].id, posted.id);
}

#[test]
fn margin_call_liquidation_ordering() {
    let mut m = one_stock_market();
    let mut buffer: Vec<Trade> = Vec::new();

    // decisions of the tick: seed asks, and an ordinary buy by agent 3
    buffer.extend(m.submit(limit(1, Side::Sell, 100, 1000)).trades);
    buffer.extend(m.submit(market_order(3, Side::Buy, 5)).trades);
    let phase_three = buffer.len();

    // agent 2 is short 200 with cash below minus its margin
    let liquidation = margin_call_orders(2, 1, -200, -5_000_001, 5_000_000);
    assert_eq!(liquidation, vec![market_order(2, Side::Buy, 200)]);
    for req in liquidation {
        buffer.extend(m.submit(req).trades);
    }

    assert_eq!(phase_three, 1);
    assert_eq!(buffer.len(), 2);
    assert_eq!(buffer[0].taker_agent_id, 3);
    assert_eq!(buffer[1].taker_agent_id, 2);
    assert_eq!(buffer[1].taker_side, Side::Buy);
    assert_eq!(buffer[1].volume, 200);

    let fills = m.settle(&buffer);
    assert_eq!(inventory_of(&fills, 2), 200);
    assert_eq!(inventory_of(&fills, 1), -205);
}

#[test]
fn margin_call_not_triggered_within_margin() {
    assert!(margin_call_orders(2, 1, -200, -5_000_000, 5_000_000).is_empty());
    assert!(margin_call_orders(2, 1, -200, 10, 5_000_000).is_empty());
    assert!(margin_call_orders(2, 1, 0, -9_000_000, 5_000_000).is_empty());
    assert_eq!(
        margin_call_orders(4, 7, 300, -9_000_000, 5_000_000),
        vec![OrderRequest::MarketOrder { agent_id: 4, stock_id: 7, side: Side::Sell, volume: 300 }]
    );
}

#[test]
fn order_ids_strictly_increase() {
    let mut m = one_stock_market();
    let a = m.submit(limit(1, Side::Buy, 100, 5)).order.unwrap();
    m.submit(OrderRequest::CancelOrder { agent_id: 1, order_id: a.id });
    let b = m.submit(market_order(2, Side::Sell, 5)).order.unwrap();
    let c = m.submit(limit(1, Side::Sell, 120, 5)).order.unwrap();
    assert_eq!(a.id, 1);
    assert!(a.id < b.id && b.id < c.id);
    assert_eq!(m.last_order_id(), c.id);
}

#[test]
fn market_order_carries_last_price_for_the_record() {
    let mut m = one_stock_market();
    let o = m.submit(market_order(2, Side::Buy, 5)).order.unwrap();
    assert_eq!(o.price, 15_000);
    assert_eq!(o.volume, 5);
    assert_eq!(o.filled, 0);
}

#[test]
fn malformed_requests_are_dropped() {
    let mut m = one_stock_market();
    let zero = m.submit(limit(1, Side::Buy, 100, 0));
    assert!(zero.order.is_none());
    let unknown = m.submit(OrderRequest::LimitOrder { agent_id: 1, stock_id: 9, side: Side::Buy, price: 100, volume: 5 });
    assert!(unknown.order.is_none());
    let unknown_market = m.submit(OrderRequest::MarketOrder { agent_id: 1, stock_id: 9, side: Side::Buy, volume: 5 });
    assert!(unknown_market.order.is_none());
    assert_eq!(m.last_order_id(), 0);
    assert!(m.order_book(1).unwrap().bids.is_empty());
    assert!(m.order_book(9).is_none());
}

#[test]
fn reset_restores_opening_state() {
    let mut m = Market::new(vec![
        Listing { stock_id: 1, initial_price: 19_537 },
        Listing { stock_id: 2, initial_price: 42_212 },
    ]);
    m.submit(OrderRequest::LimitOrder { agent_id: 1, stock_id: 2, side: Side::Sell, price: 42_000, volume: 10 });
    let trades = m.submit(OrderRequest::MarketOrder { agent_id: 2, stock_id: 2, side: Side::Buy, volume: 4 }).trades;
    m.settle(&trades);
    assert_eq!(m.last_price(2), Some(42_000));
    assert_eq!(m.cumulative_volume(2), Some(4));

    m.reset();

    assert!(m.order_book(1).unwrap().asks.is_empty());
    assert!(m.order_book(2).unwrap().asks.is_empty());
    assert!(m.order_book(2).unwrap().id_index.is_empty());
    assert_eq!(m.last_price(1), Some(19_537));
    assert_eq!(m.last_price(2), Some(42_212));
    assert_eq!(m.cumulative_volume(1), Some(0));
    assert_eq!(m.cumulative_volume(2), Some(0));
    let first = m.submit(OrderRequest::LimitOrder { agent_id: 1, stock_id: 1, side: Side::Buy, price: 100, volume: 1 });
    assert_eq!(first.order.unwrap().id, 1);
    assert_eq!(m.stock_ids(), vec![1, 2]);
}

#[test]
fn settlement_conserves_inventory_and_tracks_each_symbol() {
    let mut m = Market::new(vec![
        Listing { stock_id: 1, initial_price: 100 },
        Listing { stock_id: 2, initial_price: 200 },
    ]);
    let t = |stock_id: u64, price: u64, volume: u64, side: Side| Trade {
        price,
        stock_id,
        volume,
        taker_agent_id: 1,
        maker_agent_id: 2,
        taker_side: side,
        maker_order_id: 9,
    };
    let trades = vec![t(1, 101, 5, Side::Buy), t(2, 205, 7, Side::Sell), t(1, 99, 3, Side::Sell)];

    let fills = m.settle(&trades);

    assert_eq!(fills.len(), 6);
    for pair in fills.chunks(2) {
        assert_eq!(pair[0].delta + pair[1].delta, 0);
        assert_eq!(pair[0].agent_id, 1);
        assert_eq!(pair[1].agent_id, 2);
    }
    assert_eq!(fills[0].delta, 5);
    assert_eq!(fills[2].delta, -7);
    assert_eq!(fills[4].delta, -3);
    assert_eq!(m.last_price(1), Some(99));
    assert_eq!(m.last_price(2), Some(205));
    assert_eq!(m.cumulative_volume(1), Some(8));
    assert_eq!(m.cumulative_volume(2), Some(7));
}

#[test]
fn settlement_saturates_huge_volumes() {
    let mut m = one_stock_market();
    let huge = Trade {
        price: 100,
        stock_id: 1,
        volume: u64::MAX,
        taker_agent_id: 1,
        maker_agent_id: 2,
        taker_side: Side::Sell,
        maker_order_id: 3,
    };
    let fills = m.settle(&vec![huge, huge]);
    assert_eq!(fills[0].delta, -i64::MAX);
    assert_eq!(fills[1].delta, i64::MAX);
    assert_eq!(m.cumulative_volume(1), Some(u64::MAX));
}
