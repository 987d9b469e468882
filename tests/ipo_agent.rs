use market_sim::{IpoAgent, Order, OrderRequest, Side, Trade};

#[test]
fn ipo_posts_one_ladder_then_nothing() {
    let mut ipo = IpoAgent::new(0);
    let reqs = ipo.decide_actions(&vec![7, 8]);
    assert_eq!(reqs.len(), 20);
    for (i, r) in reqs.iter().enumerate() {
        assert_eq!(
            *r,
            OrderRequest::LimitOrder {
                agent_id: 0,
                stock_id: 7,
                side: Side::Sell,
                price: 15_000 + 5 * i as u64,
                volume: 50_000,
            }
        );
    }
    assert!(ipo.decide_actions(&vec![7, 8]).is_empty());
    assert!(ipo.margin_call().is_empty());
    assert!(ipo.buy_stock(7, 10).is_empty());
    assert!(ipo.sell_stock(7, 10).is_empty());
}

#[test]
fn ipo_without_listings_posts_nothing() {
    let mut ipo = IpoAgent::new(0);
    assert!(ipo.decide_actions(&Vec::new()).is_empty());
}

#[test]
fn ipo_reconciles_maker_fills() {
    let mut ipo = IpoAgent::new(3);
    let o = Order { id: 11, agent_id: 3, stock_id: 1, side: Side::Sell, price: 15_000, volume: 100, filled: 0 };
    ipo.acknowledge_order(o);
    let tr = Trade {
        price: 15_000,
        stock_id: 1,
        volume: 40,
        taker_agent_id: 5,
        maker_agent_id: 3,
        taker_side: Side::Buy,
        maker_order_id: 11,
    };
    ipo.update_portfolio(-40, &tr);
    assert_eq!(ipo.get_inventory(), 1_000_000 - 40);
    assert_eq!(ipo.get_pending_orders()[0].filled, 40);

    let rest = Trade { volume: 60, ..tr };
    ipo.update_portfolio(-60, &rest);
    assert!(ipo.get_pending_orders().is_empty());
    assert_eq!(ipo.get_inventory(), 1_000_000 - 100);
    assert_eq!(ipo.get_id(), 3);
}

#[test]
fn ipo_taker_fill_leaves_open_orders() {
    let mut ipo = IpoAgent::new(3);
    let o = Order { id: 11, agent_id: 3, stock_id: 1, side: Side::Sell, price: 15_000, volume: 100, filled: 0 };
    ipo.acknowledge_order(o);
    let tr = Trade {
        price: 15_000,
        stock_id: 1,
        volume: 75,
        taker_agent_id: 3,
        maker_agent_id: 9,
        taker_side: Side::Buy,
        maker_order_id: 11,
    };
    ipo.update_portfolio(75, &tr);
    assert_eq!(ipo.get_inventory(), 1_000_075);
    assert_eq!(ipo.get_pending_orders(), vec![o]);
    ipo.cancel_open_order(11);
    assert!(ipo.get_pending_orders().is_empty());
}
