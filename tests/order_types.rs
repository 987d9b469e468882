use market_sim::{Order, OrderRequest, Side, Trade};

#[test]
fn side_opposite_is_involution() {
    assert_eq!(Side::Buy.opposite(), Side::Sell);
    assert_eq!(Side::Sell.opposite(), Side::Buy);
    assert_eq!(Side::Buy.opposite().opposite(), Side::Buy);
    assert_eq!(Side::Sell.opposite().opposite(), Side::Sell);
}

#[test]
fn order_struct_roundtrip_copy() {
    let o = Order {
        id: 1,
        agent_id: 7,
        stock_id: 2,
        side: Side::Buy,
        price: 10_500,
        volume: 100,
        filled: 0,
    };
    let o2 = o;
    assert_eq!(o.id, o2.id);
    assert_eq!(o.side, o2.side);
}

#[test]
fn limit_and_market_order_requests_hold_stock_id() {
    let limit = OrderRequest::LimitOrder {
        agent_id: 42,
        stock_id: 3,
        side: Side::Sell,
        price: 99_99,
        volume: 50,
    };
    let market = OrderRequest::MarketOrder {
        agent_id: 42,
        stock_id: 3,
        side: Side::Buy,
        volume: 75,
    };
    match limit {
        OrderRequest::LimitOrder { stock_id, .. } => assert_eq!(stock_id, 3),
        _ => panic!("expected limit order"),
    }
    match market {
        OrderRequest::MarketOrder { stock_id, .. } => assert_eq!(stock_id, 3),
        _ => panic!("expected market order"),
    }
}

#[test]
fn trade_fields_consistent() {
    let t = Trade {
        price: 101_23,
        stock_id: 2,
        volume: 10,
        taker_agent_id: 5,
        maker_agent_id: 9,
        taker_side: Side::Buy,
        maker_order_id: 77,
    };
    assert_eq!(t.stock_id, 2);
    assert_eq!(t.price, 101_23);
    assert_eq!(t.taker_side.opposite(), Side::Sell);
}
