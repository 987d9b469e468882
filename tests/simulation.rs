use market_sim::{AgentType, Listing, Simulation};

#[test]
fn ipo_ladder_rests_after_first_step() {
    let mut sim = Simulation::new(&vec![AgentType::IPO], vec![Listing { stock_id: 1, initial_price: 15_000 }]);
    let px = sim.step();
    assert_eq!(px, Some(15_000));
    let book = sim.market().order_book(1).unwrap();
    assert_eq!(book.asks.len(), 20);
    assert_eq!(book.asks.get(&15_000).unwrap().total_volume, 50_000);
    assert_eq!(sim.market().last_order_id(), 20);
    assert_eq!(sim.total_inventory(), 1_000_000);
}

#[test]
fn simulation_reset_restarts_everything() {
    let mut sim = Simulation::new(
        &vec![AgentType::IPO, AgentType::MarketMaker, AgentType::DumbMarket, AgentType::DumbLimit, AgentType::WhaleAgent],
        vec![Listing { stock_id: 1, initial_price: 15_000 }, Listing { stock_id: 2, initial_price: 42_212 }],
    );
    for _ in 0..30 {
        sim.step();
    }
    sim.reset();
    let m = sim.market();
    assert_eq!(m.last_order_id(), 0);
    assert!(m.order_book(1).unwrap().asks.is_empty());
    assert!(m.order_book(2).unwrap().bids.is_empty());
    assert_eq!(m.cumulative_volume(1), Some(0));
    assert_eq!(m.last_price(2), Some(42_212));
}
