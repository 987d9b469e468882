use market_sim::dumb_agent::{retail_orders, DumbAgent};
use market_sim::dumb_limit_agent::{limit_orders, DumbLimitAgent};
use market_sim::market_maker::{clamp, quote, seed_liquidity, MarketMakerAgent};
use market_sim::whale_agent::{whale_turn, WhaleAgent};
use market_sim::{Listing, Market, Order, OrderRequest, Side, Trade};

fn lim(agent_id: usize, stock_id: u64, side: Side, price: u64, volume: u64) -> OrderRequest {
    OrderRequest::LimitOrder { agent_id, stock_id, side, price, volume }
}

fn trade_against(maker: usize, maker_order_id: u64, volume: u64) -> Trade {
    Trade { price: 15_000, stock_id: 1, volume, taker_agent_id: 2, maker_agent_id: maker, taker_side: Side::Buy, maker_order_id }
}

#[test]
fn clamp_holds_prices_in_band() {
    assert_eq!(clamp(-5), 100);
    assert_eq!(clamp(99), 100);
    assert_eq!(clamp(12_345), 12_345);
    assert_eq!(clamp(300_001), 300_000);
}

#[test]
fn quote_two_sided_around_mid() {
    let r = quote(4, 1, Some(14_990), Some(15_010), 0, 7_000, 2_000);
    assert_eq!(r, vec![lim(4, 1, Side::Buy, 14_988, 2_000), lim(4, 1, Side::Sell, 15_012, 2_000)]);
}

#[test]
fn quote_skews_against_inventory() {
    let r = quote(4, 1, None, None, 300_000, 7_000, 2_000);
    assert_eq!(r, vec![lim(4, 1, Side::Buy, 14_985, 2_000), lim(4, 1, Side::Sell, 15_009, 2_000)]);
    let short = quote(4, 1, None, None, -250_000, 7_000, 2_000);
    assert_eq!(short, vec![lim(4, 1, Side::Buy, 14_990, 2_000), lim(4, 1, Side::Sell, 15_014, 2_000)]);
}

#[test]
fn quote_fills_a_missing_side() {
    assert_eq!(quote(4, 1, Some(15_000), None, 0, 7_000, 2_000), vec![lim(4, 1, Side::Sell, 15_001, 7_000)]);
    assert_eq!(quote(4, 1, None, Some(15_000), 0, 7_000, 2_000), vec![lim(4, 1, Side::Buy, 14_999, 7_000)]);
}

#[test]
fn quote_stays_out_of_locked_or_tight_books() {
    assert!(quote(4, 1, Some(15_000), Some(15_000), 0, 7_000, 2_000).is_empty());
    assert!(quote(4, 1, Some(15_000), Some(15_002), 10_000_000, 7_000, 2_000).is_empty());
}

#[test]
fn seeding_ladder_decays() {
    let r = seed_liquidity(4, 1, 15_000, 100_000_000);
    assert_eq!(r.len(), 20);
    assert_eq!(r[0], lim(4, 1, Side::Buy, 14_988, 30_706));
    assert_eq!(r[1], lim(4, 1, Side::Sell, 15_012, 30_706));
    assert_eq!(r[2], lim(4, 1, Side::Buy, 14_983, 27_635));
    assert_eq!(r[19], lim(4, 1, Side::Sell, 15_057, 11_893));
}

#[test]
fn market_maker_warms_up_then_seeds_once() {
    let m = Market::new(vec![Listing { stock_id: 1, initial_price: 15_000 }]);
    let mut mm = MarketMakerAgent::new(4);
    assert!(mm.decide_actions(&m).is_empty());
    assert!(mm.decide_actions(&m).is_empty());
    let seed = mm.decide_actions(&m);
    assert_eq!(seed, seed_liquidity(4, 1, 15_000, 100_000_000));
    let next = mm.decide_actions(&m);
    assert_eq!(next.len(), 2);
    match next[0] {
        OrderRequest::LimitOrder { side, price, volume, .. } => {
            assert_eq!(side, Side::Buy);
            assert_eq!(price, 13_988);
            assert!((1_000..=10_000).contains(&volume));
        }
        _ => panic!("expected a limit order"),
    }
}

#[test]
fn maker_partial_fill_updates_open_order() {
    let mut mm = MarketMakerAgent::new(1);
    mm.acknowledge_order(Order { id: 101, agent_id: 1, stock_id: 1, side: Side::Sell, price: 15_000, volume: 100, filled: 0 });
    mm.update_portfolio(-40, &trade_against(1, 101, 40));
    let open = mm.get_pending_orders();
    assert_eq!(open.len(), 1);
    assert_eq!(open[0].filled, 40);
    assert_eq!(mm.get_inventory(), 100_000_000 - 40);
    assert_eq!(mm.get_cash(), 10_000_000_000_000 + 40 * 15_000);
}

#[test]
fn maker_full_fill_removes_order() {
    let mut mm = MarketMakerAgent::new(1);
    mm.acknowledge_order(Order { id: 101, agent_id: 1, stock_id: 1, side: Side::Sell, price: 15_000, volume: 100, filled: 0 });
    mm.update_portfolio(-100, &trade_against(1, 101, 100));
    assert!(mm.get_pending_orders().is_empty());
    assert_eq!(mm.get_inventory(), 100_000_000 - 100);
}

#[test]
fn taker_trade_leaves_open_orders_untouched() {
    let mut mm = MarketMakerAgent::new(1);
    let tr = Trade { price: 15_000, stock_id: 1, volume: 75, taker_agent_id: 1, maker_agent_id: 2, taker_side: Side::Buy, maker_order_id: 202 };
    mm.update_portfolio(75, &tr);
    assert_eq!(mm.get_inventory(), 100_000_000 + 75);
    assert!(mm.get_pending_orders().is_empty());
}

#[test]
fn limit_ensemble_quotes_inside_its_offsets() {
    let mut m = Market::new(vec![Listing { stock_id: 1, initial_price: 15_000 }]);
    m.submit(lim(9, 1, Side::Buy, 14_900, 10));
    m.submit(lim(9, 1, Side::Sell, 15_100, 10));
    let mut a = DumbLimitAgent::new(3);
    for _ in 0..10 {
        assert!(a.decide_actions(&m).is_empty());
    }
    let reqs = a.decide_actions(&m);
    assert!(reqs.len() <= 200);
    for r in reqs {
        match r {
            OrderRequest::LimitOrder { agent_id, stock_id, side, price, volume } => {
                assert_eq!((agent_id, stock_id), (3, 1));
                assert!((500..=5_000).contains(&volume));
                match side {
                    Side::Buy => assert!((14_901..=15_100).contains(&price)),
                    Side::Sell => assert!((14_900..=15_099).contains(&price)),
                }
            }
            _ => panic!("expected limit orders only"),
        }
    }
}

#[test]
fn limit_ensemble_covers_a_deep_short() {
    let mut a = DumbLimitAgent::new(3);
    a.update_portfolio(-200_020_000, &trade_against(9, 1, 1));
    assert_eq!(a.get_inventory(), -20_000);
    assert_eq!(
        a.margin_call(),
        vec![OrderRequest::MarketOrder { agent_id: 3, stock_id: 0, side: Side::Buy, volume: 20_000 }]
    );
}

#[test]
fn whale_update_portfolio_as_maker() {
    let mut whale = WhaleAgent::new(1);
    whale.acknowledge_order(Order { id: 101, agent_id: 1, stock_id: 1, side: Side::Buy, price: 14_000, volume: 500_000, filled: 0 });
    let tr = Trade { price: 14_000, stock_id: 1, volume: 10_000, taker_agent_id: 2, maker_agent_id: 1, taker_side: Side::Sell, maker_order_id: 101 };
    whale.update_portfolio(10_000, &tr);
    let open = whale.get_pending_orders();
    assert_eq!(open[0].filled, 10_000);
    assert_eq!(whale.get_inventory(), 50_000_000 + 10_000);
}

#[test]
fn whale_cancel_open_order_asks_market() {
    let mut whale = WhaleAgent::new(1);
    whale.acknowledge_order(Order { id: 101, agent_id: 1, stock_id: 1, side: Side::Buy, price: 14_000, volume: 500_000, filled: 0 });
    assert_eq!(whale.cancel_open_order(101), vec![OrderRequest::CancelOrder { agent_id: 1, order_id: 101 }]);
    assert!(whale.cancel_open_order(101).is_empty());
}

#[test]
fn retail_buys_and_sells_move_positions_and_cash() {
    let mut a = DumbAgent::new(0);
    let buy = Trade { price: 15_000, stock_id: 1, volume: 10, taker_agent_id: 0, maker_agent_id: 2, taker_side: Side::Buy, maker_order_id: 101 };
    a.update_portfolio(10, &buy);
    assert_eq!(a.position(1), 10);
    assert_eq!(a.get_cash(), 100_000_000_000 - 150_000);
    a.update_portfolio(-25, &Trade { stock_id: 2, ..buy });
    assert_eq!(a.position(2), -25);
    assert_eq!(a.get_inventory(), -15);
}

#[test]
fn retail_margin_call_closes_every_position() {
    let mut a = DumbAgent::new(0);
    let t = Trade { price: 1, stock_id: 0, volume: 500, taker_agent_id: 0, maker_agent_id: 2, taker_side: Side::Buy, maker_order_id: 101 };
    a.update_portfolio(500, &t);
    a.update_portfolio(-100, &Trade { stock_id: 1, ..t });
    a.set_funds(-400_000_000_001, 400_000_000_000);
    let reqs = a.margin_call();
    assert_eq!(
        reqs,
        vec![
            OrderRequest::MarketOrder { agent_id: 0, stock_id: 0, side: Side::Sell, volume: 500 },
            OrderRequest::MarketOrder { agent_id: 0, stock_id: 1, side: Side::Buy, volume: 100 },
        ]
    );
    assert_eq!(a.get_inventory(), 0);
    assert!(a.margin_call().is_empty() || a.position(0) == 0);
}

#[test]
fn retail_margin_call_not_triggered_when_safe() {
    let mut a = DumbAgent::new(0);
    a.update_portfolio(5, &trade_against(2, 1, 5));
    a.set_funds(-400_000_000_000, 400_000_000_000);
    assert!(a.margin_call().is_empty());
    assert_eq!(a.position(1), 5);
}

fn mock_trade(price: u64, vol: u64) -> Trade {
    Trade { price, stock_id: 1, volume: vol, taker_agent_id: 1, maker_agent_id: 2, maker_order_id: 101, taker_side: Side::Buy }
}

#[test]
fn cash_updates_on_buy() {
    let mut a = DumbAgent::new(0);
    let cash0 = a.get_cash();
    let tr = mock_trade(15_000, 10);
    a.update_portfolio(10, &tr);
    let cost = 10 * 15_000;
    assert_eq!(a.get_cash(), cash0 - cost);
    assert_eq!(a.position(1), 10);
}

#[test]
fn cash_updates_on_sell() {
    let mut a = DumbAgent::new(0);
    let cash0 = a.get_cash();
    let tr = mock_trade(15_000, 10);
    a.update_portfolio(-10, &tr);
    let proceeds = 10 * 15_000;
    assert_eq!(a.get_cash(), cash0 + proceeds);
    assert_eq!(a.position(1), -10);
}

#[test]
fn margin_call_triggers() {
    let mut a = DumbAgent::new(0);
    a.update_portfolio(500, &Trade { stock_id: 0, ..mock_trade(0, 500) });
    a.update_portfolio(100, &Trade { stock_id: 1, ..mock_trade(0, 100) });
    a.set_funds(-400_000_000_010, 400_000_000_000);

    let reqs = a.margin_call();
    assert_eq!(reqs.len(), 2, "should liquidate all inventory");
    let mut liquidations = std::collections::HashMap::new();
    for req in &reqs {
        match req {
            OrderRequest::MarketOrder { agent_id, stock_id, side, volume } => {
                assert_eq!(*agent_id, a.get_id());
                assert_eq!(*side, Side::Sell);
                liquidations.insert(*stock_id, *volume);
            }
            _ => panic!("Expected MarketOrder"),
        }
    }
    assert_eq!(liquidations.get(&0), Some(&500));
    assert_eq!(liquidations.get(&1), Some(&100));
    assert_eq!(a.get_inventory(), 0, "inventory should be cleared");
    assert_eq!(a.position(0), 0);
}

#[test]
fn margin_call_not_triggered_when_safe() {
    let mut good = DumbAgent::new(0);
    good.set_funds(100_000, 400_000_000_000);
    let mut within = DumbAgent::new(1);
    within.set_funds(-399_999_999_990, 400_000_000_000);
    let mut at_limit = DumbAgent::new(2);
    at_limit.set_funds(-400_000_000_000, 400_000_000_000);

    assert!(good.margin_call().is_empty());
    assert!(within.margin_call().is_empty());
    assert!(at_limit.margin_call().is_empty());
}

#[test]
fn whale_cancel_and_replace_logic() {
    let mut m = Market::new(vec![Listing { stock_id: 1, initial_price: 15_000 }]);
    m.submit(lim(9, 1, Side::Buy, 14_500, 10));
    m.submit(lim(9, 1, Side::Sell, 15_500, 10));
    loop {
        let mut whale = WhaleAgent::new(1);
        whale.acknowledge_order(Order { id: 101, agent_id: 1, stock_id: 1, side: Side::Buy, price: 14_000, volume: 500_000, filled: 0 });
        whale.acknowledge_order(Order { id: 102, agent_id: 1, stock_id: 1, side: Side::Sell, price: 16_000, volume: 500_000, filled: 0 });
        let mut reqs = Vec::new();
        for _ in 0..20_000 {
            reqs = whale.decide_actions(&m);
            if !reqs.is_empty() {
                break;
            }
        }
        if reqs.iter().any(|r| matches!(r, OrderRequest::MarketOrder { .. })) {
            continue;
        }
        let cancels = reqs.iter().filter(|r| matches!(r, OrderRequest::CancelOrder { .. })).count();
        let limits = reqs.iter().filter(|r| matches!(r, OrderRequest::LimitOrder { .. })).count();
        assert_eq!(cancels, 2, "should cancel the two existing orders");
        assert!(limits >= 2, "should place at least two new limits");
        assert!(whale.get_pending_orders().is_empty(), "internal map cleared");
        for r in &reqs {
            if let OrderRequest::LimitOrder { side, price, volume, .. } = r {
                assert_eq!(*volume, 1_000_000);
                match side {
                    Side::Buy => assert!((14_000..=14_500).contains(price)),
                    Side::Sell => assert!((15_500..=16_000).contains(price)),
                }
            }
        }
        break;
    }
}

#[test]
fn retail_orders_keep_acting_affordable_draws() {
    let draws = vec![(true, Side::Buy, 10), (false, Side::Sell, 20), (true, Side::Sell, 30), (true, Side::Buy, 1_000)];
    let r = retail_orders(7, 1, Some(15_000), 100_000, 50_000, &draws);
    assert_eq!(
        r,
        vec![
            OrderRequest::MarketOrder { agent_id: 7, stock_id: 1, side: Side::Buy, volume: 10 },
            OrderRequest::MarketOrder { agent_id: 7, stock_id: 1, side: Side::Sell, volume: 30 },
        ]
    );
    let no_mid = retail_orders(7, 1, None, 0, 0, &draws);
    assert_eq!(no_mid.len(), 3);
}

#[test]
fn limit_orders_price_from_offsets() {
    let draws = vec![(true, Side::Buy, 7, 600), (false, Side::Buy, 1, 500), (true, Side::Sell, 200, 4_000)];
    let r = limit_orders(3, 2, 14_900, 15_100, &draws);
    assert_eq!(r, vec![lim(3, 2, Side::Buy, 14_907, 600), lim(3, 2, Side::Sell, 14_900, 4_000)]);
}

#[test]
fn whale_turn_cancels_then_posts() {
    let ids = vec![101, 102];
    let walls = whale_turn(1, 1, &ids, Some(15_000), true, false, Side::Buy, 600_000, 500, 1_000);
    assert_eq!(
        walls,
        vec![
            OrderRequest::CancelOrder { agent_id: 1, order_id: 101 },
            OrderRequest::CancelOrder { agent_id: 1, order_id: 102 },
            lim(1, 1, Side::Buy, 14_500, 1_000_000),
            lim(1, 1, Side::Sell, 16_000, 1_000_000),
        ]
    );
    let slam = whale_turn(1, 1, &ids, Some(15_000), true, true, Side::Sell, 600_000, 500, 1_000);
    assert_eq!(slam[2], OrderRequest::MarketOrder { agent_id: 1, stock_id: 1, side: Side::Sell, volume: 600_000 });
    assert_eq!(slam.len(), 3);
    assert!(whale_turn(1, 1, &ids, Some(15_000), false, true, Side::Sell, 600_000, 500, 1_000).is_empty());
    assert_eq!(whale_turn(1, 1, &ids, None, true, false, Side::Sell, 600_000, 500, 1_000).len(), 2);
}
