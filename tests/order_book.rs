use market_sim::{Order, OrderBook, Side};

fn new_order(id: u64, agent_id: usize, side: Side, price: u64, volume: u64) -> Order {
    Order { id, agent_id, stock_id: 1, side, price, volume, filled: 0 }
}

#[test]
fn test_add_simple_limit_order() {
    let mut book = OrderBook::new();
    let order = new_order(1, 1, Side::Buy, 100, 50);

    book.add_limit_order(order);

    assert_eq!(book.bids.len(), 1, "A bid price level should have been created.");
    let level = book.bids.get(&100).unwrap();
    assert_eq!(level.total_volume, 50, "The total volume at the price level should be 50.");
    assert_eq!(level.orders.len(), 1, "There should be one order in the queue.");
    assert_eq!(level.orders[0].id, 1, "The order ID should match.");
}

#[test]
fn test_market_order_simple_fill() {
    let mut book = OrderBook::new();
    book.add_limit_order(new_order(1, 1, Side::Sell, 100, 50));

    let trades = book.process_market_order(2, Side::Buy, 30);

    assert_eq!(trades.len(), 1, "There should have been exactly one trade.");
    let trade = trades[0];
    assert_eq!(trade.price, 100, "The trade price should be 100.");
    assert_eq!(trade.volume, 30, "The trade volume should be 30.");
    assert_eq!(trade.taker_agent_id, 2, "The taker ID should be 2.");
    assert_eq!(trade.maker_agent_id, 1, "The maker ID should be 1.");
    assert_eq!(trade.maker_order_id, 1, "The maker's order ID should be 1.");

    let ask_level = book.asks.get(&100).unwrap();
    assert_eq!(ask_level.total_volume, 20, "The remaining volume on the book should be 20.");
    assert_eq!(ask_level.orders[0].filled, 30, "The resting order should show 30 filled.");
}

#[test]
fn test_market_order_full_fill_and_remove() {
    let mut book = OrderBook::new();
    book.add_limit_order(new_order(1, 1, Side::Sell, 100, 50));
    book.add_limit_order(new_order(2, 1, Side::Sell, 101, 50));

    let trades = book.process_market_order(3, Side::Buy, 50);

    assert_eq!(trades.len(), 1, "A single trade should occur.");
    assert!(book.asks.get(&100).is_none(), "The price level at 100 should be completely removed.");
    assert!(book.asks.contains_key(&101), "The price level at 101 should still exist.");
}

#[test]
fn test_marketable_limit_order() {
    let mut book = OrderBook::new();
    book.add_limit_order(new_order(1, 1, Side::Sell, 100, 50));
    let mut aggressive_buy = new_order(2, 2, Side::Buy, 101, 30);

    let trades = book.process_limit_order(&mut aggressive_buy);

    assert_eq!(trades.len(), 1, "The marketable limit order should have executed a trade.");
    assert_eq!(trades[0].price, 100, "Trade should happen at the resting order's price.");
    assert_eq!(trades[0].volume, 30, "Trade volume should match the aggressive order's volume.");
    assert_eq!(book.asks.get(&100).unwrap().total_volume, 20, "The resting order should have 20 volume left.");
    assert!(book.bids.is_empty(), "The aggressive buy order should not rest on the book as it was fully filled.");
}

#[test]
fn test_marketable_limit_order_partial_fill_and_rest() {
    let mut book = OrderBook::new();
    book.add_limit_order(new_order(1, 1, Side::Sell, 100, 30));
    let mut aggressive_buy = new_order(2, 2, Side::Buy, 101, 50);

    let trades = book.process_limit_order(&mut aggressive_buy);

    assert_eq!(trades.len(), 1, "There should be one trade.");
    assert_eq!(trades[0].volume, 30, "The trade should be for 30 shares.");
    assert!(!book.asks.contains_key(&100), "The ask at 100 should be completely filled and removed.");

    assert_eq!(book.bids.len(), 1, "The remaining volume should be placed on the bid side.");
    let bid_level = book.bids.get(&101).unwrap();
    assert_eq!(bid_level.total_volume, 20, "The new bid should have 20 remaining volume.");
    assert_eq!(bid_level.orders[0].id, 2, "The new bid should have the correct order ID.");
}

#[test]
fn test_cancel_order_simple() {
    let mut book = OrderBook::new();
    book.add_limit_order(new_order(1, 1, Side::Buy, 100, 50));

    let success = book.cancel_order(1, 1);

    assert!(success, "The cancellation should have been successful.");
    assert!(book.bids.is_empty(), "The bid side of the book should be empty after cancellation.");
}

#[test]
fn test_cancel_order_fails_for_wrong_owner() {
    let mut book = OrderBook::new();
    book.add_limit_order(new_order(1, 1, Side::Buy, 100, 50));

    let success = book.cancel_order(1, 2);

    assert!(!success, "The cancellation should have failed.");
    assert_eq!(book.bids.get(&100).unwrap().total_volume, 50, "The order should not have been removed.");
}

#[test]
fn makers_at_one_price_fill_in_arrival_order() {
    let mut book = OrderBook::new();
    book.add_limit_order(new_order(1, 1, Side::Sell, 100, 10));
    book.add_limit_order(new_order(2, 2, Side::Sell, 100, 10));
    book.add_limit_order(new_order(3, 3, Side::Sell, 100, 10));

    let trades = book.process_market_order(9, Side::Buy, 25);

    let makers: Vec<u64> = trades.iter().map(|t| t.maker_order_id).collect();
    assert_eq!(makers, vec![1, 2, 3]);
    let vols: Vec<u64> = trades.iter().map(|t| t.volume).collect();
    assert_eq!(vols, vec![10, 10, 5]);
    let level = book.asks.get(&100).unwrap();
    assert_eq!(level.total_volume, 5);
    assert_eq!(level.orders.len(), 1);
    assert_eq!(level.orders[0].id, 3);
    assert_eq!(level.orders[0].filled, 5);
}

#[test]
fn seller_takes_highest_bids_first() {
    let mut book = OrderBook::new();
    book.add_limit_order(new_order(1, 1, Side::Buy, 98, 10));
    book.add_limit_order(new_order(2, 1, Side::Buy, 100, 10));
    book.add_limit_order(new_order(3, 1, Side::Buy, 99, 10));

    let trades = book.process_market_order(2, Side::Sell, 25);

    let prices: Vec<u64> = trades.iter().map(|t| t.price).collect();
    assert_eq!(prices, vec![100, 99, 98]);
    assert!(trades.iter().all(|t| t.taker_side == Side::Sell));
    assert_eq!(book.bids.len(), 1);
    assert_eq!(book.bids.get(&98).unwrap().total_volume, 5);
}

#[test]
fn market_order_into_empty_side_makes_no_trade() {
    let mut book = OrderBook::new();
    book.add_limit_order(new_order(1, 1, Side::Buy, 100, 10));

    let trades = book.process_market_order(2, Side::Buy, 10);

    assert!(trades.is_empty());
    assert!(book.asks.is_empty());
    assert_eq!(book.bids.get(&100).unwrap().total_volume, 10);
}

#[test]
fn market_order_larger_than_side_empties_it() {
    let mut book = OrderBook::new();
    book.add_limit_order(new_order(1, 1, Side::Sell, 100, 20));
    book.add_limit_order(new_order(2, 1, Side::Sell, 101, 30));

    let trades = book.process_market_order(2, Side::Buy, 1000);

    assert_eq!(trades.len(), 2);
    assert_eq!(trades.iter().map(|t| t.volume).sum::<u64>(), 50);
    assert!(book.asks.is_empty());
    assert!(book.id_index.is_empty());
}

#[test]
fn zero_volume_limit_order_is_dropped() {
    let mut book = OrderBook::new();
    book.add_limit_order(new_order(1, 1, Side::Sell, 100, 20));
    let mut empty = new_order(2, 2, Side::Buy, 100, 0);

    let trades = book.process_limit_order(&mut empty);

    assert!(trades.is_empty());
    assert!(book.bids.is_empty());
    assert_eq!(book.asks.get(&100).unwrap().total_volume, 20);
    assert_eq!(empty.filled, 0);
}

#[test]
fn limit_order_that_would_overflow_its_level_is_dropped() {
    let mut book = OrderBook::new();
    book.add_limit_order(new_order(1, 1, Side::Buy, 100, u64::MAX - 5));
    let mut big = new_order(2, 2, Side::Buy, 100, 10);

    let trades = book.process_limit_order(&mut big);

    assert!(trades.is_empty());
    assert_eq!(book.bids.get(&100).unwrap().orders.len(), 1);
    assert!(!book.id_index.contains_key(&2));
}

#[test]
fn limit_sell_stops_at_its_price() {
    let mut book = OrderBook::new();
    book.add_limit_order(new_order(1, 1, Side::Buy, 105, 10));
    book.add_limit_order(new_order(2, 1, Side::Buy, 100, 10));
    let mut sell = new_order(3, 2, Side::Sell, 103, 30);

    let trades = book.process_limit_order(&mut sell);

    assert_eq!(trades.len(), 1);
    assert_eq!(trades[0].price, 105);
    assert_eq!(sell.filled, 10);
    assert_eq!(book.asks.get(&103).unwrap().total_volume, 20);
    assert_eq!(book.asks.get(&103).unwrap().orders[0].filled, 10);
    assert_eq!(book.bids.len(), 1);
    assert!(book.bids.contains_key(&100));
}

#[test]
fn index_tracks_resting_orders() {
    let mut book = OrderBook::new();
    book.add_limit_order(new_order(1, 1, Side::Buy, 100, 10));
    book.add_limit_order(new_order(2, 1, Side::Sell, 110, 10));
    assert_eq!(book.id_index.get(&1), Some(&(Side::Buy, 100)));
    assert_eq!(book.id_index.get(&2), Some(&(Side::Sell, 110)));

    book.process_market_order(5, Side::Buy, 10);
    assert!(!book.id_index.contains_key(&2));
    assert_eq!(book.id_index.len(), 1);

    assert!(book.cancel_order(1, 1));
    assert!(book.id_index.is_empty());
}

#[test]
fn cancel_twice_second_fails_and_changes_nothing() {
    let mut book = OrderBook::new();
    book.add_limit_order(new_order(1, 1, Side::Buy, 100, 10));
    book.add_limit_order(new_order(2, 1, Side::Buy, 100, 15));

    assert!(book.cancel_order(1, 1));
    assert!(!book.cancel_order(1, 1));
    let level = book.bids.get(&100).unwrap();
    assert_eq!(level.total_volume, 15);
    assert_eq!(level.orders.len(), 1);
    assert_eq!(level.orders[0].id, 2);
}

#[test]
fn cancel_of_unknown_id_fails() {
    let mut book = OrderBook::new();
    book.add_limit_order(new_order(1, 1, Side::Buy, 100, 10));
    assert!(!book.cancel_order(7, 1));
    assert_eq!(book.bids.get(&100).unwrap().total_volume, 10);
}

#[test]
fn post_then_cancel_restores_book() {
    let mut book = OrderBook::new();
    book.add_limit_order(new_order(1, 1, Side::Sell, 110, 10));
    book.add_limit_order(new_order(2, 1, Side::Buy, 100, 10));
    let mut post = new_order(3, 2, Side::Buy, 105, 40);

    let trades = book.process_limit_order(&mut post);
    assert!(trades.is_empty());
    assert!(book.cancel_order(3, 2));

    assert_eq!(book.bids.len(), 1);
    assert_eq!(book.asks.len(), 1);
    assert_eq!(book.bids.get(&100).unwrap().total_volume, 10);
    assert_eq!(book.asks.get(&110).unwrap().total_volume, 10);
    assert_eq!(book.id_index.len(), 2);
    assert!(!book.bids.contains_key(&105));
}

#[test]
fn market_order_within_first_maker_makes_one_trade() {
    let mut book = OrderBook::new();
    book.add_limit_order(new_order(1, 1, Side::Sell, 100, 50));
    book.add_limit_order(new_order(2, 1, Side::Sell, 100, 50));

    let trades = book.process_market_order(2, Side::Buy, 50);

    assert_eq!(trades.len(), 1);
    assert_eq!(trades[0].price, 100);
    assert_eq!(trades[0].volume, 50);
    assert_eq!(book.asks.get(&100).unwrap().total_volume, 50);
}
