use trading_lib::engine::submit;
use trading_lib::pool::RestingSellPool;
use trading_lib::{do_trade, lowest, Order, OrderType, Trade};

// ------ Order tests ------

#[test]
fn check_order_equal() {
    let o_a_1 = Order::new(1, OrderType::Sell, 1, 1);
    let o_b_1 = Order::new(1, OrderType::Sell, 1, 1);

    assert_eq!(o_a_1.id, o_b_1.id);
    assert_eq!(o_a_1.order_type, o_b_1.order_type);
    assert_eq!(o_a_1.price, o_b_1.price);
    assert_eq!(o_a_1.quantity, o_b_1.quantity);
    assert!(o_a_1.equal_to(&o_b_1));

    let o_a_2 = Order::new(1, OrderType::Sell, 100, 1);
    let o_b_2 = Order::new(1, OrderType::Sell, 1, 1);

    assert_eq!(o_a_2.id, o_b_2.id);
    assert_eq!(o_a_2.order_type, o_b_2.order_type);
    assert_ne!(o_a_2.price, o_b_2.price);
    assert_eq!(o_a_2.quantity, o_b_2.quantity);
    assert!(!o_a_2.equal_to(&o_b_2));

    let o_a_3 = Order::new(1, OrderType::Sell, 1, 100);
    let o_b_3 = Order::new(1, OrderType::Sell, 1, 1);

    assert_eq!(o_a_3.id, o_b_3.id);
    assert_eq!(o_a_3.order_type, o_b_3.order_type);
    assert_eq!(o_a_3.price, o_b_3.price);
    assert_ne!(o_a_3.quantity, o_b_3.quantity);
    assert!(!o_a_3.equal_to(&o_b_3));
}

#[test]
fn construct_empty_order_eq() {
    let o = Order::new(0, OrderType::Buy, 0, 0);
    assert_eq!(o, Order::empty());
}

// ------ Trade tests ------

#[test]
fn construct_trade_eq() {
    let t = Trade::new(2, 1, 100, 100);
    let mut o_sell = Order::new(1, OrderType::Sell, 100, 100);
    let mut o_buy = Order::new(2, OrderType::Buy, 100, 100);
    assert_eq!(t, trading_lib::do_trade(&mut o_buy, &mut o_sell));
}

#[test]
fn construct_trade_uneq() {
    let t_1 = Trade::new(3, 2, 100, 100);
    let mut o_sell = Order::new(1, OrderType::Sell, 100, 100);
    let mut o_buy = Order::new(2, OrderType::Buy, 100, 100);
    assert_ne!(t_1, trading_lib::do_trade(&mut o_buy, &mut o_sell));

    let t_2 = Trade::new(1, 2, 100, 100);
    let mut o_sell = Order::new(1, OrderType::Sell, 1000, 100);
    let mut o_buy = Order::new(2, OrderType::Buy, 1000, 100);
    assert_ne!(t_2, trading_lib::do_trade(&mut o_buy, &mut o_sell));

    let t_3 = Trade::new(1, 2, 100, 100);
    let mut o_sell = Order::new(1, OrderType::Sell, 100, 1000);
    let mut o_buy = Order::new(2, OrderType::Buy, 100, 1000);
    assert_ne!(t_3, trading_lib::do_trade(&mut o_buy, &mut o_sell));
}

#[test]
fn construct_trade_use_lowest_price() {
    let mut o_sell_1 = Order::new(1, OrderType::Sell, 1, 100);
    let mut o_buy_1 = Order::new(2, OrderType::Buy, 2, 100);
    let t_1 = do_trade(&mut o_buy_1, &mut o_sell_1);
    assert_eq!(t_1.price, 1);
    assert_eq!(t_1.price, o_sell_1.price);

    let mut o_sell_2 = Order::new(1, OrderType::Sell, 2, 100);
    let mut o_buy_2 = Order::new(2, OrderType::Buy, 1, 100);
    let t_2 = do_trade(&mut o_buy_2, &mut o_sell_2);
    assert_eq!(t_2.price, 1);
    assert_eq!(t_2.price, o_buy_2.price);
}

#[test]
fn check_b_heap_orders() {
    let mut pool = RestingSellPool::new();

    pool.insert(Order::new(1, OrderType::Sell, 1, 100));
    pool.insert(Order::new(2, OrderType::Sell, 2, 50));
    let mut o_buy_1 = Order::new(3, OrderType::Buy, 10, 50);
    let t_2 = do_trade(&mut o_buy_1, &mut pool.take_cheapest().unwrap());
    assert_eq!(t_2.price, 1);

    let mut pool = RestingSellPool::new();
    pool.insert(Order::new(1, OrderType::Sell, 2, 100));
    pool.insert(Order::new(2, OrderType::Sell, 1, 50));
    let mut o_buy_2 = Order::new(4, OrderType::Buy, 10, 50);
    let t_2 = do_trade(&mut o_buy_2, &mut pool.take_cheapest().unwrap());
    assert_eq!(t_2.price, 1);
}

#[test]
fn construct_trade_retain_quantity() {
    let mut o_sell = Order::new(1, OrderType::Sell, 1, 100);
    let mut o_buy = Order::new(2, OrderType::Buy, 1, 50);
    do_trade(&mut o_buy, &mut o_sell);
    assert_eq!(50, o_sell.quantity);
    assert_eq!(0, o_buy.quantity);

    let mut o_sell = Order::new(1, OrderType::Sell, 1, 50);
    let mut o_buy = Order::new(2, OrderType::Buy, 1, 100);
    do_trade(&mut o_buy, &mut o_sell);
    assert_eq!(50, o_buy.quantity);
    assert_eq!(0, o_sell.quantity);
}

// ------ Generic tests ------

#[test]
fn lowest_test() {
    assert_eq!(5, lowest(100, 5));
    assert_eq!(0, lowest(0, 5));
}

// ------ Matching engine tests ------

#[test]
fn conservation_both_sides() {
    let mut o_sell = Order::new(1, OrderType::Sell, 7, 30);
    let mut o_buy = Order::new(2, OrderType::Buy, 9, 80);
    let t = do_trade(&mut o_buy, &mut o_sell);
    assert_eq!(t.quantity, 30);
    assert_eq!(o_sell.quantity, 0);
    assert_eq!(o_buy.quantity, 50);
}

#[test]
fn priority_takes_cheapest_first() {
    let mut pool = RestingSellPool::new();
    let trades = submit(Order::new(1, OrderType::Sell, 2, 10), &mut pool);
    assert!(trades.is_empty());
    let trades = submit(Order::new(2, OrderType::Sell, 1, 10), &mut pool);
    assert!(trades.is_empty());

    let trades = submit(Order::new(3, OrderType::Buy, 10, 5), &mut pool);
    assert_eq!(trades.len(), 1);
    assert_eq!(trades[0].sell_id, 2);
    assert_eq!(trades[0].price, 1);
    assert_eq!(pool.len(), 2);
}

#[test]
fn partial_fill_leaves_sell_resting() {
    let mut pool = RestingSellPool::new();
    submit(Order::new(1, OrderType::Sell, 1, 100), &mut pool);
    let trades = submit(Order::new(2, OrderType::Buy, 1, 50), &mut pool);
    assert_eq!(trades.len(), 1);
    assert_eq!(trades[0], Trade::new(2, 1, 1, 50));
    assert_eq!(pool.len(), 1);
    let rest = pool.take_cheapest().unwrap();
    assert!(rest.equal_to(&Order::new(1, OrderType::Sell, 1, 50)));
}

#[test]
fn buy_against_empty_pool_leaves_nothing() {
    let mut pool = RestingSellPool::new();
    let trades = submit(Order::new(9, OrderType::Buy, 100, 100), &mut pool);
    assert!(trades.is_empty());
    assert!(pool.is_empty());
}

#[test]
fn buy_sweeps_several_sells() {
    let mut pool = RestingSellPool::new();
    submit(Order::new(1, OrderType::Sell, 3, 10), &mut pool);
    submit(Order::new(2, OrderType::Sell, 1, 10), &mut pool);
    submit(Order::new(3, OrderType::Sell, 2, 10), &mut pool);
    let trades = submit(Order::new(4, OrderType::Buy, 5, 25), &mut pool);
    assert_eq!(trades.len(), 3);
    assert_eq!(trades[0], Trade::new(4, 2, 1, 10));
    assert_eq!(trades[1], Trade::new(4, 3, 2, 10));
    assert_eq!(trades[2], Trade::new(4, 1, 3, 5));
    assert_eq!(pool.len(), 1);
    let rest = pool.take_cheapest().unwrap();
    assert!(rest.equal_to(&Order::new(1, OrderType::Sell, 3, 5)));
}

#[test]
fn empty_sell_is_discarded() {
    let mut pool = RestingSellPool::new();
    let trades = submit(Order::new(1, OrderType::Sell, 5, 0), &mut pool);
    assert!(trades.is_empty());
    assert!(pool.is_empty());
}

#[test]
fn equal_price_sells_match_in_insertion_order() {
    let mut pool = RestingSellPool::new();
    submit(Order::new(1, OrderType::Sell, 4, 10), &mut pool);
    submit(Order::new(2, OrderType::Sell, 4, 10), &mut pool);
    let trades = submit(Order::new(3, OrderType::Buy, 4, 10), &mut pool);
    assert_eq!(trades.len(), 1);
    assert_eq!(trades[0].sell_id, 1);
    assert_eq!(pool.len(), 1);
}

#[test]
fn end_to_end_scenario() {
    let mut pool = RestingSellPool::new();
    let sell = trading_lib::construct_order(&String::from("1: Sell 100 BTC @ 5000 USD")).unwrap();
    let trades = submit(sell, &mut pool);
    assert!(trades.is_empty());
    assert_eq!(pool.len(), 1);

    let buy = trading_lib::construct_order(&String::from("2: Buy 100 BTC @ 5000 USD")).unwrap();
    let trades = submit(buy, &mut pool);
    assert_eq!(trades.len(), 1);
    assert_eq!(trades[0], Trade::new(2, 1, 5000, 100));
    assert!(pool.is_empty());
}

// ------ Report text tests ------

#[test]
fn trade_report_text() {
    let t = Trade::new(2, 1, 5000, 100);
    assert_eq!(t.to_string(), "Trade: 100 BTC @ 5000 USD between 2 and 1");
    let t0 = Trade::new(0, 7, 0, 1);
    assert_eq!(t0.to_string(), "Trade: 1 BTC @ 0 USD between 0 and 7");
}

#[test]
fn order_report_text() {
    let o = Order::new(1, OrderType::Sell, 5000, 100);
    assert_eq!(o.to_string(), "ID: 1, Type: Sell, Price: 5000, Quantity: 100");
    let o = Order::new(42, OrderType::Buy, 1, 0);
    assert_eq!(o.to_string(), "ID: 42, Type: Buy, Price: 1, Quantity: 0");
}
