use trading_lib::{construct_order, get_orders, Order, OrderType};
use trading_lib::text::is_loop_end_command;

#[test]
fn construct_order_eq() {
    let o = Order::new(1, OrderType::Sell, 5000, 100);
    let o_const = construct_order(&String::from("1. Sell 100 BTC @ 5000 USD"));
    assert_ne!(None, o_const);
    assert_eq!(o, o_const.unwrap());
}

#[test]
fn construct_order_uneq() {
    let o = Order::new(13, OrderType::Buy, 50, 1000000);
    let o_const = construct_order(&String::from("1. Sell 100 BTC @ 5000 USD"));
    assert_ne!(None, o_const);
    assert_ne!(o, o_const.unwrap());
}

#[test]
fn construct_order_not_enough_whitepspace() {
    assert_eq!(None, construct_order(&String::from("ewughierguerguhrgi")));
    assert_eq!(None, construct_order(&String::from("100 BTC 50 USD")));
}

#[test]
fn parse_rejection_independent_of_call_order() {
    assert_eq!(None, construct_order(&String::from("100 BTC 50 USD")));
    assert_eq!(None, construct_order(&String::from("gibberish")));
    assert_eq!(None, construct_order(&String::from("100 BTC 50 USD")));
}

#[test]
fn construct_order_colon_id() {
    let o = construct_order(&String::from("2: Buy 70 BTC @ 8 USD")).unwrap();
    assert!(o.equal_to(&Order::new(2, OrderType::Buy, 8, 70)));
}

#[test]
fn construct_order_rejects_bad_fields() {
    // a side token other than Buy or Sell, case-sensitive
    assert_eq!(None, construct_order(&String::from("1: buy 100 BTC @ 5000 USD")));
    assert_eq!(None, construct_order(&String::from("1: Hold 100 BTC @ 5000 USD")));
    // non-numeric id, quantity or price
    assert_eq!(None, construct_order(&String::from("x: Buy 100 BTC @ 5000 USD")));
    assert_eq!(None, construct_order(&String::from("1: Buy many BTC @ 5000 USD")));
    assert_eq!(None, construct_order(&String::from("1: Buy 100 BTC @ dear USD")));
    // an empty line
    assert_eq!(None, construct_order(&String::from("")));
}

#[test]
fn construct_order_quantity_bounds() {
    let o = construct_order(&String::from("1: Buy 4294967295 BTC @ 5 USD")).unwrap();
    assert_eq!(o.quantity, u32::MAX);
    assert_eq!(None, construct_order(&String::from("1: Buy 4294967296 BTC @ 5 USD")));
    assert_eq!(None, construct_order(&String::from("1: Buy 99999999999999999999 BTC @ 5 USD")));
}

#[test]
fn get_orders_skips_bad_lines() {
    let input = String::from("1: Sell 100 BTC @ 5000 USD\nnot an order\n2: Buy 50 BTC @ 4000 USD");
    let orders = get_orders(input);
    assert_eq!(orders.len(), 2);
    assert!(orders[0].equal_to(&Order::new(1, OrderType::Sell, 5000, 100)));
    assert!(orders[1].equal_to(&Order::new(2, OrderType::Buy, 4000, 50)));
}

#[test]
fn get_orders_of_empty_input() {
    assert!(get_orders(String::new()).is_empty());
}

#[test]
fn loop_end_commands() {
    assert!(is_loop_end_command(&String::from("end")));
    assert!(is_loop_end_command(&String::from("End\n")));
    assert!(is_loop_end_command(&String::from("  BREAK  ")));
    assert!(is_loop_end_command(&String::from("stop")));
    assert!(is_loop_end_command(&String::from("")));
    assert!(is_loop_end_command(&String::from("   \n")));
    assert!(!is_loop_end_command(&String::from("ends")));
    assert!(!is_loop_end_command(&String::from("1: Buy 1 BTC @ 1 USD")));
}

#[test]
fn order_type_from_str_is_case_sensitive() {
    assert_eq!(OrderType::from_str("Buy"), Some(OrderType::Buy));
    assert_eq!(OrderType::from_str("Sell"), Some(OrderType::Sell));
    assert_eq!(OrderType::from_str("BUY"), None);
    assert_eq!(OrderType::from_str("sell"), None);
    assert_eq!(OrderType::from_str(""), None);
}
