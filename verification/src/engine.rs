//! The matching engine: submits one incoming order against the resting
//! sell pool and returns the executed trades.

use crate::order::Order;
use crate::order::OrderType;
use crate::pool::RestingSellPool;
use crate::pool::lemma_min_idx;
use crate::pool::min_idx;
use crate::trade::Trade;
use crate::trade::do_trade;
use crate::trade::min_u32;
use vstd::prelude::*;

verus! {

/// What matching one buy order against a pool produces: the trades in
/// execution order, and the pool contents afterwards.
///
/// Each step takes the cheapest resting sell (the earliest among equals),
/// trades the lesser of the two remaining quantities at the lesser of the
/// two limit prices, and reinserts the sell at the back of the pool if it
/// still has quantity left. Matching stops when the buy is filled or the
/// pool is exhausted; an unfilled remainder is dropped.
pub open spec fn spec_submit_buy(buy: Order, pool: Seq<Order>) -> (Seq<Trade>, Seq<Order>)
    decreases pool.len(),
    via spec_submit_buy_decreases
{
    if buy.quantity == 0 || pool.len() == 0 {
        (Seq::<Trade>::empty(), pool)
    } else {
        let i = min_idx(pool);
        let sell = pool[i];
        let q = min_u32(buy.quantity, sell.quantity);
        let t = Trade {
            buy_id: buy.id,
            sell_id: sell.id,
            price: min_u32(buy.price, sell.price),
            quantity: q,
        };
        let rest = pool.remove(i);
        if sell.quantity > buy.quantity {
            (
                seq![t],
                rest.push(
                    Order {
                        id: sell.id,
                        order_type: sell.order_type,
                        price: sell.price,
                        quantity: (sell.quantity - q) as u32,
                    },
                ),
            )
        } else {
            let tail = spec_submit_buy(
                Order {
                    id: buy.id,
                    order_type: buy.order_type,
                    price: buy.price,
                    quantity: (buy.quantity - q) as u32,
                },
                rest,
            );
            (seq![t] + tail.0, tail.1)
        }
    }
}

#[via_fn]
proof fn spec_submit_buy_decreases(buy: Order, pool: Seq<Order>) {
    if buy.quantity != 0 && pool.len() != 0 {
        lemma_min_idx(pool);
    }
}

/// What submitting one order does: a sell order with quantity left comes
/// to rest in the pool and trades nothing; an already empty sell is
/// discarded; a buy order is matched as `spec_submit_buy` says.
pub open spec fn spec_submit(order: Order, pool: Seq<Order>) -> (Seq<Trade>, Seq<Order>) {
    match order.order_type {
        OrderType::Sell => {
            if order.quantity > 0 {
                (Seq::<Trade>::empty(), pool.push(order))
            } else {
                (Seq::<Trade>::empty(), pool)
            }
        },
        OrderType::Buy => spec_submit_buy(order, pool),
    }
}

/// Feeds one incoming order to the matching engine.
///
/// A sell order is enqueued (or discarded when already empty) and trades
/// nothing; a buy order repeatedly executes against the cheapest resting
/// sells until filled or the pool is exhausted, and its unfilled remainder
/// is dropped.
pub fn submit(order: Order, pool: &mut RestingSellPool) -> (trades: Vec<Trade>)
    ensures
        trades@ == spec_submit(order, old(pool)@).0,
        final(pool)@ == spec_submit(order, old(pool)@).1,
{
    let mut trades: Vec<Trade> = Vec::new();
    match order.order_type {
        OrderType::Sell => {
            if order.quantity > 0 {
                pool.insert(order);
            }
            trades
        },
        OrderType::Buy => {
            let mut cur = order;
            let ghost orig_pool = pool@;
            loop
                invariant
                    cur.order_type == OrderType::Buy,
                    cur.id == order.id,
                    cur.price == order.price,
                    spec_submit_buy(order, orig_pool).0 == trades@ + spec_submit_buy(
                        cur,
                        pool@,
                    ).0,
                    spec_submit_buy(order, orig_pool).1 == spec_submit_buy(cur, pool@).1,
                ensures
                    trades@ == spec_submit_buy(order, orig_pool).0,
                    pool@ == spec_submit_buy(order, orig_pool).1,
                decreases cur.quantity,
            {
                if cur.quantity == 0 {
                    proof {
                        assert(trades@ + spec_submit_buy(cur, pool@).0 =~= trades@);
                    }
                    break ;
                }
                let ghost cur0 = cur;
                let ghost pool0 = pool@;
                let taken = pool.take_cheapest();
                match taken {
                    None => {
                        proof {
                            assert(trades@ + spec_submit_buy(cur, pool@).0 =~= trades@);
                        }
                        break ;
                    },
                    Some(mut sell) => {
                        let ghost sell0 = sell;
                        let ghost i = min_idx(pool0);
                        let ghost rest = pool0.remove(i);
                        let ghost trades0 = trades@;
                        let t = do_trade(&mut cur, &mut sell);
                        if sell.quantity > 0 {
                            pool.insert(sell);
                        }
                        trades.push(t);
                        proof {
                            let step = spec_submit_buy(cur0, pool0);
                            if sell0.quantity > cur0.quantity {
                                assert(sell == Order {
                                    id: sell0.id,
                                    order_type: sell0.order_type,
                                    price: sell0.price,
                                    quantity: (sell0.quantity - t.quantity) as u32,
                                });
                                assert(step.0 == seq![t]);
                                assert(step.1 == rest.push(sell));
                                assert(cur.quantity == 0);
                                assert(trades@ + spec_submit_buy(cur, pool@).0 =~= trades0 + seq![
                                    t,
                                ]);
                            } else {
                                assert(cur == Order {
                                    id: cur0.id,
                                    order_type: cur0.order_type,
                                    price: cur0.price,
                                    quantity: (cur0.quantity - t.quantity) as u32,
                                });
                                assert(step.0 == seq![t] + spec_submit_buy(cur, rest).0);
                                assert(step.1 == spec_submit_buy(cur, rest).1);
                                assert(pool@ == rest);
                                assert(trades@ + spec_submit_buy(cur, pool@).0 =~= trades0 + (seq![
                                    t,
                                ] + spec_submit_buy(cur, pool@).0));
                            }
                        }
                    },
                }
            }
            trades
        },
    }
}

} // verus!
