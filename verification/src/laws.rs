//! Laws of the matching engine, stated over the same specification
//! functions that the executable functions' contracts use.

use crate::engine::spec_submit;
use crate::engine::spec_submit_buy;
use crate::order::Order;
use crate::order::OrderType;
use crate::pool::lemma_min_idx;
use crate::pool::min_idx;
use crate::pool::pool_wf;
use crate::trade::Trade;
use crate::trade::min_u32;
use vstd::prelude::*;

verus! {

/// Priority ordering: whenever a buy order with quantity left meets a
/// non-empty pool, the first trade executes against a cheapest resting
/// sell, at the lesser of the two limit prices.
pub proof fn lemma_priority_ordering(buy: Order, pool: Seq<Order>)
    requires
        buy.order_type == OrderType::Buy,
        buy.quantity > 0,
        pool.len() > 0,
    ensures
        spec_submit(buy, pool).0.len() > 0,
        spec_submit(buy, pool).0[0].sell_id == pool[min_idx(pool)].id,
        spec_submit(buy, pool).0[0].price == min_u32(buy.price, pool[min_idx(pool)].price),
        forall|j: int|
            0 <= j < pool.len() ==> pool[min_idx(pool)].price <= (#[trigger] pool[j]).price,
{
    lemma_min_idx(pool);
}

/// Partial fill retention: a resting sell with more quantity than the
/// incoming buy yields exactly one trade that depletes the buy, and the
/// sell keeps resting with the difference.
pub proof fn lemma_partial_fill_retention(buy: Order, sell: Order)
    requires
        buy.order_type == OrderType::Buy,
        sell.order_type == OrderType::Sell,
        0 < buy.quantity < sell.quantity,
    ensures
        spec_submit(buy, seq![sell]).0 =~= seq![
            Trade {
                buy_id: buy.id,
                sell_id: sell.id,
                price: min_u32(buy.price, sell.price),
                quantity: buy.quantity,
            },
        ],
        spec_submit(buy, seq![sell]).1 =~= seq![
            Order {
                id: sell.id,
                order_type: sell.order_type,
                price: sell.price,
                quantity: (sell.quantity - buy.quantity) as u32,
            },
        ],
{
    let pool = seq![sell];
    assert(min_idx(pool) == 0);
    assert(pool.remove(0) =~= Seq::<Order>::empty());
}

/// Pool exhaustion: a buy order submitted against an empty pool produces
/// no trades and leaves the pool empty, whatever the order held.
pub proof fn lemma_pool_exhaustion(buy: Order)
    requires
        buy.order_type == OrderType::Buy,
    ensures
        spec_submit(buy, Seq::<Order>::empty()).0 =~= Seq::<Trade>::empty(),
        spec_submit(buy, Seq::<Order>::empty()).1 =~= Seq::<Order>::empty(),
{
}

proof fn lemma_submit_buy_wf(buy: Order, pool: Seq<Order>)
    requires
        pool_wf(pool),
    ensures
        pool_wf(spec_submit_buy(buy, pool).1),
    decreases pool.len(),
{
    if buy.quantity != 0 && pool.len() != 0 {
        lemma_min_idx(pool);
        let i = min_idx(pool);
        let sell = pool[i];
        let q = min_u32(buy.quantity, sell.quantity);
        let rest = pool.remove(i);
        assert(pool_wf(rest)) by {
            assert(forall|j: int|
                0 <= j < rest.len() ==> #[trigger] rest[j] == if j < i {
                    pool[j]
                } else {
                    pool[j + 1]
                });
        }
        if sell.quantity > buy.quantity {
            let kept = Order {
                id: sell.id,
                order_type: sell.order_type,
                price: sell.price,
                quantity: (sell.quantity - q) as u32,
            };
            assert(forall|j: int|
                0 <= j < rest.push(kept).len() ==> #[trigger] rest.push(kept)[j] == if j
                    < rest.len() {
                    rest[j]
                } else {
                    kept
                });
        } else {
            let buy2 = Order {
                id: buy.id,
                order_type: buy.order_type,
                price: buy.price,
                quantity: (buy.quantity - q) as u32,
            };
            lemma_submit_buy_wf(buy2, rest);
        }
    }
}

/// Pool invariant retention: whatever order is submitted to a pool whose
/// members are all sell orders with quantity left, the pool afterwards
/// again holds only sell orders with quantity left.
pub proof fn lemma_pool_invariant_preserved(order: Order, pool: Seq<Order>)
    requires
        pool_wf(pool),
    ensures
        pool_wf(spec_submit(order, pool).1),
{
    match order.order_type {
        OrderType::Sell => {
            if order.quantity > 0 {
                assert(forall|j: int|
                    0 <= j < pool.push(order).len() ==> #[trigger] pool.push(order)[j] == if j
                        < pool.len() {
                        pool[j]
                    } else {
                        order
                    });
            }
        },
        OrderType::Buy => {
            lemma_submit_buy_wf(order, pool);
        },
    }
}

/// The total quantity executed by a run of trades.
pub open spec fn total_traded(ts: Seq<Trade>) -> int
    decreases ts.len(),
{
    if ts.len() == 0 {
        0
    } else {
        total_traded(ts.drop_last()) + ts.last().quantity
    }
}

/// The total quantity resting in a pool.
pub open spec fn total_resting(os: Seq<Order>) -> int
    decreases os.len(),
{
    if os.len() == 0 {
        0
    } else {
        total_resting(os.drop_last()) + os.last().quantity
    }
}

pub proof fn lemma_total_resting_nonneg(os: Seq<Order>)
    ensures
        total_resting(os) >= 0,
    decreases os.len(),
{
    if os.len() > 0 {
        lemma_total_resting_nonneg(os.drop_last());
    }
}

pub proof fn lemma_total_resting_remove(os: Seq<Order>, i: int)
    requires
        0 <= i < os.len(),
    ensures
        total_resting(os) == total_resting(os.remove(i)) + os[i].quantity,
    decreases os.len(),
{
    if i == os.len() - 1 {
        assert(os.remove(i) =~= os.drop_last());
    } else {
        assert(os.remove(i).drop_last() =~= os.drop_last().remove(i));
        assert(os.remove(i).last() == os.last());
        lemma_total_resting_remove(os.drop_last(), i);
    }
}

pub proof fn lemma_total_traded_singleton(t: Trade)
    ensures
        total_traded(seq![t]) == t.quantity,
{
    assert(seq![t].len() == 1);
    assert(seq![t].last() == t);
    assert(seq![t].drop_last() =~= Seq::<Trade>::empty());
    assert(total_traded(Seq::<Trade>::empty()) == 0);
}

pub proof fn lemma_total_traded_concat(a: Seq<Trade>, b: Seq<Trade>)
    ensures
        total_traded(a + b) == total_traded(a) + total_traded(b),
    decreases b.len(),
{
    if b.len() == 0 {
        assert(a + b =~= a);
    } else {
        assert((a + b).drop_last() =~= a + b.drop_last());
        lemma_total_traded_concat(a, b.drop_last());
    }
}

/// Quantity conservation over a whole matching pass: a buy order executes
/// exactly the lesser of its own quantity and the pool's total liquidity,
/// and the pool's total shrinks by exactly the executed amount.
pub proof fn lemma_quantity_conservation(buy: Order, pool: Seq<Order>)
    requires
        buy.order_type == OrderType::Buy,
        pool_wf(pool),
    ensures
        total_traded(spec_submit(buy, pool).0) == if buy.quantity as int <= total_resting(pool) {
            buy.quantity as int
        } else {
            total_resting(pool)
        },
        total_resting(spec_submit(buy, pool).1) == total_resting(pool) - total_traded(
            spec_submit(buy, pool).0,
        ),
    decreases pool.len(),
{
    lemma_total_resting_nonneg(pool);
    if buy.quantity == 0 || pool.len() == 0 {
        if pool.len() == 0 {
            assert(total_resting(pool) == 0);
        }
    } else {
        lemma_min_idx(pool);
        let i = min_idx(pool);
        let sell = pool[i];
        let q = min_u32(buy.quantity, sell.quantity);
        let rest = pool.remove(i);
        lemma_total_resting_remove(pool, i);
        lemma_total_resting_nonneg(rest);
        let t = Trade {
            buy_id: buy.id,
            sell_id: sell.id,
            price: min_u32(buy.price, sell.price),
            quantity: q,
        };
        if sell.quantity > buy.quantity {
            let kept = Order {
                id: sell.id,
                order_type: sell.order_type,
                price: sell.price,
                quantity: (sell.quantity - q) as u32,
            };
            lemma_total_traded_singleton(t);
            assert(total_resting(rest.push(kept)) == total_resting(rest) + kept.quantity) by {
                assert(rest.push(kept).drop_last() =~= rest);
                assert(rest.push(kept).last() == kept);
            }
        } else {
            let buy2 = Order {
                id: buy.id,
                order_type: buy.order_type,
                price: buy.price,
                quantity: (buy.quantity - q) as u32,
            };
            assert(pool_wf(rest)) by {
                assert(forall|j: int|
                    0 <= j < rest.len() ==> #[trigger] rest[j] == if j < i {
                        pool[j]
                    } else {
                        pool[j + 1]
                    });
            }
            lemma_quantity_conservation(buy2, rest);
            lemma_total_traded_concat(seq![t], spec_submit_buy(buy2, rest).0);
            lemma_total_traded_singleton(t);
        }
    }
}

} // verus!
