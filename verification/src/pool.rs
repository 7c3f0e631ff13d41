//! The resting sell pool: a price-ordered collection of not-yet-filled
//! sell orders, supporting insertion and removal of the cheapest member.
//!
//! Ties among equal prices are broken deterministically: the member that
//! stands earliest in the pool's sequence (the one inserted first among
//! those currently resting at that price) is taken first.

use crate::order::Order;
use crate::order::OrderType;
use vstd::prelude::*;

verus! {

/// Every member of a well-formed pool is a sell order with quantity left.
pub open spec fn pool_wf(s: Seq<Order>) -> bool {
    forall|i: int|
        0 <= i < s.len() ==> (#[trigger] s[i]).order_type == OrderType::Sell && s[i].quantity > 0
}

/// The index of the first order with the lowest price in `s`.
pub open spec fn min_idx(s: Seq<Order>) -> int
    recommends
        s.len() > 0,
    decreases s.len(),
{
    if s.len() <= 1 {
        0
    } else {
        let m = 1 + min_idx(s.skip(1));
        if s[0].price <= s[m].price {
            0
        } else {
            m
        }
    }
}

/// `min_idx` names a valid index whose price is minimal, and every
/// earlier member is strictly more expensive.
pub proof fn lemma_min_idx(s: Seq<Order>)
    requires
        s.len() > 0,
    ensures
        0 <= min_idx(s) < s.len(),
        forall|j: int| 0 <= j < s.len() ==> s[min_idx(s)].price <= (#[trigger] s[j]).price,
        forall|j: int| 0 <= j < min_idx(s) ==> (#[trigger] s[j]).price > s[min_idx(s)].price,
    decreases s.len(),
{
    if s.len() > 1 {
        lemma_min_idx(s.skip(1));
        let m = 1 + min_idx(s.skip(1));
        assert(forall|j: int| 0 <= j < s.skip(1).len() ==> #[trigger] s.skip(1)[j] == s[j + 1]);
        if s[0].price <= s[m].price {
            assert(min_idx(s) == 0);
            assert forall|j: int| 0 <= j < s.len() implies s[0].price <= (#[trigger] s[j]).price by {
                if j >= 1 {
                    assert(s.skip(1)[j - 1] == s[j]);
                    assert(s[m].price <= s[j].price);
                }
            }
        } else {
            assert(min_idx(s) == m);
            assert forall|j: int| 0 <= j < s.len() implies s[m].price <= (#[trigger] s[j]).price by {
                if j >= 1 {
                    assert(s.skip(1)[j - 1] == s[j]);
                }
            }
            assert forall|j: int| 0 <= j < m implies (#[trigger] s[j]).price > s[m].price by {
                if j >= 1 {
                    assert(s.skip(1)[j - 1] == s[j]);
                    assert(s.skip(1)[j - 1].price > s.skip(1)[m - 1].price);
                }
            }
        }
    }
}

/// A pool of resting sell orders, cheapest out first.
pub struct RestingSellPool {
    orders: Vec<Order>,
}

impl View for RestingSellPool {
    type V = Seq<Order>;

    closed spec fn view(&self) -> Seq<Order> {
        self.orders@
    }
}

impl RestingSellPool {
    #[verifier::type_invariant]
    spec fn inv(self) -> bool {
        pool_wf(self.orders@)
    }

    /// An empty pool.
    pub fn new() -> (pool: RestingSellPool)
        ensures
            pool@ == Seq::<Order>::empty(),
    {
        let pool = RestingSellPool { orders: Vec::new() };
        proof {
            assert(pool@ =~= Seq::<Order>::empty());
        }
        pool
    }

    /// The number of resting orders.
    pub fn len(&self) -> (n: usize)
        ensures
            n == self@.len(),
    {
        self.orders.len()
    }

    /// Whether no order is resting.
    pub fn is_empty(&self) -> (r: bool)
        ensures
            r == (self@.len() == 0),
    {
        self.orders.len() == 0
    }

    /// Adds a sell order with quantity left to the pool.
    pub fn insert(&mut self, order: Order)
        requires
            order.order_type == OrderType::Sell,
            order.quantity > 0,
        ensures
            final(self)@ == old(self)@.push(order),
    {
        proof {
            use_type_invariant(&*self);
        }
        let mut orders: Vec<Order> = Vec::new();
        std::mem::swap(&mut orders, &mut self.orders);
        orders.push(order);
        self.orders = orders;
    }

    /// Removes and returns the cheapest resting order, the earliest
    /// inserted among equals; `None` when the pool is empty.
    pub fn take_cheapest(&mut self) -> (r: Option<Order>)
        ensures
            old(self)@.len() == 0 ==> r is None && final(self)@ == old(self)@,
            old(self)@.len() > 0 ==> {
                let i = min_idx(old(self)@);
                &&& r == Some(old(self)@[i])
                &&& final(self)@ == old(self)@.remove(i)
                &&& old(self)@[i].order_type == OrderType::Sell
                &&& old(self)@[i].quantity > 0
            },
    {
        proof {
            use_type_invariant(&*self);
        }
        let n = self.orders.len();
        if n == 0 {
            return None;
        }
        let mut best: usize = 0;
        let mut i: usize = 1;
        while i < n
            invariant
                n == self.orders@.len(),
                0 <= best < i <= n,
                forall|j: int| 0 <= j < i ==> self.orders@[best as int].price <= (#[trigger] self.orders@[j]).price,
                forall|j: int| 0 <= j < best ==> (#[trigger] self.orders@[j]).price > self.orders@[best as int].price,
            decreases n - i,
        {
            if self.orders[i].price < self.orders[best].price {
                best = i;
            }
            i += 1;
        }
        proof {
            lemma_min_idx(self.orders@);
            assert(best == min_idx(self.orders@));
        }
        let mut orders: Vec<Order> = Vec::new();
        std::mem::swap(&mut orders, &mut self.orders);
        let taken = orders.remove(best);
        self.orders = orders;
        Some(taken)
    }
}

} // verus!
