//! Trade records and the trade executor.

use crate::decimal::spec_dec;
use crate::decimal::u64_to_string;
use crate::order::Order;
use crate::order::OrderType;
use vstd::prelude::*;
use vstd::string::StringExecFns;

verus! {

/// The lesser of two prices.
pub open spec fn min_u32(a: u32, b: u32) -> u32 {
    if a < b {
        a
    } else {
        b
    }
}

/// Returns the lesser of `a` and `b`.
pub fn lowest(a: u32, b: u32) -> (r: u32)
    ensures
        r == min_u32(a, b),
        r <= a,
        r <= b,
        r == a || r == b,
{
    if a < b {
        a
    } else {
        b
    }
}

/// An immutable record of one executed match.
#[derive(Debug, PartialEq, Eq, Structural, Clone, Copy)]
pub struct Trade {
    pub buy_id: usize,
    pub sell_id: usize,
    /// The execution price: the lesser of the two participants' limit
    /// prices, so neither side trades worse than its own limit.
    pub price: u32,
    pub quantity: u32,
}

impl Trade {
    pub fn new(buy_id: usize, sell_id: usize, price: u32, quantity: u32) -> (t: Trade)
        ensures
            t.buy_id == buy_id,
            t.sell_id == sell_id,
            t.price == price,
            t.quantity == quantity,
    {
        Trade { buy_id, sell_id, price, quantity }
    }

    /// The human-readable report line for this trade.
    pub fn to_string(&self) -> (s: String)
        ensures
            s@ == spec_trade_text(*self),
    {
        let mut s = String::from_str("Trade: ");
        s.append(u64_to_string(self.quantity as u64).as_str());
        s.append(" BTC @ ");
        s.append(u64_to_string(self.price as u64).as_str());
        s.append(" USD between ");
        s.append(u64_to_string(self.buy_id as u64).as_str());
        s.append(" and ");
        s.append(u64_to_string(self.sell_id as u64).as_str());
        proof {
            assert(s@ =~= spec_trade_text(*self));
        }
        s
    }
}

/// The text a trade reports as: `Trade: <quantity> BTC @ <price> USD
/// between <buy_id> and <sell_id>`.
pub open spec fn spec_trade_text(t: Trade) -> Seq<char> {
    "Trade: "@ + spec_dec(t.quantity as nat) + " BTC @ "@ + spec_dec(t.price as nat)
        + " USD between "@ + spec_dec(t.buy_id as nat) + " and "@ + spec_dec(t.sell_id as nat)
}

/// Executes one trade between a buy and a sell order.
///
/// The matched quantity is the lesser of the two remaining quantities; the
/// execution price is the lesser of the two limit prices. Each side's
/// remaining quantity decreases by exactly the matched quantity, and at
/// least one side is fully depleted.
pub fn do_trade(buy: &mut Order, sell: &mut Order) -> (t: Trade)
    requires
        old(buy).order_type == OrderType::Buy,
        old(sell).order_type == OrderType::Sell,
        old(buy).quantity > 0,
        old(sell).quantity > 0,
    ensures
        t.buy_id == old(buy).id,
        t.sell_id == old(sell).id,
        t.price == min_u32(old(buy).price, old(sell).price),
        t.quantity == min_u32(old(buy).quantity, old(sell).quantity),
        t.quantity > 0,
        final(buy).quantity == old(buy).quantity - t.quantity,
        final(sell).quantity == old(sell).quantity - t.quantity,
        final(buy).id == old(buy).id,
        final(buy).order_type == old(buy).order_type,
        final(buy).price == old(buy).price,
        final(sell).id == old(sell).id,
        final(sell).order_type == old(sell).order_type,
        final(sell).price == old(sell).price,
        final(buy).quantity == 0 || final(sell).quantity == 0,
{
    let quantity: u32;
    if sell.quantity < buy.quantity {
        quantity = sell.quantity;
        buy.quantity -= sell.quantity;
        sell.quantity = 0;
    } else {
        quantity = buy.quantity;
        sell.quantity -= buy.quantity;
        buy.quantity = 0;
    }
    Trade::new(buy.id, sell.id, lowest(buy.price, sell.price), quantity)
}

} // verus!
