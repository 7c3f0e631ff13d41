//! Order instructions: the side of an order and the order record itself.

use vstd::prelude::*;
use vstd::string::StrSliceExecFns;
use vstd::string::StringExecFns;

verus! {

/// The side of an order: a bid for the asset or an offer of it.
#[derive(Debug, PartialEq, Eq, Structural, Clone, Copy)]
pub enum OrderType {
    Buy,
    Sell,
}

/// The side token recognised in input text: exactly `"Buy"` or `"Sell"`,
/// case-sensitive; every other string is rejected.
pub open spec fn spec_order_type_of(s: Seq<char>) -> Option<OrderType> {
    if s == "Buy"@ {
        Some(OrderType::Buy)
    } else if s == "Sell"@ {
        Some(OrderType::Sell)
    } else {
        None
    }
}

/// Character-for-character string comparison.
pub fn str_eq(a: &str, b: &str) -> (r: bool)
    ensures
        r == (a@ == b@),
{
    let n = a.unicode_len();
    if n != b.unicode_len() {
        proof {
            assert(a@ != b@) by {
                if a@ == b@ {
                    assert(a@.len() == b@.len());
                }
            }
        }
        return false;
    }
    let mut i: usize = 0;
    while i < n
        invariant
            i <= n,
            n == a@.len(),
            n == b@.len(),
            forall|k: int| 0 <= k < i ==> a@[k] == b@[k],
        decreases n - i,
    {
        if a.get_char(i) != b.get_char(i) {
            proof {
                assert(a@ != b@) by {
                    if a@ == b@ {
                        assert(a@[i as int] == b@[i as int]);
                    }
                }
            }
            return false;
        }
        i += 1;
    }
    proof {
        assert(a@ =~= b@);
    }
    true
}

impl OrderType {
    /// Parses a side token, accepting exactly `"Buy"` and `"Sell"`.
    pub fn from_str(input: &str) -> (r: Option<OrderType>)
        ensures
            r == spec_order_type_of(input@),
    {
        if str_eq(input, "Buy") {
            Some(OrderType::Buy)
        } else if str_eq(input, "Sell") {
            Some(OrderType::Sell)
        } else {
            None
        }
    }

    /// The side's name as text.
    pub fn to_string(&self) -> (s: String)
        ensures
            s@ == spec_type_text(*self),
    {
        match self {
            OrderType::Buy => String::from_str("Buy"),
            OrderType::Sell => String::from_str("Sell"),
        }
    }
}

/// The text a side prints as: `"Buy"` or `"Sell"`.
pub open spec fn spec_type_text(t: OrderType) -> Seq<char> {
    match t {
        OrderType::Buy => "Buy"@,
        OrderType::Sell => "Sell"@,
    }
}

/// The text an order describes itself with: `ID: <id>, Type: <side>,
/// Price: <price>, Quantity: <quantity>`.
pub open spec fn spec_order_text(o: Order) -> Seq<char> {
    "ID: "@ + crate::decimal::spec_dec(o.id as nat) + ", Type: "@ + spec_type_text(o.order_type)
        + ", Price: "@ + crate::decimal::spec_dec(o.price as nat) + ", Quantity: "@
        + crate::decimal::spec_dec(o.quantity as nat)
}

/// A single order instruction: identity, side, limit price and the
/// remaining tradable quantity. The quantity only ever decreases after
/// construction; the other fields are never changed.
#[derive(Debug, PartialEq, Eq, Structural, Clone, Copy)]
pub struct Order {
    pub id: usize,
    pub order_type: OrderType,
    pub price: u32,
    pub quantity: u32,
}

impl Order {
    pub fn new(id: usize, order_type: OrderType, price: u32, quantity: u32) -> (o: Order)
        ensures
            o.id == id,
            o.order_type == order_type,
            o.price == price,
            o.quantity == quantity,
    {
        Order { id, order_type, price, quantity }
    }

    /// The all-zero buy order, useful as a placeholder.
    pub fn empty() -> (o: Order)
        ensures
            o.id == 0,
            o.order_type == OrderType::Buy,
            o.price == 0,
            o.quantity == 0,
    {
        Order { id: 0, order_type: OrderType::Buy, price: 0, quantity: 0 }
    }

    /// A human-readable description of the order.
    pub fn to_string(&self) -> (s: String)
        ensures
            s@ == spec_order_text(*self),
    {
        let mut s = String::from_str("ID: ");
        s.append(crate::decimal::u64_to_string(self.id as u64).as_str());
        s.append(", Type: ");
        s.append(self.order_type.to_string().as_str());
        s.append(", Price: ");
        s.append(crate::decimal::u64_to_string(self.price as u64).as_str());
        s.append(", Quantity: ");
        s.append(crate::decimal::u64_to_string(self.quantity as u64).as_str());
        proof {
            assert(s@ =~= spec_order_text(*self));
        }
        s
    }

    /// Natural equality: all four fields compared.
    pub fn equal_to(&self, other: &Order) -> (r: bool)
        ensures
            r == (*self == *other),
    {
        self.id == other.id && self.order_type == other.order_type && self.price == other.price
            && self.quantity == other.quantity
    }
}

} // verus!
