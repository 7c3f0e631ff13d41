//! The line parser: turns one line of input text into an order.
//!
//! The grammar is `<id>[.:] <Buy|Sell> <quantity> BTC @ <price> [USD]`:
//! at least seven whitespace-separated tokens, of which the first (with
//! any leading or trailing `.` or `:` stripped) is the id, the second the
//! side, the third the quantity and the sixth the price. The remaining
//! tokens are not inspected. Whitespace here is the blank, tab, carriage
//! return and line feed characters.

use crate::order::Order;
use crate::order::OrderType;
use crate::order::spec_order_type_of;
use vstd::prelude::*;
use vstd::string::StrSliceExecFns;
use vstd::string::StringExecFns;

verus! {

/// A whitespace character: token separator in order lines.
pub open spec fn is_space(c: char) -> bool {
    c == ' ' || c == '\t' || c == '\r' || c == '\n'
}

/// The separators stripped around the id token.
pub open spec fn is_sep(c: char) -> bool {
    c == '.' || c == ':'
}

fn is_space_exec(c: char) -> (r: bool)
    ensures
        r == is_space(c),
{
    c == ' ' || c == '\t' || c == '\r' || c == '\n'
}

fn is_sep_exec(c: char) -> (r: bool)
    ensures
        r == is_sep(c),
{
    c == '.' || c == ':'
}

/// The length of the leading run of non-whitespace characters.
pub open spec fn token_len(s: Seq<char>) -> nat
    decreases s.len(),
{
    if s.len() == 0 || is_space(s[0]) {
        0
    } else {
        1 + token_len(s.skip(1))
    }
}

proof fn lemma_token_len_le(s: Seq<char>)
    ensures
        token_len(s) <= s.len(),
    decreases s.len(),
{
    if s.len() > 0 && !is_space(s[0]) {
        lemma_token_len_le(s.skip(1));
    }
}

/// The leading run of non-whitespace characters is exactly `m` long when
/// the first `m` characters are non-whitespace and the next one, if any,
/// is whitespace.
proof fn lemma_token_scan(s: Seq<char>, m: int)
    requires
        0 <= m <= s.len(),
        forall|k: int| 0 <= k < m ==> !is_space(#[trigger] s[k]),
        m < s.len() ==> is_space(s[m]),
    ensures
        token_len(s) == m,
    decreases m,
{
    if m > 0 {
        lemma_token_scan(s.skip(1), m - 1);
        assert(forall|k: int| 0 <= k < s.skip(1).len() ==> #[trigger] s.skip(1)[k] == s[k + 1]);
    }
}

/// The whitespace-separated tokens of a line, in order.
pub open spec fn spec_tokens(s: Seq<char>) -> Seq<Seq<char>>
    decreases s.len(),
    via spec_tokens_decreases
{
    if s.len() == 0 {
        Seq::<Seq<char>>::empty()
    } else if is_space(s[0]) {
        spec_tokens(s.skip(1))
    } else {
        seq![s.take(token_len(s) as int)] + spec_tokens(s.skip(token_len(s) as int))
    }
}

#[via_fn]
proof fn spec_tokens_decreases(s: Seq<char>) {
    if s.len() > 0 && !is_space(s[0]) {
        lemma_token_len_le(s);
    }
}

/// The views of a run of token strings.
pub open spec fn seq_views(ts: Seq<String>) -> Seq<Seq<char>> {
    ts.map_values(|t: String| t@)
}

/// Splits a line into its whitespace-separated tokens.
pub fn tokenize(s: &str) -> (tokens: Vec<String>)
    ensures
        seq_views(tokens@) == spec_tokens(s@),
{
    let n = s.unicode_len();
    let mut tokens: Vec<String> = Vec::new();
    proof {
        assert(seq_views(tokens@) =~= Seq::<Seq<char>>::empty());
        assert(s@.skip(0) =~= s@);
        assert(seq_views(tokens@) + spec_tokens(s@) =~= spec_tokens(s@));
    }
    let mut i: usize = 0;
    while i < n
        invariant
            i <= n,
            n == s@.len(),
            spec_tokens(s@) == seq_views(tokens@) + spec_tokens(s@.skip(i as int)),
        decreases n - i,
    {
        if is_space_exec(s.get_char(i)) {
            proof {
                assert(s@.skip(i as int)[0] == s@[i as int]);
                assert(s@.skip(i as int).skip(1) =~= s@.skip(i as int + 1));
            }
            i += 1;
        } else {
            let start = i;
            let mut j = i;
            while j < n && !is_space_exec(s.get_char(j))
                invariant
                    start <= j <= n,
                    n == s@.len(),
                    forall|k: int| start <= k < j ==> !is_space(#[trigger] s@[k]),
                decreases n - j,
            {
                j += 1;
            }
            let tok = s.substring_char(start, j);
            let ghost tokens0 = tokens@;
            tokens.push(String::from_str(tok));
            proof {
                let rest = s@.skip(start as int);
                assert(forall|k: int| 0 <= k < rest.len() ==> #[trigger] rest[k] == s@[k + start]);
                lemma_token_scan(rest, j - start);
                assert(!is_space(rest[0]));
                assert(rest.take((j - start) as int) =~= s@.subrange(start as int, j as int));
                assert(rest.skip((j - start) as int) =~= s@.skip(j as int));
                assert(seq_views(tokens@) =~= seq_views(tokens0).push(tok@));
                assert(seq_views(tokens0) + spec_tokens(rest) =~= seq_views(tokens@)
                    + spec_tokens(s@.skip(j as int)));
            }
            i = j;
        }
    }
    proof {
        assert(s@.skip(n as int) =~= Seq::<char>::empty());
        assert(seq_views(tokens@) + spec_tokens(s@.skip(n as int)) =~= seq_views(tokens@));
    }
    tokens
}

/// A decimal digit.
pub open spec fn is_digit(c: char) -> bool {
    48 <= c as u32 <= 57
}

/// All characters are decimal digits.
pub open spec fn all_digits(s: Seq<char>) -> bool {
    forall|i: int| 0 <= i < s.len() ==> is_digit(#[trigger] s[i])
}

/// The number a run of decimal digits denotes.
pub open spec fn digits_val(s: Seq<char>) -> int
    decreases s.len(),
{
    if s.len() == 0 {
        0
    } else {
        digits_val(s.drop_last()) * 10 + (s.last() as u32 - 48)
    }
}

proof fn lemma_digits_val_nonneg(s: Seq<char>)
    requires
        all_digits(s),
    ensures
        digits_val(s) >= 0,
    decreases s.len(),
{
    if s.len() > 0 {
        assert(all_digits(s.drop_last()));
        lemma_digits_val_nonneg(s.drop_last());
    }
}

/// A longer run of digits denotes no smaller a number than its prefix.
proof fn lemma_digits_val_prefix(s: Seq<char>, i: int)
    requires
        all_digits(s),
        0 <= i <= s.len(),
    ensures
        digits_val(s) >= digits_val(s.take(i)),
    decreases s.len() - i,
{
    if i == s.len() {
        assert(s.take(i) =~= s);
    } else {
        assert(s.take(i + 1).drop_last() =~= s.take(i));
        assert(s.take(i + 1).last() == s[i]);
        assert(all_digits(s.take(i)));
        lemma_digits_val_nonneg(s.take(i));
        lemma_digits_val_prefix(s, i + 1);
    }
}

/// What parsing a decimal token as a 32-bit number yields: the denoted
/// value for a non-empty all-digit token that fits, nothing otherwise.
pub open spec fn spec_parse_u32(s: Seq<char>) -> Option<u32> {
    if s.len() > 0 && all_digits(s) && digits_val(s) <= u32::MAX {
        Some(digits_val(s) as u32)
    } else {
        None
    }
}

/// What parsing a decimal token as a machine-word number yields.
pub open spec fn spec_parse_usize(s: Seq<char>) -> Option<usize> {
    if s.len() > 0 && all_digits(s) && digits_val(s) <= usize::MAX {
        Some(digits_val(s) as usize)
    } else {
        None
    }
}

/// Parses a non-empty run of decimal digits as a 32-bit number.
pub fn parse_u32(s: &str) -> (r: Option<u32>)
    ensures
        r == spec_parse_u32(s@),
{
    let n = s.unicode_len();
    if n == 0 {
        return None;
    }
    let mut acc: u64 = 0;
    let mut i: usize = 0;
    while i < n
        invariant
            i <= n,
            n == s@.len(),
            n > 0,
            forall|k: int| 0 <= k < i ==> is_digit(#[trigger] s@[k]),
            acc == digits_val(s@.take(i as int)),
            acc <= u32::MAX,
        decreases n - i,
    {
        let c = s.get_char(i);
        let v = c as u32;
        if v < 48 || v > 57 {
            assert(!all_digits(s@));
            return None;
        }
        acc = acc * 10 + (v - 48) as u64;
        proof {
            assert(s@.take(i + 1).drop_last() =~= s@.take(i as int));
            assert(s@.take(i + 1).last() == s@[i as int]);
        }
        i += 1;
        if acc > u32::MAX as u64 {
            proof {
                if all_digits(s@) {
                    lemma_digits_val_prefix(s@, i as int);
                }
            }
            return None;
        }
    }
    proof {
        assert(s@.take(n as int) =~= s@);
    }
    Some(acc as u32)
}

/// Parses a non-empty run of decimal digits as a machine-word number.
pub fn parse_usize(s: &str) -> (r: Option<usize>)
    ensures
        r == spec_parse_usize(s@),
{
    let n = s.unicode_len();
    if n == 0 {
        return None;
    }
    let mut acc: usize = 0;
    let mut i: usize = 0;
    while i < n
        invariant
            i <= n,
            n == s@.len(),
            n > 0,
            forall|k: int| 0 <= k < i ==> is_digit(#[trigger] s@[k]),
            acc == digits_val(s@.take(i as int)),
        decreases n - i,
    {
        let c = s.get_char(i);
        let v = c as u32;
        if v < 48 || v > 57 {
            assert(!all_digits(s@));
            return None;
        }
        let d = (v - 48) as usize;
        proof {
            assert(s@.take(i + 1).drop_last() =~= s@.take(i as int));
            assert(s@.take(i + 1).last() == s@[i as int]);
        }
        if acc > usize::MAX / 10 {
            proof {
                if all_digits(s@) {
                    lemma_digits_val_prefix(s@, i + 1);
                }
            }
            return None;
        }
        acc = acc * 10;
        if d > usize::MAX - acc {
            proof {
                if all_digits(s@) {
                    lemma_digits_val_prefix(s@, i + 1);
                }
            }
            return None;
        }
        acc = acc + d;
        i += 1;
    }
    proof {
        assert(s@.take(n as int) =~= s@);
    }
    Some(acc)
}

/// `s` with its leading run of characters satisfying `p` removed.
pub open spec fn trim_front_if(s: Seq<char>, p: spec_fn(char) -> bool) -> Seq<char>
    decreases s.len(),
{
    if s.len() > 0 && p(s[0]) {
        trim_front_if(s.skip(1), p)
    } else {
        s
    }
}

/// `s` with its trailing run of characters satisfying `p` removed.
pub open spec fn trim_back_if(s: Seq<char>, p: spec_fn(char) -> bool) -> Seq<char>
    decreases s.len(),
{
    if s.len() > 0 && p(s.last()) {
        trim_back_if(s.drop_last(), p)
    } else {
        s
    }
}

pub proof fn lemma_trim_front_if(s: Seq<char>, p: spec_fn(char) -> bool, a: int)
    requires
        0 <= a <= s.len(),
        forall|k: int| 0 <= k < a ==> p(#[trigger] s[k]),
        a < s.len() ==> !p(s[a]),
    ensures
        trim_front_if(s, p) == s.skip(a),
    decreases a,
{
    if a == 0 {
        assert(s.skip(0) =~= s);
    } else {
        lemma_trim_front_if(s.skip(1), p, a - 1);
        assert(forall|k: int| 0 <= k < s.skip(1).len() ==> #[trigger] s.skip(1)[k] == s[k + 1]);
        assert(s.skip(1).skip(a - 1) =~= s.skip(a));
    }
}

pub proof fn lemma_trim_back_if(s: Seq<char>, p: spec_fn(char) -> bool, b: int)
    requires
        0 <= b <= s.len(),
        forall|k: int| b <= k < s.len() ==> p(#[trigger] s[k]),
        b > 0 ==> !p(s[b - 1]),
    ensures
        trim_back_if(s, p) == s.take(b),
    decreases s.len() - b,
{
    if b == s.len() {
        assert(s.take(b) =~= s);
    } else {
        lemma_trim_back_if(s.drop_last(), p, b);
        assert(s.drop_last().take(b) =~= s.take(b));
    }
}

/// The id token with any leading or trailing `.` or `:` removed.
pub open spec fn spec_trim_seps(s: Seq<char>) -> Seq<char> {
    trim_back_if(trim_front_if(s, |c: char| is_sep(c)), |c: char| is_sep(c))
}

/// Strips leading and trailing `.` and `:` characters.
pub fn trim_seps<'a>(s: &'a str) -> (r: &'a str)
    ensures
        r@ == spec_trim_seps(s@),
{
    let n = s.unicode_len();
    let mut a: usize = 0;
    while a < n && is_sep_exec(s.get_char(a))
        invariant
            a <= n,
            n == s@.len(),
            forall|k: int| 0 <= k < a ==> is_sep(#[trigger] s@[k]),
        decreases n - a,
    {
        a += 1;
    }
    let mut b: usize = n;
    while b > a && is_sep_exec(s.get_char(b - 1))
        invariant
            a <= b <= n,
            n == s@.len(),
            forall|k: int| b <= k < n ==> is_sep(#[trigger] s@[k]),
        decreases b,
    {
        b -= 1;
    }
    let r = s.substring_char(a, b);
    proof {
        let p = (|c: char| is_sep(c));
        lemma_trim_front_if(s@, p, a as int);
        let mid = s@.skip(a as int);
        assert(forall|k: int| 0 <= k < mid.len() ==> #[trigger] mid[k] == s@[k + a]);
        lemma_trim_back_if(mid, p, b - a);
        assert(mid.take(b - a) =~= s@.subrange(a as int, b as int));
    }
    r
}

/// What one line of input parses to: an order when the line has at least
/// seven tokens and its id, side, quantity and price tokens are well
/// formed, nothing otherwise.
pub open spec fn spec_parse_order(s: Seq<char>) -> Option<Order> {
    let toks = spec_tokens(s);
    if toks.len() < 7 {
        None
    } else {
        let id = spec_parse_usize(spec_trim_seps(toks[0]));
        let side = spec_order_type_of(toks[1]);
        let quantity = spec_parse_u32(toks[2]);
        let price = spec_parse_u32(toks[5]);
        if id is Some && side is Some && quantity is Some && price is Some {
            Some(
                Order {
                    id: id->0,
                    order_type: side->0,
                    price: price->0,
                    quantity: quantity->0,
                },
            )
        } else {
            None
        }
    }
}

/// Parses one line of input as an order, rejecting malformed lines.
pub fn construct_order(inp: &String) -> (r: Option<Order>)
    ensures
        r == spec_parse_order(inp@),
{
    let tokens = tokenize(inp.as_str());
    if tokens.len() < 7 {
        return None;
    }
    proof {
        assert(seq_views(tokens@)[0] == tokens@[0]@);
        assert(seq_views(tokens@)[1] == tokens@[1]@);
        assert(seq_views(tokens@)[2] == tokens@[2]@);
        assert(seq_views(tokens@)[5] == tokens@[5]@);
    }
    let id = match parse_usize(trim_seps(tokens[0].as_str())) {
        Some(x) => x,
        None => {
            return None;
        },
    };
    let order_type = match OrderType::from_str(tokens[1].as_str()) {
        Some(x) => x,
        None => {
            return None;
        },
    };
    let price = match parse_u32(tokens[5].as_str()) {
        Some(x) => x,
        None => {
            return None;
        },
    };
    let quantity = match parse_u32(tokens[2].as_str()) {
        Some(x) => x,
        None => {
            return None;
        },
    };
    Some(Order::new(id, order_type, price, quantity))
}

/// The length of the leading run of characters before a line feed.
pub open spec fn first_nl(s: Seq<char>) -> nat
    decreases s.len(),
{
    if s.len() == 0 || s[0] == '\n' {
        0
    } else {
        1 + first_nl(s.skip(1))
    }
}

proof fn lemma_first_nl_le(s: Seq<char>)
    ensures
        first_nl(s) <= s.len(),
    decreases s.len(),
{
    if s.len() > 0 && s[0] != '\n' {
        lemma_first_nl_le(s.skip(1));
    }
}

proof fn lemma_first_nl_scan(s: Seq<char>, m: int)
    requires
        0 <= m <= s.len(),
        forall|k: int| 0 <= k < m ==> #[trigger] s[k] != '\n',
        m < s.len() ==> s[m] == '\n',
    ensures
        first_nl(s) == m,
    decreases m,
{
    if m > 0 {
        lemma_first_nl_scan(s.skip(1), m - 1);
        assert(forall|k: int| 0 <= k < s.skip(1).len() ==> #[trigger] s.skip(1)[k] == s[k + 1]);
    }
}

/// A text split at every line feed, the way multi-line input is fed to
/// the parser: every piece appears, empty pieces included, and a text
/// without a line feed is one piece.
pub open spec fn spec_lines(s: Seq<char>) -> Seq<Seq<char>>
    decreases s.len(),
    via spec_lines_decreases
{
    let k = first_nl(s) as int;
    if k == s.len() {
        seq![s]
    } else {
        seq![s.take(k)] + spec_lines(s.skip(k + 1))
    }
}

#[via_fn]
proof fn spec_lines_decreases(s: Seq<char>) {
    lemma_first_nl_le(s);
}

/// The orders that a run of lines parses to, malformed lines skipped.
pub open spec fn spec_orders_of(lines: Seq<Seq<char>>) -> Seq<Order>
    decreases lines.len(),
{
    if lines.len() == 0 {
        Seq::<Order>::empty()
    } else {
        let tail = spec_orders_of(lines.skip(1));
        match spec_parse_order(lines[0]) {
            Some(o) => seq![o] + tail,
            None => tail,
        }
    }
}

/// Parses a multi-line text, one order per line; lines that do not parse
/// are skipped.
pub fn get_orders(inp: String) -> (orders: Vec<Order>)
    ensures
        orders@ == spec_orders_of(spec_lines(inp@)),
{
    let s = inp.as_str();
    let n = s.unicode_len();
    let mut orders: Vec<Order> = Vec::new();
    let mut i: usize = 0;
    proof {
        assert(s@.skip(0) =~= s@);
        assert(orders@ + spec_orders_of(spec_lines(s@)) =~= spec_orders_of(spec_lines(s@)));
    }
    loop
        invariant_except_break
            spec_orders_of(spec_lines(s@)) == orders@ + spec_orders_of(
                spec_lines(s@.skip(i as int)),
            ),
        invariant
            i <= n,
            n == s@.len(),
        ensures
            orders@ == spec_orders_of(spec_lines(s@)),
        decreases n - i,
    {
        let mut j = i;
        while j < n && s.get_char(j) != '\n'
            invariant
                i <= j <= n,
                n == s@.len(),
                forall|k: int| i <= k < j ==> #[trigger] s@[k] != '\n',
            decreases n - j,
        {
            j += 1;
        }
        let line = String::from_str(s.substring_char(i, j));
        let ghost orders0 = orders@;
        match construct_order(&line) {
            Some(o) => orders.push(o),
            None => {},
        }
        proof {
            let u = s@.skip(i as int);
            assert(forall|k: int| 0 <= k < u.len() ==> #[trigger] u[k] == s@[k + i]);
            lemma_first_nl_scan(u, j - i);
            assert(u.take(j - i) =~= s@.subrange(i as int, j as int));
            if j == n {
                assert(u =~= s@.subrange(i as int, j as int));
                assert(spec_lines(u) == seq![line@]);
                assert(seq![line@].skip(1) =~= Seq::<Seq<char>>::empty());
                assert(spec_orders_of(Seq::<Seq<char>>::empty()) =~= Seq::<Order>::empty());
                assert(spec_orders_of(seq![line@].skip(1)) =~= Seq::<Order>::empty());
                match spec_parse_order(line@) {
                    Some(o) => {
                        assert(spec_orders_of(spec_lines(u)) =~= seq![o]);
                        assert(orders@ =~= orders0.push(o));
                        assert(orders0 + seq![o] =~= orders@);
                    },
                    None => {
                        assert(spec_orders_of(spec_lines(u)) =~= Seq::<Order>::empty());
                        assert(orders0 + Seq::<Order>::empty() =~= orders@);
                    },
                }
            } else {
                assert(spec_lines(u) == seq![line@] + spec_lines(u.skip(j - i + 1)));
                assert((seq![line@] + spec_lines(u.skip(j - i + 1)))[0] == line@);
                assert((seq![line@] + spec_lines(u.skip(j - i + 1))).skip(1) =~= spec_lines(
                    u.skip(j - i + 1),
                ));
                assert(u.skip(j - i + 1) =~= s@.skip(j + 1));
                match spec_parse_order(line@) {
                    Some(o) => {
                        assert(spec_orders_of(spec_lines(u)) =~= seq![o] + spec_orders_of(
                            spec_lines(s@.skip(j + 1)),
                        ));
                        assert(orders0 + (seq![o] + spec_orders_of(spec_lines(s@.skip(j + 1))))
                            =~= orders@ + spec_orders_of(spec_lines(s@.skip(j + 1))));
                    },
                    None => {
                        assert(spec_orders_of(spec_lines(u)) =~= spec_orders_of(
                            spec_lines(s@.skip(j + 1)),
                        ));
                    },
                }
            }
        }
        if j == n {
            break ;
        }
        i = j + 1;
    }
    orders
}

} // verus!
