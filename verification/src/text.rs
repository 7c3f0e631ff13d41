//! Session control commands: the input lines that end a session instead
//! of being parsed as orders.
//!
//! A line ends the session when, after trimming surrounding whitespace, it
//! is empty or reads `end`, `break` or `stop` regardless of letter case
//! (case folding here is over the ASCII letters).

use crate::parse::is_space;
use crate::parse::trim_back_if;
use crate::parse::trim_front_if;
use vstd::prelude::*;
use vstd::string::StrSliceExecFns;

verus! {

/// `c` reads as the lower-case letter `l` when case is ignored.
pub open spec fn lower_matches(c: char, l: char) -> bool {
    c == l || (65 <= c as u32 <= 90 && c as u32 + 32 == l as u32)
}

/// `s` equals the lower-case word `w` when letter case is ignored.
pub open spec fn eq_ignore_case(s: Seq<char>, w: Seq<char>) -> bool {
    s.len() == w.len() && forall|i: int| 0 <= i < s.len() ==> lower_matches(#[trigger] s[i], w[i])
}

/// `s` with surrounding whitespace removed.
pub open spec fn spec_trim_ws(s: Seq<char>) -> Seq<char> {
    trim_back_if(trim_front_if(s, |c: char| is_space(c)), |c: char| is_space(c))
}

/// A line that ends the input session: empty after trimming, or one of
/// the words `end`, `break` or `stop` in any letter case.
pub open spec fn spec_is_end_command(s: Seq<char>) -> bool {
    let t = spec_trim_ws(s);
    ||| t.len() == 0
    ||| eq_ignore_case(t, "end"@)
    ||| eq_ignore_case(t, "break"@)
    ||| eq_ignore_case(t, "stop"@)
}

/// Compares a string against a lower-case word, ignoring ASCII case.
fn ascii_ieq(s: &str, w: &str) -> (r: bool)
    ensures
        r == eq_ignore_case(s@, w@),
{
    let n = s.unicode_len();
    if n != w.unicode_len() {
        return false;
    }
    let mut i: usize = 0;
    while i < n
        invariant
            i <= n,
            n == s@.len(),
            n == w@.len(),
            forall|k: int| 0 <= k < i ==> lower_matches(#[trigger] s@[k], w@[k]),
        decreases n - i,
    {
        let c = s.get_char(i);
        let l = w.get_char(i);
        let cv = c as u32;
        if !(c == l || (cv >= 65 && cv <= 90 && cv + 32 == l as u32)) {
            return false;
        }
        i += 1;
    }
    true
}

fn is_space_char(c: char) -> (r: bool)
    ensures
        r == is_space(c),
{
    c == ' ' || c == '\t' || c == '\r' || c == '\n'
}

/// Whether an input line ends the session rather than being an order.
pub fn is_loop_end_command(inp: &String) -> (r: bool)
    ensures
        r == spec_is_end_command(inp@),
{
    let s = inp.as_str();
    let n = s.unicode_len();
    let mut a: usize = 0;
    while a < n && is_space_char(s.get_char(a))
        invariant
            a <= n,
            n == s@.len(),
            forall|k: int| 0 <= k < a ==> is_space(#[trigger] s@[k]),
        decreases n - a,
    {
        a += 1;
    }
    let mut b: usize = n;
    while b > a && is_space_char(s.get_char(b - 1))
        invariant
            a <= b <= n,
            n == s@.len(),
            forall|k: int| b <= k < n ==> is_space(#[trigger] s@[k]),
        decreases b,
    {
        b -= 1;
    }
    let t = s.substring_char(a, b);
    proof {
        let p = (|c: char| is_space(c));
        crate::parse::lemma_trim_front_if(s@, p, a as int);
        let mid = s@.skip(a as int);
        assert(forall|k: int| 0 <= k < mid.len() ==> #[trigger] mid[k] == s@[k + a]);
        crate::parse::lemma_trim_back_if(mid, p, b - a);
        assert(mid.take(b - a) =~= s@.subrange(a as int, b as int));
    }
    if b == a {
        return true;
    }
    ascii_ieq(t, "end") || ascii_ieq(t, "break") || ascii_ieq(t, "stop")
}

} // verus!
