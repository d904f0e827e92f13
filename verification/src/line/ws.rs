//! WebSocket lines: who is calling when a proxy forwards the call.

use vstd::prelude::*;
use crate::text::{chars_of, push_chars, trim, trim_str};

verus! {

/// Where the call comes from, by a forwarding header: the first address
/// it lists, without white space at the ends.
pub open spec fn forwarded_text(header: Seq<char>) -> Seq<char> {
    trim(match first_comma(header) {
        Some(i) => header.take(i),
        None => header,
    })
}

/// The index of the first comma.
pub open spec fn first_comma(s: Seq<char>) -> Option<int>
    decreases s.len(),
{
    if s.len() == 0 {
        None
    } else {
        match first_comma(s.drop_last()) {
            Some(i) => Some(i),
            None => if s.last() == ',' { Some(s.len() - 1) } else { None },
        }
    }
}

fn find_comma(v: &Vec<char>) -> (r: usize)
    ensures
        r <= v@.len(),
        r < v@.len() ==> first_comma(v@) == Some(r as int),
        r == v@.len() ==> first_comma(v@) is None,
{
    let mut i: usize = 0;
    while i < v.len()
        invariant
            i <= v@.len(),
            first_comma(v@.take(i as int)) is None,
        decreases v.len() - i,
    {
        let ghost t = v@.take(i + 1);
        assert(t.drop_last() == v@.take(i as int));
        assert(t.last() == v@[i as int]);
        if v[i] == ',' {
            proof { lemma_first_comma_prefix(v@, i + 1); }
            return i;
        }
        i = i + 1;
    }
    assert(v@.take(i as int) == v@);
    i
}

pub fn forwarded_peer(header: &str) -> (r: String)
    ensures
        r@ == forwarded_text(header@),
{
    let v = chars_of(header);
    let i = find_comma(&v);
    let mut first = String::new();
    push_chars(&mut first, &v, 0, i);
    assert(v@.subrange(0, i as int) == v@.take(i as int));
    if i == v.len() {
        assert(v@.take(i as int) == v@);
    }
    trim_str(first.as_str())
}

proof fn lemma_first_comma_prefix(s: Seq<char>, k: int)
    requires
        0 <= k <= s.len(),
        first_comma(s.take(k)) is Some,
    ensures
        first_comma(s) == first_comma(s.take(k)),
    decreases s.len() - k,
{
    if k < s.len() {
        assert(s.take(k + 1).drop_last() == s.take(k));
        lemma_first_comma_prefix(s, k + 1);
    } else {
        assert(s.take(k) == s);
    }
}

/// How a forwarded caller is shown.
pub open spec fn ws_peer_text(addr: Seq<char>) -> Seq<char> {
    addr + " (WS)"@
}

pub fn ws_peer(addr: &str) -> (r: String)
    ensures
        r@ == ws_peer_text(addr@),
{
    let mut s = String::from_str(addr);
    s.append(" (WS)");
    s
}

/// What a caller hears when every line is taken.
pub fn busy_message() -> (r: &'static str)
    ensures
        r@ == "\r\nただいま回線が混み合っています。しばらくしてからおかけ直しください。\r\n"@,
{
    "\r\nただいま回線が混み合っています。しばらくしてからおかけ直しください。\r\n"
}

} // verus!
