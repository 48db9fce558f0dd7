//! The text form of a decryption key: the two primes in base 36, joined by `||`.
use vstd::prelude::*;
use crate::radix::{digit_value, digits36, format_radix36, lemma_digits36};

verus! {

/// `s` holds the separator `||` at position `i`.
pub open spec fn bar_pair_at(s: Seq<char>, i: int) -> bool {
    0 <= i && i + 1 < s.len() && s[i] == '|' && s[i + 1] == '|'
}

/// The leftmost position at or after `from` where the separator `||` starts.
pub open spec fn first_bar_pair_from(s: Seq<char>, from: int) -> Option<int>
    decreases s.len() - from,
{
    if from < 0 || from + 1 >= s.len() {
        None
    } else if bar_pair_at(s, from) {
        Some(from)
    } else {
        first_bar_pair_from(s, from + 1)
    }
}

/// The two pieces of `s` when splitting it at every `||` (leftmost first, without
/// overlap) gives exactly two pieces, and `None` when it gives one or more than two.
pub open spec fn two_pieces(s: Seq<char>) -> Option<(Seq<char>, Seq<char>)> {
    match first_bar_pair_from(s, 0) {
        None => None,
        Some(i) => {
            let rest = s.skip(i + 2);
            if first_bar_pair_from(rest, 0) is None {
                Some((s.take(i), rest))
            } else {
                None
            }
        },
    }
}

/// The text of a decryption key with primes `p` and `q`.
pub open spec fn key_pair_text(p: int, q: int) -> Seq<char> {
    format_radix36(p) + seq!['|', '|'] + format_radix36(q)
}

proof fn lemma_first_bar_pair_found(s: Seq<char>, from: int, i: int)
    requires
        0 <= from <= i,
        bar_pair_at(s, i),
        forall|k: int| from <= k < i ==> !bar_pair_at(s, k),
    ensures
        first_bar_pair_from(s, from) == Some(i),
    decreases i - from,
{
    if from < i {
        lemma_first_bar_pair_found(s, from + 1, i);
    }
}

proof fn lemma_first_bar_pair_none(s: Seq<char>, from: int)
    requires
        0 <= from,
        forall|k: int| from <= k ==> !bar_pair_at(s, k),
    ensures
        first_bar_pair_from(s, from) is None,
    decreases s.len() - from,
{
    if from + 1 < s.len() {
        lemma_first_bar_pair_none(s, from + 1);
    }
}

proof fn lemma_first_bar_pair_bounds(s: Seq<char>, from: int)
    ensures
        first_bar_pair_from(s, from) matches Some(i) ==> from <= i && bar_pair_at(s, i),
    decreases s.len() - from,
{
    if 0 <= from && from + 1 < s.len() && !bar_pair_at(s, from) {
        lemma_first_bar_pair_bounds(s, from + 1);
    }
}

/// Leftmost position of `||` in `s`.
fn find_bar_pair(s: &str) -> (r: Option<usize>)
    ensures
        match r {
            None => first_bar_pair_from(s@, 0) is None,
            Some(i) => first_bar_pair_from(s@, 0) == Some(i as int),
        },
{
    let n = s.unicode_len();
    let mut i: usize = 0;
    while i < n && n - i >= 2
        invariant
            n == s@.len(),
            i <= n,
            forall|k: int| 0 <= k < i ==> !bar_pair_at(s@, k),
        decreases n - i,
    {
        if s.get_char(i) == '|' && s.get_char(i + 1) == '|' {
            proof {
                lemma_first_bar_pair_found(s@, 0, i as int);
            }
            return Some(i);
        }
        i = i + 1;
    }
    proof {
        lemma_first_bar_pair_none(s@, 0);
    }
    None
}

/// Splits a key text at `||`; succeeds exactly when that gives two pieces.
pub fn split_key_pair(s: &str) -> (r: Option<(String, String)>)
    ensures
        match two_pieces(s@) {
            None => r is None,
            Some((a, b)) => r matches Some((x, y)) && x@ == a && y@ == b,
        },
{
    match find_bar_pair(s) {
        None => None,
        Some(i) => {
            proof {
                lemma_first_bar_pair_bounds(s@, 0);
            }
            let n = s.unicode_len();
            let first = s.substring_char(0, i);
            let rest = s.substring_char(i + 2, n);
            match find_bar_pair(rest) {
                Some(_) => None,
                None => {
                    assert(first@ =~= s@.take(i as int));
                    assert(rest@ =~= s@.skip(i + 2));
                    Some((String::from_str(first), String::from_str(rest)))
                },
            }
        },
    }
}

/// A text with no `|` holds no separator.
proof fn lemma_no_bar(s: Seq<char>)
    requires
        forall|k: int| 0 <= k < s.len() ==> s[k] != '|',
    ensures
        first_bar_pair_from(s, 0) is None,
{
    lemma_first_bar_pair_none(s, 0);
}

proof fn lemma_format_has_no_bar(x: int)
    ensures
        forall|k: int| 0 <= k < format_radix36(x).len() ==> format_radix36(x)[k] != '|',
{
    let s = format_radix36(x);
    if x < 0 {
        lemma_digits36((-x) as nat);
        let d = digits36((-x) as nat);
        assert forall|k: int| 0 <= k < s.len() implies s[k] != '|' by {
            if k > 0 {
                assert(s[k] == d[k - 1]);
                assert(0 <= digit_value(d[k - 1]));
            }
        }
    } else {
        lemma_digits36(x as nat);
        assert forall|k: int| 0 <= k < s.len() implies s[k] != '|' by {
            assert(0 <= digit_value(s[k]));
        }
    }
}

/// The text of a key with primes `p` and `q` splits back into the texts of `p` and `q`.
pub proof fn lemma_key_pair_text_splits(p: int, q: int)
    ensures
        two_pieces(key_pair_text(p, q)) == Some((format_radix36(p), format_radix36(q))),
{
    let a = format_radix36(p);
    let b = format_radix36(q);
    let s = key_pair_text(p, q);
    lemma_format_has_no_bar(p);
    lemma_format_has_no_bar(q);
    assert forall|k: int| 0 <= k < a.len() implies !bar_pair_at(s, k) by {
        assert(s[k] == a[k]);
    }
    assert(s[a.len() as int] == '|');
    assert(s[a.len() as int + 1] == '|');
    lemma_first_bar_pair_found(s, 0, a.len() as int);
    assert(s.skip(a.len() as int + 2) =~= b);
    assert(s.take(a.len() as int) =~= a);
    lemma_no_bar(b);
}

} // verus!
