//! The base-36 text form of integers that keys, messages and ciphertexts travel in.
use vstd::prelude::*;

verus! {

/// Value of a base-36 digit character (either case), or `-1` when the character is no digit.
pub open spec fn digit_value(c: char) -> int {
    let u = c as u32;
    if 48 <= u <= 57 {
        u - 48
    } else if 97 <= u <= 122 {
        u - 97 + 10
    } else if 65 <= u <= 90 {
        u - 65 + 10
    } else {
        -1
    }
}

/// The lower-case character of a base-36 digit `d` in `0..36`.
pub open spec fn digit_char(d: int) -> char {
    if d < 10 {
        (48 + d) as char
    } else {
        (97 + d - 10) as char
    }
}

/// Value of a run of digits and underscores, read most significant first;
/// underscores are skipped and any other character makes the run invalid.
pub open spec fn digits_value(s: Seq<char>) -> Option<nat>
    decreases s.len(),
{
    if s.len() == 0 {
        Some(0)
    } else {
        match digits_value(s.drop_last()) {
            None => None,
            Some(v) => {
                let c = s.last();
                if c == '_' {
                    Some(v)
                } else if digit_value(c) >= 0 {
                    Some((v * 36 + digit_value(c)) as nat)
                } else {
                    None
                }
            },
        }
    }
}

/// Unsigned base-36 reading: one leading `+` may be dropped (not one followed by
/// another `+`); the rest must be non-empty and must not start with `_`.
pub open spec fn parse_unsigned36(s: Seq<char>) -> Option<nat> {
    let t = if s.len() > 0 && s[0] == '+' && !(s.len() > 1 && s[1] == '+') {
        s.drop_first()
    } else {
        s
    };
    if t.len() == 0 || t[0] == '_' {
        None
    } else {
        digits_value(t)
    }
}

/// Signed base-36 reading of a text: a leading `-` (not followed by `+`) negates
/// the unsigned reading of the rest.
pub open spec fn parse_radix36(s: Seq<char>) -> Option<int> {
    if s.len() > 0 && s[0] == '-' && !(s.len() > 1 && s[1] == '+') {
        match parse_unsigned36(s.drop_first()) {
            Some(v) => Some(-v),
            None => None,
        }
    } else {
        match parse_unsigned36(s) {
            Some(v) => Some(v as int),
            None => None,
        }
    }
}

/// Lower-case base-36 digits of `v`, most significant first, with no leading zero.
pub open spec fn digits36(v: nat) -> Seq<char>
    decreases v,
{
    if v < 36 {
        seq![digit_char(v as int)]
    } else {
        digits36(v / 36).push(digit_char((v % 36) as int))
    }
}

/// The canonical base-36 text of `x`: `-` before the digits of a negative number.
pub open spec fn format_radix36(x: int) -> Seq<char> {
    if x < 0 {
        seq!['-'] + digits36((-x) as nat)
    } else {
        digits36(x as nat)
    }
}

/// Every character of `s` is a lower-case base-36 digit.
pub open spec fn all_digits(s: Seq<char>) -> bool {
    forall|i: int| 0 <= i < s.len() ==> 0 <= #[trigger] digit_value(s[i]) && s[i] != '_'
}

pub proof fn lemma_digit_roundtrip(d: int)
    requires
        0 <= d < 36,
    ensures
        digit_value(digit_char(d)) == d,
        digit_char(d) != '_',
        digit_char(d) != '-',
        digit_char(d) != '+',
        digit_char(d) != '|',
{
}

pub proof fn lemma_digits36(v: nat)
    ensures
        digits_value(digits36(v)) == Some(v),
        digits36(v).len() > 0,
        all_digits(digits36(v)),
    decreases v,
{
    if v < 36 {
        lemma_digit_roundtrip(v as int);
        let s = digits36(v);
        assert(s.drop_last() =~= Seq::<char>::empty());
        assert(digits_value(s.drop_last()) == Some(0nat));
        assert(s.last() == digit_char(v as int));
    } else {
        lemma_digits36(v / 36);
        lemma_digit_roundtrip((v % 36) as int);
        let s = digits36(v);
        assert(s.drop_last() =~= digits36(v / 36));
        assert(v == (v / 36) * 36 + v % 36);
        assert(s.last() == digit_char((v % 36) as int));
        assert(digits_value(s) == Some(((v / 36) * 36 + digit_value(s.last())) as nat));
        assert forall|i: int| 0 <= i < s.len() implies 0 <= #[trigger] digit_value(s[i]) && s[i]
            != '_' by {
            if i < s.len() - 1 {
                assert(s[i] == digits36(v / 36)[i]);
            }
        }
    }
}

/// Reading back the canonical text of an integer gives the integer.
pub proof fn lemma_radix36_roundtrip(x: int)
    ensures
        parse_radix36(format_radix36(x)) == Some(x),
{
    if x < 0 {
        let d = digits36((-x) as nat);
        lemma_digits36((-x) as nat);
        lemma_digit_roundtrip(digit_value(d[0]));
        let s = format_radix36(x);
        assert(s.drop_first() =~= d);
        assert(s[1] == d[0]);
        assert(d[0] != '+') by {
            assert(0 <= digit_value(d[0]));
        }
    } else {
        let d = digits36(x as nat);
        lemma_digits36(x as nat);
        assert(0 <= digit_value(d[0]));
    }
}

/// Distinct integers have distinct canonical texts.
pub proof fn lemma_format_injective(a: int, b: int)
    ensures
        format_radix36(a) == format_radix36(b) ==> a == b,
{
    lemma_radix36_roundtrip(a);
    lemma_radix36_roundtrip(b);
}

/// The canonical text is never empty and starts with `-` exactly for a negative number.
pub proof fn lemma_format_sign(x: int)
    ensures
        format_radix36(x).len() > 0,
        format_radix36(x)[0] == '-' <==> x < 0,
{
    if x < 0 {
        lemma_digits36((-x) as nat);
    } else {
        lemma_digits36(x as nat);
        assert(0 <= digit_value(digits36(x as nat)[0]));
    }
}

/// The canonical texts of 0 and 1.
pub proof fn lemma_format_small()
    ensures
        format_radix36(0) == seq!['0'],
        format_radix36(1) == seq!['1'],
{
    assert(digits36(0) =~= seq![digit_char(0)]);
    assert(digits36(1) =~= seq![digit_char(1)]);
}

} // verus!
