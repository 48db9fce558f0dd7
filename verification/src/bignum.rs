//! Arbitrary-precision integers as plain values (sign and big-endian magnitude
//! bytes), and the integer operations of `fast_paillier` on them.
use vstd::prelude::*;
use fast_paillier::backend::{Integer, Sign};
use crate::radix::parse_radix36;
use crate::radix::{format_radix36, lemma_format_injective, lemma_format_sign, lemma_format_small};

verus! {

/// Value of big-endian base-256 digits.
pub open spec fn be_value(b: Seq<u8>) -> nat
    decreases b.len(),
{
    if b.len() == 0 {
        0
    } else {
        be_value(b.drop_last()) * 256 + b.last() as nat
    }
}

/// An integer of any size: a sign and the big-endian bytes of its magnitude.
pub struct Num {
    pub(crate) negative: bool,
    pub(crate) magnitude: Vec<u8>,
}

impl View for Num {
    type V = int;

    closed spec fn view(&self) -> int {
        if self.negative {
            -(be_value(self.magnitude@) as int)
        } else {
            be_value(self.magnitude@) as int
        }
    }
}

/// `Integer::from_str_radix(s, 36)`: the integer that `s` spells in base 36, read
/// as `parse_radix36` describes, and `None` when `s` spells none.
#[verifier::external_body]
fn integer_from_str_radix36(s: &str) -> (r: Option<Num>)
    ensures
        match parse_radix36(s@) {
            Some(v) => r matches Some(x) && x@ == v,
            None => r is None,
        },
{
    match Integer::from_str_radix(s, 36) {
        Some(x) => {
            let (magnitude, sign) = x.to_bytes_msf_signed();
            Some(Num { negative: sign == Sign::Negative, magnitude })
        },
        None => None,
    }
}

/// `Integer::to_str_radix(x, 36)`: the canonical lower-case base-36 text of `x`.
#[verifier::external_body]
fn integer_to_str_radix36(x: &Num) -> (r: String)
    ensures
        r@ == format_radix36(x@),
{
    let sign = if x.negative { Sign::Negative } else { Sign::NonNegative };
    Integer::from_bytes_msf_signed(&x.magnitude, sign).to_str_radix(36)
}

/// `Integer + 1`: the successor of `x`.
#[verifier::external_body]
fn integer_add_one(x: &Num) -> (r: Num)
    ensures
        r@ == x@ + 1,
{
    let sign = if x.negative { Sign::Negative } else { Sign::NonNegative };
    let (magnitude, sign) = (Integer::from_bytes_msf_signed(&x.magnitude, sign) + 1i32).to_bytes_msf_signed();
    Num { negative: sign == Sign::Negative, magnitude }
}

/// `Integer::zero() + v`: the integer `v`.
#[verifier::external_body]
fn integer_from_i64(v: i64) -> (r: Num)
    ensures
        r@ == v,
{
    let (magnitude, sign) = (Integer::zero() + v).to_bytes_msf_signed();
    Num { negative: sign == Sign::Negative, magnitude }
}

impl Num {
    /// Reads an integer from its base-36 text (see `parse_radix36`).
    pub fn parse_radix36(s: &str) -> (r: Option<Num>)
        ensures
            match parse_radix36(s@) {
                Some(v) => r matches Some(x) && x@ == v,
                None => r is None,
            },
    {
        integer_from_str_radix36(s)
    }

    /// The canonical lower-case base-36 text of the integer.
    pub fn to_radix36(&self) -> (r: String)
        ensures
            r@ == format_radix36(self@),
    {
        integer_to_str_radix36(self)
    }

    /// The integer `v`.
    pub fn from_i64(v: i64) -> (r: Num)
        ensures
            r@ == v,
    {
        integer_from_i64(v)
    }

    /// The integer one greater.
    pub fn plus_one(&self) -> (r: Num)
        ensures
            r@ == self@ + 1,
    {
        integer_add_one(self)
    }

    /// Whether the two integers are equal (compared by their canonical texts).
    pub fn equals(&self, other: &Num) -> (r: bool)
        ensures
            r == (self@ == other@),
    {
        proof {
            lemma_format_injective(self@, other@);
        }
        self.to_radix36() == other.to_radix36()
    }

    /// Whether the integer is below 2 (read from its canonical text).
    pub fn is_below_two(&self) -> (r: bool)
        ensures
            r == (self@ < 2),
    {
        let text = self.to_radix36();
        proof {
            lemma_format_sign(self@);
            lemma_format_small();
            lemma_format_injective(self@, 0);
            lemma_format_injective(self@, 1);
            reveal_strlit("0");
            reveal_strlit("1");
        }
        if text.as_str().get_char(0) == '-' {
            return true;
        }
        let zero = "0".to_string();
        let one = "1".to_string();
        assert(zero@ =~= seq!['0']);
        assert(one@ =~= seq!['1']);
        text == zero || text == one
    }
}

} // verus!
