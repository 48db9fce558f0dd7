//! The homomorphic sum of a list of ciphertext texts depends neither on the order
//! of the list nor on its keys: only on the multiset of its ciphertext texts.
use vstd::prelude::*;
use vstd::seq_lib::group_to_multiset_ensures;
use vstd::arithmetic::div_mod::{lemma_mul_mod_noop_left, lemma_small_mod};
use crate::api::{add_array_outcome, sum_prefix};
use crate::paillier::{add_value, in_mult_group, lemma_mult_group_closed};
use crate::radix::parse_radix36;

verus! {

/// The ciphertext texts of a keyed list, in order.
pub open spec fn values_of(cts: Seq<(String, String)>) -> Seq<Seq<char>> {
    cts.map_values(|e: (String, String)| e.1@)
}

/// The text reads in base 36 as a member of the multiplicative group modulo `n^2`.
pub open spec fn unit_text(n: int, t: Seq<char>) -> bool {
    parse_radix36(t) matches Some(c) && in_mult_group(c, n * n)
}

/// Every text of the sequence reads as a member of the multiplicative group modulo `n^2`.
pub open spec fn all_units(n: int, s: Seq<Seq<char>>) -> bool {
    forall|i: int| 0 <= i < s.len() ==> #[trigger] unit_text(n, s[i])
}

/// The product of the integers the texts of the sequence read as.
pub open spec fn text_product(s: Seq<Seq<char>>) -> int
    decreases s.len(),
{
    if s.len() == 0 {
        1
    } else {
        text_product(s.drop_last()) * parse_radix36(s.last())->Some_0
    }
}

/// Taking one text out of the sequence takes its factor out of the product.
proof fn lemma_product_remove(s: Seq<Seq<char>>, i: int)
    requires
        0 <= i < s.len(),
    ensures
        text_product(s) == text_product(s.remove(i)) * parse_radix36(s[i])->Some_0,
    decreases s.len(),
{
    if i == s.len() - 1 {
        assert(s.remove(i) =~= s.drop_last());
    } else {
        lemma_product_remove(s.drop_last(), i);
        assert(s.remove(i).drop_last() =~= s.drop_last().remove(i));
        assert(s.remove(i).last() == s.last());
        let a = text_product(s.drop_last().remove(i));
        let x = parse_radix36(s[i])->Some_0;
        let l = parse_radix36(s.last())->Some_0;
        assert((a * x) * l == (a * l) * x) by (nonlinear_arith);
    }
}

/// Sequences with the same multiset of texts have the same product.
proof fn lemma_product_any_order(s1: Seq<Seq<char>>, s2: Seq<Seq<char>>)
    requires
        s1.to_multiset() == s2.to_multiset(),
    ensures
        text_product(s1) == text_product(s2),
    decreases s1.len(),
{
    broadcast use group_to_multiset_ensures;

    assert(s1.to_multiset().len() == s1.len());
    assert(s2.to_multiset().len() == s2.len());
    if s1.len() == 0 {
    } else {
        let x = s1.last();
        assert(s1.contains(x)) by {
            assert(s1[s1.len() - 1] == x);
        }
        assert(s2.to_multiset().count(x) > 0);
        let j = choose|j: int| 0 <= j < s2.len() && s2[j] == x;
        assert(s1.drop_last().push(x) =~= s1);
        assert(s1.drop_last().to_multiset() =~= s1.to_multiset().remove(x));
        assert(s2.remove(j).to_multiset() =~= s2.to_multiset().remove(x));
        lemma_product_any_order(s1.drop_last(), s2.remove(j));
        lemma_product_remove(s2, j);
    }
}

/// Whether every text is a group member does not depend on the order of the texts.
proof fn lemma_units_any_order(n: int, s1: Seq<Seq<char>>, s2: Seq<Seq<char>>)
    requires
        s1.to_multiset() == s2.to_multiset(),
        all_units(n, s1),
    ensures
        all_units(n, s2),
{
    broadcast use group_to_multiset_ensures;

    assert forall|j: int| 0 <= j < s2.len() implies #[trigger] unit_text(n, s2[j]) by {
        assert(s2.contains(s2[j]));
        assert(s1.to_multiset().count(s2[j]) > 0);
        let i = choose|i: int| 0 <= i < s1.len() && s1[i] == s2[j];
        assert(unit_text(n, s1[i]));
    }
}

/// The product of group members, reduced modulo `n^2`, is a group member.
proof fn lemma_product_in_group(n: int, s: Seq<Seq<char>>)
    requires
        s.len() >= 1,
        all_units(n, s),
    ensures
        in_mult_group(text_product(s) % (n * n), n * n),
    decreases s.len(),
{
    let m = n * n;
    let c = parse_radix36(s.last())->Some_0;
    assert(unit_text(n, s[s.len() - 1]));
    if s.len() == 1 {
        assert(s.drop_last().len() == 0);
        assert(text_product(s) == c);
        lemma_small_mod(c as nat, m as nat);
    } else {
        assert forall|i: int| 0 <= i < s.drop_last().len() implies #[trigger] unit_text(n, s.drop_last()[i]) by {
            assert(unit_text(n, s[i]));
        }
        lemma_product_in_group(n, s.drop_last());
        let t = text_product(s.drop_last());
        lemma_mul_mod_noop_left(t, c, m);
        lemma_mult_group_closed(t % m, c, m);
    }
}

/// From two texts on, the running total of the list is the product of its texts
/// modulo `n^2`, and it exists exactly when every text so far is a group member.
proof fn lemma_sum_prefix_product(n: int, cts: Seq<(String, String)>, k: nat)
    requires
        2 <= k <= cts.len(),
    ensures
        sum_prefix(n, cts, k) is Ok <==> all_units(n, values_of(cts).take(k as int)),
        sum_prefix(n, cts, k) is Ok ==> sum_prefix(n, cts, k)->Ok_0 == text_product(
            values_of(cts).take(k as int),
        ) % (n * n),
    decreases k,
{
    let m = n * n;
    let s = values_of(cts).take(k as int);
    let prev = values_of(cts).take(k - 1);
    assert(s.drop_last() =~= prev);
    assert(s.last() == cts[k - 1].1@);
    assert forall|i: int| 0 <= i < prev.len() implies #[trigger] prev[i] == s[i] by {}
    if k == 2 {
        assert(prev.len() == 1 && prev[0] == cts[0].1@);
        assert(prev.drop_last().len() == 0);
        if all_units(n, s) {
            assert(unit_text(n, s[0]));
            assert(unit_text(n, s[1]));
        }
        if sum_prefix(n, cts, k) is Ok {
            assert(unit_text(n, s[0]));
            assert(unit_text(n, s[1]));
            assert(prev.last() == cts[0].1@);
            assert(text_product(prev.drop_last()) == 1);
        }
    } else {
        lemma_sum_prefix_product(n, cts, (k - 1) as nat);
        if all_units(n, prev) {
            lemma_product_in_group(n, prev);
            lemma_mul_mod_noop_left(text_product(prev), parse_radix36(s.last())->Some_0, m);
        }
        if all_units(n, s) {
            assert forall|i: int| 0 <= i < prev.len() implies #[trigger] unit_text(n, prev[i]) by {
                assert(unit_text(n, s[i]));
            }
            assert(unit_text(n, s[k - 1]));
        }
        if !all_units(n, prev) {
            assert(!all_units(n, s)) by {
                if all_units(n, s) {
                    assert forall|i: int| 0 <= i < prev.len() implies #[trigger] unit_text(n, prev[i]) by {
                        assert(unit_text(n, s[i]));
                    }
                }
            }
        }
        if sum_prefix(n, cts, k) is Ok {
            assert(all_units(n, prev));
            assert(unit_text(n, s.last()));
            assert forall|i: int| 0 <= i < s.len() implies #[trigger] unit_text(n, s[i]) by {
                if i < k - 1 {
                    assert(unit_text(n, prev[i]));
                }
            }
        }
    }
}

/// Adding the ciphertext texts of a list depends only on which texts it holds, with
/// their repeats: two lists with the same multiset of ciphertext texts, in any order
/// and under any keys, both add up, to the same total, or both fail.
pub proof fn lemma_add_array_any_order(ek: Seq<char>, cts1: Seq<(String, String)>, cts2: Seq<(String, String)>)
    requires
        values_of(cts1).to_multiset() == values_of(cts2).to_multiset(),
    ensures
        add_array_outcome(ek, cts1) is Ok <==> add_array_outcome(ek, cts2) is Ok,
        add_array_outcome(ek, cts1) is Ok ==> add_array_outcome(ek, cts1) == add_array_outcome(ek, cts2),
{
    broadcast use group_to_multiset_ensures;

    let s1 = values_of(cts1);
    let s2 = values_of(cts2);
    assert(s1.to_multiset().len() == s1.len());
    assert(s2.to_multiset().len() == s2.len());
    let len = cts1.len();
    if let Some(n) = parse_radix36(ek) {
        if len == 1 {
            assert(s1.contains(s1[0]));
            assert(s2.to_multiset().count(s1[0]) > 0);
            assert(s2.contains(s1[0]));
            assert(s2[0] == s1[0]);
            assert(cts1[0].1@ == cts2[0].1@);
        } else if len >= 2 {
            lemma_sum_prefix_product(n, cts1, len);
            lemma_sum_prefix_product(n, cts2, len);
            assert(s1.take(len as int) =~= s1);
            assert(s2.take(len as int) =~= s2);
            if all_units(n, s1) {
                lemma_units_any_order(n, s1, s2);
            }
            if all_units(n, s2) {
                lemma_units_any_order(n, s2, s1);
            }
            lemma_product_any_order(s1, s2);
        }
    }
}

} // verus!
