//! What the operations on texts do, stated over their inputs and results alone:
//! each law holds of every result the operation may return for its arguments.
use vstd::prelude::*;
use vstd::arithmetic::power2::{pow2, lemma2_to64, lemma_pow2_strictly_increases};
use crate::api::{
    key_list,
    pal_add,
    pal_add_array,
    pal_decrypt,
    pal_decrypt_array,
    pal_multiply,
    pal_encrypt,
    pal_encrypt_array,
    pal_generate_keys,
    pal_get_encryption_key_numbers,
};
use crate::ops::{lemma_canonical_ciphertext_reads, MsgType};
use crate::paillier::{abs_in_mult_group, is_encryption_of, is_prime, lemma_signed_residue_small, signed_residue};
use crate::scheme::key_accepted;
use crate::key_text::{lemma_key_pair_text_splits, two_pieces};
use crate::radix::{format_radix36, lemma_radix36_roundtrip, parse_radix36};
use crate::scheme::PrivateKey;

verus! {

/// The list has an entry under `name`.
pub open spec fn has_name(v: Seq<(String, String)>, name: Seq<char>) -> bool {
    exists|i: int| 0 <= i < v.len() && #[trigger] v[i].0@ == name
}

/// `pal_get_encryption_key_numbers` on a key text that reads as `n` gives `n` under
/// `1` and `n`, and the generator `g = n + 1` under `0` and `g`, for every `n`.
pub proof fn law_key_numbers(ek: String, r: Result<Vec<(String, String)>, String>, n: int)
    requires
        call_ensures(pal_get_encryption_key_numbers, (ek,), r),
        parse_radix36(ek@) == Some(n),
    ensures
        r matches Ok(v) && {
            &&& v@.len() == 4
            &&& has_name(v@, "0"@) && has_name(v@, "1"@) && has_name(v@, "g"@) && has_name(v@, "n"@)
            &&& forall|i: int|
                0 <= i < v@.len() && (v@[i].0@ == "0"@ || v@[i].0@ == "g"@) ==> parse_radix36(
                    #[trigger] v@[i].1@,
                ) == Some(n + 1)
            &&& forall|i: int|
                0 <= i < v@.len() && (v@[i].0@ == "1"@ || v@[i].0@ == "n"@) ==> parse_radix36(
                    #[trigger] v@[i].1@,
                ) == Some(n)
        },
{
    reveal_strlit("0");
    reveal_strlit("1");
    reveal_strlit("g");
    reveal_strlit("n");
    lemma_radix36_roundtrip(n);
    lemma_radix36_roundtrip(n + 1);
    assert("1"@[0] != "0"@[0] && "1"@[0] != "g"@[0] && "n"@[0] != "0"@[0] && "n"@[0] != "g"@[0]);
    assert(r is Ok);
    let v = r->Ok_0@;
    assert(crate::api::key_numbers_of(v, n));
    assert(v[0].0@ == "0"@);
    assert(has_name(v, "0"@));
    assert(has_name(v, "n"@));
    assert forall|i: int| 0 <= i < v.len() && (v[i].0@ == "0"@ || v[i].0@ == "g"@) implies parse_radix36(#[trigger] v[i].1@) == Some(n + 1) by {
        assert(0 <= i < 4);
    }
    assert(v[1].0@ == "1"@);
    assert(v[2].0@ == "n"@);
    assert(v[3].0@ == "g"@);
}

/// The text splits at `||` into two base-36 texts that read as `p` and `q`.
pub open spec fn reads_as_pair(t: Seq<char>, p: int, q: int) -> bool {
    two_pieces(t) matches Some((a, b)) && parse_radix36(a) == Some(p) && parse_radix36(b) == Some(q)
}

/// The list names a key pair of primes `p` and `q`: the entries `0` and
/// `encryption_key` hold the modulus `p q`, the entries `1` and `decryption_key`
/// hold `p` and `q` joined by `||`.
pub open spec fn names_key_pair(v: Seq<(String, String)>, p: int, q: int) -> bool {
    &&& v.len() == 4
    &&& has_name(v, "0"@) && has_name(v, "1"@) && has_name(v, "encryption_key"@) && has_name(v, "decryption_key"@)
    &&& forall|i: int|
        0 <= i < v.len() && (v[i].0@ == "0"@ || v[i].0@ == "encryption_key"@) ==> parse_radix36(
            #[trigger] v[i].1@,
        ) == Some(p * q)
    &&& forall|i: int|
        0 <= i < v.len() && (v[i].0@ == "1"@ || v[i].0@ == "decryption_key"@) ==> reads_as_pair(
            #[trigger] v[i].1@,
            p,
            q,
        )
}

/// Facts on the texts of a key list that the laws below use.
proof fn lemma_key_list_names(v: Seq<(String, String)>, p: int, q: int)
    requires
        crate::api::key_list_of(v, p, q),
    ensures
        names_key_pair(v, p, q),
{
    reveal_strlit("0");
    reveal_strlit("1");
    reveal_strlit("encryption_key");
    reveal_strlit("decryption_key");
    lemma_radix36_roundtrip(p);
    lemma_radix36_roundtrip(q);
    lemma_radix36_roundtrip(p * q);
    lemma_key_pair_text_splits(p, q);
    assert("1"@[0] != "0"@[0] && "1"@[0] != "encryption_key"@[0]);
    assert("decryption_key"@[0] != "0"@[0] && "decryption_key"@[0] != "encryption_key"@[0]);
    assert(v[0].0@ == "0"@);
    assert(v[1].0@ == "1"@);
    assert(v[2].0@ == "encryption_key"@);
    assert(v[3].0@ == "decryption_key"@);
    assert forall|i: int| 0 <= i < v.len() && (v[i].0@ == "0"@ || v[i].0@ == "encryption_key"@) implies parse_radix36(#[trigger] v[i].1@) == Some(p * q) by {
        assert(0 <= i < 4);
    }
    assert forall|i: int| 0 <= i < v.len() && (v[i].0@ == "1"@ || v[i].0@ == "decryption_key"@) implies reads_as_pair(#[trigger] v[i].1@, p, q) by {
        assert(0 <= i < 4);
    }
}

/// `key_list` names the key pair of the decryption key it is given: its modulus
/// `p q` under `0` and `encryption_key`, its primes `p||q` under `1` and
/// `decryption_key`.
pub proof fn law_key_list(dk: &PrivateKey, v: Vec<(String, String)>)
    requires
        call_ensures(key_list, (dk,), v),
    ensures
        names_key_pair(v@, dk.p_value(), dk.q_value()),
{
    lemma_key_list_names(v@, dk.p_value(), dk.q_value());
}

/// `pal_generate_keys` gives a key pair of two primes of at least 1536 bits, listed
/// as `names_key_pair` says; so its encryption key holds a modulus with room for
/// every 64-bit integer message: each lies in its signed range.
pub proof fn law_generated_keys(r: Result<Vec<(String, String)>, String>)
    requires
        call_ensures(pal_generate_keys, (), r),
    ensures
        r matches Ok(v) ==> exists|p: int, q: int|
            #[trigger] names_key_pair(v@, p, q) && p >= pow2(1535) && q >= pow2(1535),
        r matches Ok(v) ==> forall|i: int|
            0 <= i < v@.len() && #[trigger] v@[i].0@ == "encryption_key"@ ==> (parse_radix36(v@[i].1@) matches Some(n)
                && -(n / 2) <= i64::MIN && i64::MAX <= n / 2),
        r matches Err(e) ==> e@ == "Failed to generate decryption key"@,
{
    if r is Ok {
        let v = r->Ok_0@;
        let (p, q) = choose|p: int, q: int|
            #[trigger] crate::api::key_list_of(v, p, q) && crate::scheme::key_accepted(p, q) && p >= pow2(1535)
                && q >= pow2(1535);
        lemma_key_list_names(v, p, q);
        lemma2_to64();
        lemma_pow2_strictly_increases(64, 1535);
        let big = pow2(64) as int;
        assert(p * q >= 2 * big) by (nonlinear_arith)
            requires
                p > big,
                q > big,
                big > 2,
        ;
        assert forall|i: int|
            0 <= i < v.len() && #[trigger] v[i].0@ == "encryption_key"@ implies (parse_radix36(v[i].1@) matches Some(n)
                && -(n / 2) <= i64::MIN && i64::MAX <= n / 2) by {
            assert(parse_radix36(v[i].1@) == Some(p * q));
        }
    }
}

/// The text reads in base 36 as an encryption of `x` under modulus `n`.
pub open spec fn encrypts_text(n: int, x: int, s: Seq<char>) -> bool {
    parse_radix36(s) matches Some(c) && is_encryption_of(n, x, c)
}

/// The message stands for a plaintext in the signed range `-(n/2) ..= n/2`: an
/// integer there, or a base-36 text of one.
pub open spec fn message_in_range(n: int, m: MsgType) -> bool {
    match m {
        MsgType::Int(w) => -(n / 2) <= w <= n / 2,
        MsgType::Str(t) => parse_radix36(t@) matches Some(x) && -(n / 2) <= x <= n / 2,
        MsgType::Null => false,
    }
}

/// The text reads as an encryption under `n` of the message's own plaintext: the
/// integer itself, or what the message's text reads as in base 36.
pub open spec fn encrypts_message(n: int, m: MsgType, s: Seq<char>) -> bool {
    match m {
        MsgType::Int(w) => encrypts_text(n, w as int, s),
        MsgType::Str(t) => parse_radix36(t@) matches Some(x) && encrypts_text(n, x, s),
        MsgType::Null => false,
    }
}

/// `pal_encrypt` under a key text that reads as `n` encrypts a message whose
/// plaintext lies in `-(n/2) ..= n/2` as that plaintext itself, for every `n`: an
/// integer as the integer, a base-36 text as the number it reads as.
pub proof fn law_encrypt(ek: String, msg: MsgType, r: Result<String, String>, n: int)
    requires
        call_ensures(pal_encrypt, (ek, msg), r),
        parse_radix36(ek@) == Some(n),
        message_in_range(n, msg),
    ensures
        r matches Ok(s) && encrypts_message(n, msg, s@),
{
    let s = r->Ok_0@;
    match msg {
        MsgType::Int(w) => {
            lemma_canonical_ciphertext_reads(n, w as int, s);
        },
        MsgType::Str(t) => {
            lemma_canonical_ciphertext_reads(n, parse_radix36(t@)->Some_0, s);
        },
        MsgType::Null => {},
    }
}

/// `pal_encrypt_array` under a key text that reads as `n` keeps each key, in order,
/// and encrypts each message as its own plaintext, whatever its key; it succeeds
/// when every message's plaintext lies in `-(n/2) ..= n/2`.
pub proof fn law_encrypt_array(
    ek: String,
    msgs: Vec<(String, MsgType)>,
    r: Result<Vec<(String, String)>, String>,
    n: int,
)
    requires
        call_ensures(pal_encrypt_array, (ek, msgs), r),
        parse_radix36(ek@) == Some(n),
    ensures
        r matches Ok(v) ==> v@.len() == msgs@.len() && forall|i: int|
            0 <= i < v@.len() ==> #[trigger] v@[i].0@ == msgs@[i].0@ && encrypts_message(n, msgs@[i].1, v@[i].1@),
        (forall|i: int| 0 <= i < msgs@.len() ==> #[trigger] message_in_range(n, msgs@[i].1)) ==> r is Ok,
{
    if r is Ok {
        let v = r->Ok_0@;
        assert forall|i: int| 0 <= i < v.len() implies #[trigger] v[i].0@ == msgs@[i].0@ && encrypts_message(n, msgs@[i].1, v[i].1@) by {
            assert(crate::api::encrypted_entry(n, msgs@[i], v[i]));
            assert(crate::ops::encrypt_outcome(n, msgs@[i].1) is Ok) by {
                assert(crate::api::encrypt_succeeds(ek@, msgs@[i].1));
            }
            match msgs@[i].1 {
                MsgType::Int(w) => {
                    lemma_canonical_ciphertext_reads(n, w as int, v[i].1@);
                },
                MsgType::Str(t) => {
                    lemma_canonical_ciphertext_reads(n, parse_radix36(t@)->Some_0, v[i].1@);
                },
                MsgType::Null => {},
            }
        }
    }
    if forall|i: int| 0 <= i < msgs@.len() ==> #[trigger] message_in_range(n, msgs@[i].1) {
        assert forall|i: int| 0 <= i < msgs@.len() implies #[trigger] crate::api::encrypt_succeeds(ek@, msgs@[i].1) by {
            assert(message_in_range(n, msgs@[i].1));
        }
    }
}

/// `pal_decrypt` with a key text of distinct primes `p` and `q` that `from_primes`
/// accepts gives back, in base 36, the plaintext `x` of any encryption of `x` under
/// `p q` with `2 |x| < p q`: decryption undoes encryption.
pub proof fn law_decrypt(dk: String, ct: String, r: Result<String, String>, p: int, q: int, x: int)
    requires
        call_ensures(pal_decrypt, (dk, ct), r),
        reads_as_pair(dk@, p, q),
        key_accepted(p, q),
        is_prime(p),
        is_prime(q),
        encrypts_text(p * q, x, ct@),
        -(p * q) < 2 * x < p * q,
    ensures
        r matches Ok(m) && m@ == format_radix36(x),
{
    assert(crate::ops::decryption_key_outcome(dk@) == Ok::<(int, int), Seq<char>>((p, q)));
    assert(crate::ops::ciphertext_text_of(p * q, x, ct@));
    lemma_signed_residue_small(x, p * q);
}

/// `pal_add` under a key text that reads as `n > 1` turns encryptions of `x1` and
/// `x2` into an encryption of `x1 + x2`.
pub proof fn law_add(ek: String, ct1: String, ct2: String, r: Result<String, String>, n: int, x1: int, x2: int)
    requires
        call_ensures(pal_add, (ek, ct1, ct2), r),
        parse_radix36(ek@) == Some(n),
        n > 1,
        encrypts_text(n, x1, ct1@),
        encrypts_text(n, x2, ct2@),
    ensures
        r matches Ok(s) && encrypts_text(n, x1 + x2, s@),
{
    assert(crate::ops::ciphertext_text_of(n, x1, ct1@));
    assert(crate::ops::ciphertext_text_of(n, x2, ct2@));
    lemma_canonical_ciphertext_reads(n, x1 + x2, r->Ok_0@);
}

/// `pal_multiply` under a key text that reads as `n > 1` turns an encryption of `x`
/// into an encryption of `k x`, for every factor `k` whose absolute value lies in the
/// multiplicative group modulo `n`.
pub proof fn law_multiply(ek: String, ct: String, k: i64, r: Result<String, String>, n: int, x: int)
    requires
        call_ensures(pal_multiply, (ek, ct, k), r),
        parse_radix36(ek@) == Some(n),
        n > 1,
        abs_in_mult_group(k as int, n),
        encrypts_text(n, x, ct@),
    ensures
        r matches Ok(s) && encrypts_text(n, k * x, s@),
{
    assert(crate::ops::ciphertext_text_of(n, x, ct@));
    lemma_canonical_ciphertext_reads(n, k * x, r->Ok_0@);
}

/// `pal_add_array` under a key text that reads as `n > 1` turns a non-empty list of
/// encryptions of `xs` into an encryption of the sum of `xs`.
pub proof fn law_add_array(
    ek: String,
    cts: Vec<(String, String)>,
    r: Result<String, String>,
    n: int,
    xs: Seq<int>,
)
    requires
        call_ensures(pal_add_array, (ek, cts), r),
        parse_radix36(ek@) == Some(n),
        n > 1,
        cts@.len() > 0,
        xs.len() == cts@.len(),
        forall|i: int| 0 <= i < xs.len() ==> #[trigger] encrypts_text(n, xs[i], cts@[i].1@),
    ensures
        r matches Ok(s) && encrypts_text(n, crate::api::sum_of(xs), s@),
{
    assert(crate::api::encrypts_each(n, cts@, xs)) by {
        assert forall|i: int| 0 <= i < cts@.len() implies #[trigger] crate::ops::ciphertext_text_of(n, xs[i], cts@[i].1@) by {
            assert(encrypts_text(n, xs[i], cts@[i].1@));
        }
    }
    lemma_canonical_ciphertext_reads(n, crate::api::sum_of(xs), r->Ok_0@);
}

/// `pal_decrypt_array` with a key text of primes `p` and `q` that `from_primes`
/// accepts keeps each key, in order, and gives back the plaintext of each
/// encryption in the list, as `pal_decrypt` does for it alone.
pub proof fn law_decrypt_array(
    dk: String,
    cts: Vec<(String, String)>,
    r: Result<Vec<(String, String)>, String>,
    p: int,
    q: int,
    xs: Seq<int>,
)
    requires
        call_ensures(pal_decrypt_array, (dk, cts), r),
        reads_as_pair(dk@, p, q),
        key_accepted(p, q),
        is_prime(p),
        is_prime(q),
        xs.len() == cts@.len(),
        forall|i: int| 0 <= i < xs.len() ==> #[trigger] encrypts_text(p * q, xs[i], cts@[i].1@),
    ensures
        r matches Ok(v) && v@.len() == cts@.len() && forall|i: int|
            0 <= i < v@.len() ==> #[trigger] v@[i].0@ == cts@[i].0@ && v@[i].1@ == format_radix36(
                signed_residue(xs[i], p * q),
            ),
{
    assert(crate::ops::decryption_key_outcome(dk@) == Ok::<(int, int), Seq<char>>((p, q)));
    assert(crate::api::prime_key_text(dk@, p, q));
    assert(crate::api::encrypts_each(p * q, cts@, xs)) by {
        assert forall|i: int| 0 <= i < cts@.len() implies #[trigger] crate::ops::ciphertext_text_of(p * q, xs[i], cts@[i].1@) by {
            assert(encrypts_text(p * q, xs[i], cts@[i].1@));
        }
    }
}

/// The errors of `pal_encrypt`: a key text that reads as no number, a message of
/// no plaintext type, a text message that reads as no number, and a plaintext
/// outside `-(n/2) ..= n/2`.
pub proof fn law_encrypt_errors(ek: String, msg: MsgType, r: Result<String, String>)
    requires
        call_ensures(pal_encrypt, (ek, msg), r),
    ensures
        parse_radix36(ek@) is None ==> r is Err && r->Err_0@ == "Bad encryption key data"@,
        parse_radix36(ek@) is Some && msg is Null ==> r is Err && r->Err_0@ == "Bad type"@,
        parse_radix36(ek@) is Some && (msg matches MsgType::Str(t) && parse_radix36(t@) is None) ==> r is Err
            && r->Err_0@ == "Bad message data"@,
        parse_radix36(ek@) matches Some(n) && (msg matches MsgType::Int(w) && !(-(n / 2) <= w <= n / 2)) ==> r is Err
            && r->Err_0@ == "Failed to encrypt"@,
        parse_radix36(ek@) matches Some(n) && (msg matches MsgType::Str(t) && parse_radix36(t@) matches Some(x) && !(
        -(n / 2) <= x <= n / 2)) ==> r is Err && r->Err_0@ == "Failed to encrypt"@,
{
}

/// The errors of `pal_decrypt`: a key text that does not split at one `||`, a
/// ciphertext text that reads as no number, and, under a key of primes `p` and `q`
/// that `from_primes` accepts, a ciphertext that shares a factor with `p q`.
pub proof fn law_decrypt_errors(dk: String, ct: String, r: Result<String, String>, p: int, q: int)
    requires
        call_ensures(pal_decrypt, (dk, ct), r),
    ensures
        two_pieces(dk@) is None ==> r is Err && r->Err_0@ == "Bad decryption key data"@,
        reads_as_pair(dk@, p, q) && key_accepted(p, q) && parse_radix36(ct@) is None ==> r is Err && r->Err_0@
            == "Bad ciphertext data"@,
        reads_as_pair(dk@, p, q) && key_accepted(p, q) && (parse_radix36(ct@) matches Some(c) && (c <= 0 || crate::paillier::gcd(
            c as nat,
            (p * q) as nat,
        ) != 1)) ==> r is Err && r->Err_0@ == "Failed to decrypt"@,
{
    if reads_as_pair(dk@, p, q) && key_accepted(p, q) {
        assert(crate::ops::decryption_key_outcome(dk@) == Ok::<(int, int), Seq<char>>((p, q)));
    }
}

} // verus!
