//! The functions the library offers on base-36 texts: key generation,
//! encryption, decryption and the homomorphic operations.
use vstd::prelude::*;
use vstd::string::StringExecFns;
use vstd::arithmetic::power2::pow2;
use crate::bignum::Num;
use crate::key_text::{key_pair_text, lemma_key_pair_text_splits, split_key_pair};
use crate::ops::{
    add_ciphertexts,
    canonical_ciphertext_of,
    ciphertext_text_of,
    lemma_ciphertext_text_reads,
    decrypt_ciphertext,
    decrypted_value,
    decryption_key_outcome,
    decryption_key_text_panics,
    encrypt_msg,
    encrypt_outcome,
    message_plaintext,
    multiply_ciphertext,
    validate_decryption_key,
    validate_encryption_key,
    MsgType,
};
use crate::paillier::{
    abs_in_mult_group,
    add_value,
    gcd,
    in_mult_group,
    lemma_shared_factor_outside_group,
    is_encryption_of,
    is_prime,
    scale_value,
    signed_residue,
};
use crate::radix::{format_radix36, lemma_radix36_roundtrip, parse_radix36};
use crate::scheme::{
    decryption_key_modulus,
    encryption_key_from_n,
    generate_decryption_key,
    key_accepted,
    PrivateKey,
};

verus! {

/// Entry `i` of a list of key/value texts is `key` with `value`.
pub open spec fn entry_is(v: Seq<(String, String)>, i: int, key: Seq<char>, value: Seq<char>) -> bool {
    v[i].0@ == key && v[i].1@ == value
}

/// The key list for primes `p` and `q`: the encryption key (the modulus `p q`) under
/// `0` and `encryption_key`, the decryption key text under `1` and `decryption_key`.
pub open spec fn key_list_of(v: Seq<(String, String)>, p: int, q: int) -> bool {
    &&& v.len() == 4
    &&& entry_is(v, 0, "0"@, format_radix36(p * q))
    &&& entry_is(v, 1, "1"@, key_pair_text(p, q))
    &&& entry_is(v, 2, "encryption_key"@, format_radix36(p * q))
    &&& entry_is(v, 3, "decryption_key"@, key_pair_text(p, q))
}

/// The key texts of a key built from primes `p` and `q` read back as that key: the
/// decryption key text gives `p` and `q` back (and reading it does not panic), and
/// the encryption key text gives the modulus `p q`.
pub proof fn lemma_key_texts_read_back(p: int, q: int)
    requires
        key_accepted(p, q),
    ensures
        decryption_key_outcome(key_pair_text(p, q)) == Ok::<(int, int), Seq<char>>((p, q)),
        !decryption_key_text_panics(key_pair_text(p, q)),
        parse_radix36(format_radix36(p * q)) == Some(p * q),
{
    lemma_key_pair_text_splits(p, q);
    lemma_radix36_roundtrip(p);
    lemma_radix36_roundtrip(q);
    lemma_radix36_roundtrip(p * q);
    assert(p * q > 0) by (nonlinear_arith)
        requires
            p > 1,
            q > 1,
    ;
}

/// The texts of a key list go together: both encryption key texts read as the
/// modulus `p q`, and both decryption key texts read back as `p` and `q`, without
/// reaching a panic; so the list's keys are accepted by `pal_encrypt` and
/// `pal_decrypt`, and, when `p` and `q` are primes, the one undoes the other.
pub proof fn lemma_key_list_works(v: Seq<(String, String)>, p: int, q: int)
    requires
        key_list_of(v, p, q),
        key_accepted(p, q),
    ensures
        parse_radix36(v[0].1@) == Some(p * q),
        parse_radix36(v[2].1@) == Some(p * q),
        decryption_key_outcome(v[1].1@) == Ok::<(int, int), Seq<char>>((p, q)),
        decryption_key_outcome(v[3].1@) == Ok::<(int, int), Seq<char>>((p, q)),
        !decryption_key_text_panics(v[1].1@),
        !decryption_key_text_panics(v[3].1@),
        is_prime(p) && is_prime(q) ==> prime_key_text(v[3].1@, p, q),
{
    lemma_key_texts_read_back(p, q);
}

/// The key list of a key built from some primes `p` and `q` that `from_primes`
/// accepts, each at least `2^1535`, as key generation draws them.
pub open spec fn generated_key_list(v: Seq<(String, String)>) -> bool {
    exists|p: int, q: int|
        #[trigger] key_list_of(v, p, q) && key_accepted(p, q) && p >= pow2(1535) && q >= pow2(1535)
}

/// Generates a random key pair and gives it as texts (see `key_list_of`).
pub fn pal_generate_keys() -> (r: Result<Vec<(String, String)>, String>)
    ensures
        r matches Ok(v) ==> generated_key_list(v@),
        r matches Err(e) ==> e@ == "Failed to generate decryption key"@,
{
    let dk = match generate_decryption_key() {
        Ok(dk) => dk,
        Err(_) => return Err("Failed to generate decryption key".to_string()),
    };
    let keys = key_list(&dk);
    assert(generated_key_list(keys@));
    Ok(keys)
}

/// The key list of a decryption key (see `key_list_of`): its encryption key (the
/// modulus `p q`) and its decryption key text, each under two names.
pub fn key_list(dk: &PrivateKey) -> (v: Vec<(String, String)>)
    ensures
        key_list_of(v@, dk.p_value(), dk.q_value()),
{
    let ek = encryption_key_from_n(decryption_key_modulus(dk));
    let n_text = ek.n().to_radix36();
    proof {
        reveal_strlit("||");
    }
    let key_text = dk.p().to_radix36().concat("||").concat(dk.q().to_radix36().as_str());
    assert(key_text@ =~= key_pair_text(dk.p_value(), dk.q_value()));
    let mut keys: Vec<(String, String)> = Vec::new();
    keys.push(("0".to_string(), n_text.clone()));
    keys.push(("1".to_string(), key_text.clone()));
    keys.push(("encryption_key".to_string(), n_text));
    keys.push(("decryption_key".to_string(), key_text));
    keys
}

/// The numbers of an encryption key text for other Paillier libraries: the generator
/// `g = N + 1` under `0` and `g`, the modulus `N` under `1` and `n`.
pub open spec fn key_numbers_of(v: Seq<(String, String)>, n: int) -> bool {
    &&& v.len() == 4
    &&& entry_is(v, 0, "0"@, format_radix36(n + 1))
    &&& entry_is(v, 1, "1"@, format_radix36(n))
    &&& entry_is(v, 2, "n"@, format_radix36(n))
    &&& entry_is(v, 3, "g"@, format_radix36(n + 1))
}

/// Gives `g` and `n` of an encryption key (see `key_numbers_of`).
pub fn pal_get_encryption_key_numbers(encryption_key: String) -> (r: Result<
    Vec<(String, String)>,
    String,
>)
    ensures
        match parse_radix36(encryption_key@) {
            None => r matches Err(e) && e@ == "Bad encryption key data"@,
            Some(n) => r matches Ok(v) && key_numbers_of(v@, n),
        },
{
    let n = match Num::parse_radix36(encryption_key.as_str()) {
        Some(n) => n,
        None => return Err("Bad encryption key data".to_string()),
    };
    let g = n.plus_one();
    let n_text = n.to_radix36();
    let g_text = g.to_radix36();
    let mut numbers: Vec<(String, String)> = Vec::new();
    numbers.push(("0".to_string(), g_text.clone()));
    numbers.push(("1".to_string(), n_text.clone()));
    numbers.push(("n".to_string(), n_text));
    numbers.push(("g".to_string(), g_text));
    Ok(numbers)
}

/// Encrypting `msg` under the encryption key text `ek` needs a modulus of at least 2
/// (below that, drawing the nonce never ends or panics).
pub open spec fn encrypt_needs_large_modulus(ek: Seq<char>, msg: MsgType) -> bool {
    match parse_radix36(ek) {
        Some(n) => message_plaintext(msg) is Ok ==> n >= 2,
        None => true,
    }
}

/// Encrypting `msg` under the encryption key text `ek` succeeds: the key reads as a
/// modulus and the message stands for a plaintext in its signed range.
pub open spec fn encrypt_succeeds(ek: Seq<char>, msg: MsgType) -> bool {
    parse_radix36(ek) matches Some(n) && encrypt_outcome(n, msg) is Ok
}

/// Encrypts a message under an encryption key text; gives the ciphertext in base 36.
pub fn pal_encrypt(encryption_key: String, msg: MsgType) -> (r: Result<String, String>)
    requires
        encrypt_needs_large_modulus(encryption_key@, msg),
    ensures
        r is Ok <==> encrypt_succeeds(encryption_key@, msg),
        match parse_radix36(encryption_key@) {
            None => r matches Err(e) && e@ == "Bad encryption key data"@,
            Some(n) => match encrypt_outcome(n, msg) {
                Ok(x) => r matches Ok(s) && canonical_ciphertext_of(n, x, s@),
                Err(m) => r matches Err(e) && e@ == m,
            },
        },
{
    let ek = validate_encryption_key(encryption_key)?;
    let c = encrypt_msg(&ek, &msg)?;
    let s = c.to_radix36();
    assert(is_encryption_of(ek.modulus(), encrypt_outcome(ek.modulus(), msg)->Ok_0, c@) ==> canonical_ciphertext_of(ek.modulus(), encrypt_outcome(ek.modulus(), msg)->Ok_0, s@));
    Ok(s)
}

/// What decrypting the ciphertext text `ct` with the decryption key text `dk` gives:
/// the plaintext text, or the error message.
pub open spec fn decrypt_outcome(dk: Seq<char>, ct: Seq<char>) -> Result<Seq<char>, Seq<char>> {
    match decryption_key_outcome(dk) {
        Err(m) => Err(m),
        Ok((p, q)) => match parse_radix36(ct) {
            None => Err("Bad ciphertext data"@),
            Some(c) => match decrypted_value(p, q, c) {
                Some(m) => Ok(format_radix36(m)),
                None => Err("Failed to decrypt"@),
            },
        },
    }
}

/// The decryption key text `dk` stands for the primes `p` and `q`, and they are primes.
pub open spec fn prime_key_text(dk: Seq<char>, p: int, q: int) -> bool {
    decryption_key_outcome(dk) == Ok::<(int, int), Seq<char>>((p, q)) && is_prime(p) && is_prime(q)
}

/// Decrypts a ciphertext text with a decryption key text; gives the plaintext in base 36.
/// A ciphertext that shares a factor with the modulus `N` fails to decrypt.
pub fn pal_decrypt(decryption_key_data: String, ct_data: String) -> (r: Result<String, String>)
    requires
        !decryption_key_text_panics(decryption_key_data@),
    ensures
        match decrypt_outcome(decryption_key_data@, ct_data@) {
            Ok(m) => r matches Ok(s) && s@ == m,
            Err(m) => r matches Err(e) && e@ == m,
        },
        forall|p: int, q: int, x: int|
            prime_key_text(decryption_key_data@, p, q) && #[trigger] ciphertext_text_of(
                p * q,
                x,
                ct_data@,
            ) ==> (r matches Ok(s) && s@ == format_radix36(signed_residue(x, p * q))),
        forall|p: int, q: int, c: int|
            decryption_key_outcome(decryption_key_data@) == Ok::<(int, int), Seq<char>>((p, q))
                && parse_radix36(ct_data@) == Some(c) && (c <= 0 || gcd(c as nat, (p * q) as nat) != 1)
                ==> (r matches Err(e) && e@ == "Failed to decrypt"@),
{
    proof {
        assert forall|p: int, q: int, c: int|
            decryption_key_outcome(decryption_key_data@) == Ok::<(int, int), Seq<char>>((p, q))
                && parse_radix36(ct_data@) == Some(c) && (c <= 0 || gcd(c as nat, (p * q) as nat) != 1)
                implies decrypted_value(p, q, c) is None by {
            assert(p * q > 1) by (nonlinear_arith)
                requires
                    p > 1,
                    q > 1,
            ;
            lemma_shared_factor_outside_group(c, p * q);
        }
        assert forall|p: int, q: int, x: int|
            prime_key_text(decryption_key_data@, p, q) && #[trigger] ciphertext_text_of(
                p * q,
                x,
                ct_data@,
            ) implies parse_radix36(ct_data@) matches Some(c) && is_encryption_of(p * q, x, c) by {
            lemma_ciphertext_text_reads(p * q, x, ct_data@);
        }
    }
    let dk = validate_decryption_key(decryption_key_data)?;
    let ciphertext = match Num::parse_radix36(ct_data.as_str()) {
        Some(c) => c,
        None => return Err("Bad ciphertext data".to_string()),
    };
    decrypt_ciphertext(&dk, &ciphertext)
}

/// What adding the ciphertext texts `ct1` and `ct2` under the encryption key text
/// `ek` gives: the sum ciphertext text, or the error message.
pub open spec fn add_outcome(ek: Seq<char>, ct1: Seq<char>, ct2: Seq<char>) -> Result<Seq<char>, Seq<char>> {
    match parse_radix36(ek) {
        None => Err("Bad encryption key data"@),
        Some(n) => match parse_radix36(ct1) {
            None => Err("Bad ct1_data"@),
            Some(c1) => match parse_radix36(ct2) {
                None => Err("Bad ct2_data"@),
                Some(c2) => if in_mult_group(c1, n * n) && in_mult_group(c2, n * n) {
                    Ok(format_radix36(add_value(n, c1, c2)))
                } else {
                    Err("Add failed"@)
                },
            },
        },
    }
}

/// Adds two ciphertext texts homomorphically: the sum decrypts to the sum of the plaintexts.
pub fn pal_add(encryption_key: String, ct1_data: String, ct2_data: String) -> (r: Result<String, String>)
    ensures
        match add_outcome(encryption_key@, ct1_data@, ct2_data@) {
            Ok(m) => r matches Ok(s) && s@ == m,
            Err(m) => r matches Err(e) && e@ == m,
        },
        forall|n: int, x1: int, x2: int|
            parse_radix36(encryption_key@) == Some(n) && n > 1 && #[trigger] ciphertext_text_of(
                n,
                x1,
                ct1_data@,
            ) && #[trigger] ciphertext_text_of(n, x2, ct2_data@) ==> (r matches Ok(s)
                && canonical_ciphertext_of(n, x1 + x2, s@)),
{
    proof {
        assert forall|n: int, x: int, ct: Seq<char>|
            (ct == ct1_data@ || ct == ct2_data@) && #[trigger] ciphertext_text_of(n, x, ct) implies parse_radix36(ct) matches Some(c) && is_encryption_of(n, x, c) by {
            lemma_ciphertext_text_reads(n, x, ct);
        }
    }
    let ek = validate_encryption_key(encryption_key)?;
    let ciphertext1 = match Num::parse_radix36(ct1_data.as_str()) {
        Some(c) => c,
        None => return Err("Bad ct1_data".to_string()),
    };
    let ciphertext2 = match Num::parse_radix36(ct2_data.as_str()) {
        Some(c) => c,
        None => return Err("Bad ct2_data".to_string()),
    };
    let sum = add_ciphertexts(&ek, &ciphertext1, &ciphertext2)?;
    let s = sum.to_radix36();
    proof {
        assert forall|n: int, x1: int, x2: int|
            parse_radix36(encryption_key@) == Some(n) && n > 1 && #[trigger] ciphertext_text_of(
                n,
                x1,
                ct1_data@,
            ) && #[trigger] ciphertext_text_of(n, x2, ct2_data@) implies canonical_ciphertext_of(
            n,
            x1 + x2,
            s@,
        ) by {
            assert(is_encryption_of(n, x1 + x2, sum@));
            lemma_radix36_roundtrip(sum@);
        }
    }
    Ok(s)
}

/// What multiplying the plaintext under the ciphertext text `ct` by `factor` gives:
/// the product ciphertext text, or the error message.
pub open spec fn multiply_outcome(ek: Seq<char>, ct: Seq<char>, factor: int) -> Result<Seq<char>, Seq<char>> {
    match parse_radix36(ek) {
        None => Err("Bad encryption key data"@),
        Some(n) => match parse_radix36(ct) {
            None => Err("Bad ciphertext data"@),
            Some(c) => if abs_in_mult_group(factor, n) && in_mult_group(c, n * n) {
                Ok(format_radix36(scale_value(n, factor, c)))
            } else {
                Err("Failed to multipy"@)
            },
        },
    }
}

/// Multiplies the plaintext under a ciphertext text by `factor`, homomorphically.
pub fn pal_multiply(encryption_key: String, ct_data: String, factor: i64) -> (r: Result<String, String>)
    ensures
        match multiply_outcome(encryption_key@, ct_data@, factor as int) {
            Ok(m) => r matches Ok(s) && s@ == m,
            Err(m) => r matches Err(e) && e@ == m,
        },
        forall|n: int, x: int|
            parse_radix36(encryption_key@) == Some(n) && n > 1 && abs_in_mult_group(factor as int, n)
                && #[trigger] ciphertext_text_of(n, x, ct_data@) ==> (r matches Ok(s)
                && canonical_ciphertext_of(n, factor * x, s@)),
{
    proof {
        assert forall|n: int, x: int| #[trigger] ciphertext_text_of(n, x, ct_data@) implies parse_radix36(ct_data@) matches Some(c) && is_encryption_of(n, x, c) by {
            lemma_ciphertext_text_reads(n, x, ct_data@);
        }
    }
    let ek = validate_encryption_key(encryption_key)?;
    let ciphertext = match Num::parse_radix36(ct_data.as_str()) {
        Some(c) => c,
        None => return Err("Bad ciphertext data".to_string()),
    };
    let fac = Num::from_i64(factor);
    let product = multiply_ciphertext(&ek, &ciphertext, fac)?;
    let s = product.to_radix36();
    proof {
        assert forall|n: int, x: int|
            parse_radix36(encryption_key@) == Some(n) && n > 1 && abs_in_mult_group(factor as int, n)
                && #[trigger] ciphertext_text_of(n, x, ct_data@) implies canonical_ciphertext_of(
            n,
            factor * x,
            s@,
        ) by {
            assert(is_encryption_of(n, factor * x, product@));
            lemma_radix36_roundtrip(product@);
        }
    }
    Ok(s)
}

/// Every message of the list encrypts under modulus `n`.
pub open spec fn all_encryptable(n: int, msgs: Seq<(String, MsgType)>) -> bool {
    forall|i: int| 0 <= i < msgs.len() ==> #[trigger] encrypt_outcome(n, msgs[i].1) is Ok
}

/// `e` is the error message of the first message of the list that does not encrypt.
pub open spec fn first_encrypt_error(n: int, msgs: Seq<(String, MsgType)>, e: Seq<char>) -> bool {
    exists|j: int|
        0 <= j < msgs.len() && (forall|i: int| 0 <= i < j ==> #[trigger] encrypt_outcome(n, msgs[i].1) is Ok)
            && #[trigger] encrypt_outcome(n, msgs[j].1) == Err::<int, Seq<char>>(e)
}

/// Encrypting the list under the encryption key text `ek` needs a modulus of at
/// least 2 once the first message stands for a plaintext.
pub open spec fn encrypt_array_needs_large_modulus(ek: Seq<char>, msgs: Seq<(String, MsgType)>) -> bool {
    match parse_radix36(ek) {
        Some(n) => (msgs.len() > 0 && message_plaintext(msgs[0].1) is Ok) ==> n >= 2,
        None => true,
    }
}

/// No two entries of a keyed list share a key, as in a map.
pub open spec fn keys_distinct<V>(v: Seq<(String, V)>) -> bool {
    forall|i: int, j: int| 0 <= i < j < v.len() ==> #[trigger] v[i].0@ != #[trigger] v[j].0@
}

/// The entry `out` is the entry `msg` encrypted under modulus `n`: the same key, and
/// the canonical text of an encryption of the message's plaintext.
pub open spec fn encrypted_entry(n: int, msg: (String, MsgType), out: (String, String)) -> bool {
    out.0@ == msg.0@ && canonical_ciphertext_of(n, encrypt_outcome(n, msg.1)->Ok_0, out.1@)
}

/// Encrypts each message of a keyed list; the keys are kept, in order. The first
/// message that does not encrypt ends it with its error: the list encrypts exactly
/// when each of its messages would encrypt alone.
pub fn pal_encrypt_array(encryption_key: String, msgs: Vec<(String, MsgType)>) -> (r: Result<
    Vec<(String, String)>,
    String,
>)
    requires
        encrypt_array_needs_large_modulus(encryption_key@, msgs@),
        keys_distinct(msgs@),
    ensures
        r is Ok <==> (parse_radix36(encryption_key@) is Some && forall|i: int|
            0 <= i < msgs@.len() ==> #[trigger] encrypt_succeeds(encryption_key@, msgs@[i].1)),
        r matches Ok(v) ==> keys_distinct(v@),
        match parse_radix36(encryption_key@) {
            None => r matches Err(e) && e@ == "Bad encryption key data"@,
            Some(n) => {
                &&& r is Ok <==> all_encryptable(n, msgs@)
                &&& r matches Ok(v) ==> v@.len() == msgs@.len() && forall|i: int|
                    0 <= i < msgs@.len() ==> #[trigger] encrypted_entry(n, msgs@[i], v@[i])
                &&& r matches Err(e) ==> first_encrypt_error(n, msgs@, e@)
            },
        },
{
    let ek = validate_encryption_key(encryption_key)?;
    let ghost n = ek.modulus();
    let mut encrypted: Vec<(String, String)> = Vec::new();
    let mut i: usize = 0;
    while i < msgs.len()
        invariant
            n == ek.modulus(),
            encrypt_array_needs_large_modulus(encryption_key@, msgs@),
            parse_radix36(encryption_key@) == Some(n),
            i <= msgs@.len(),
            i > 0 ==> n >= 2,
            encrypted@.len() == i,
            forall|j: int| 0 <= j < i ==> #[trigger] encrypt_outcome(n, msgs@[j].1) is Ok,
            forall|j: int| 0 <= j < i ==> #[trigger] encrypted_entry(n, msgs@[j], encrypted@[j]),
        decreases msgs@.len() - i,
    {
        let key = &msgs[i].0;
        let msg = &msgs[i].1;
        match encrypt_msg(&ek, msg) {
            Ok(c) => {
                let text = c.to_radix36();
                proof {
                    assert(is_encryption_of(n, encrypt_outcome(n, *msg)->Ok_0, c@));
                    assert(canonical_ciphertext_of(n, encrypt_outcome(n, *msg)->Ok_0, text@));
                }
                let ghost before = encrypted@;
                encrypted.push((key.clone(), text));
                proof {
                    assert(encrypted_entry(n, msgs@[i as int], encrypted@[i as int]));
                    assert forall|j: int| 0 <= j < i + 1 implies #[trigger] encrypted_entry(n, msgs@[j], encrypted@[j]) by {
                        if j < i {
                            assert(encrypted@[j] == before[j]);
                        }
                    }
                }
            },
            Err(e) => {
                assert(first_encrypt_error(n, msgs@, e@)) by {
                    assert(encrypt_outcome(n, msgs@[i as int].1) == Err::<int, Seq<char>>(e@));
                }
                assert(!encrypt_succeeds(encryption_key@, msgs@[i as int].1));
                return Err(e);
            },
        }
        i = i + 1;
    }
    proof {
        assert forall|a: int, b: int| 0 <= a < b < encrypted@.len() implies #[trigger] encrypted@[a].0@ != #[trigger] encrypted@[b].0@ by {
            assert(encrypted_entry(n, msgs@[a], encrypted@[a]));
            assert(encrypted_entry(n, msgs@[b], encrypted@[b]));
        }
    }
    Ok(encrypted)
}

/// What decrypting the item `ct` (under the key `key` of the list) with the key of
/// primes `p` and `q` gives: the plaintext text, or the error message.
pub open spec fn decrypt_item_outcome(p: int, q: int, key: Seq<char>, ct: Seq<char>) -> Result<
    Seq<char>,
    Seq<char>,
> {
    match parse_radix36(ct) {
        None => Err("Bad ciphertext_data["@ + key + "]"@),
        Some(c) => match decrypted_value(p, q, c) {
            Some(m) => Ok(format_radix36(m)),
            None => Err("Failed to decrypt"@),
        },
    }
}

/// Every item of the list decrypts with the key of primes `p` and `q`.
pub open spec fn all_decryptable(p: int, q: int, cts: Seq<(String, String)>) -> bool {
    forall|i: int| 0 <= i < cts.len() ==> #[trigger] decrypt_item_outcome(p, q, cts[i].0@, cts[i].1@) is Ok
}

/// `e` is the error message of the first item of the list that does not decrypt.
pub open spec fn first_decrypt_error(p: int, q: int, cts: Seq<(String, String)>, e: Seq<char>) -> bool {
    exists|j: int|
        0 <= j < cts.len() && (forall|i: int|
            0 <= i < j ==> #[trigger] decrypt_item_outcome(p, q, cts[i].0@, cts[i].1@) is Ok)
            && #[trigger] decrypt_item_outcome(p, q, cts[j].0@, cts[j].1@) == Err::<Seq<char>, Seq<char>>(e)
}

/// Each item of the list is the text of an encryption, under `n`, of the plaintext at
/// the same place of `xs`.
pub open spec fn encrypts_each(n: int, cts: Seq<(String, String)>, xs: Seq<int>) -> bool {
    xs.len() == cts.len() && forall|i: int| 0 <= i < cts.len() ==> #[trigger] ciphertext_text_of(n, xs[i], cts[i].1@)
}

/// An item of a list decrypts with the key of primes `p` and `q` exactly when its
/// text decrypts alone with a key text of those primes, and to the same plaintext.
pub proof fn lemma_item_decrypts_as_single(dk: Seq<char>, p: int, q: int, key: Seq<char>, ct: Seq<char>)
    requires
        decryption_key_outcome(dk) == Ok::<(int, int), Seq<char>>((p, q)),
    ensures
        decrypt_item_outcome(p, q, key, ct) is Ok <==> decrypt_outcome(dk, ct) is Ok,
        decrypt_item_outcome(p, q, key, ct) is Ok ==> decrypt_item_outcome(p, q, key, ct) == decrypt_outcome(dk, ct),
{
}

/// Decrypts each ciphertext text of a keyed list; the keys are kept, in order. The
/// first item that does not decrypt ends it with its error: the list decrypts
/// exactly when each of its texts would decrypt alone, each to the same plaintext.
pub fn pal_decrypt_array(decryption_key_data: String, ciphertext_data: Vec<(String, String)>) -> (r: Result<
    Vec<(String, String)>,
    String,
>)
    requires
        !decryption_key_text_panics(decryption_key_data@),
        keys_distinct(ciphertext_data@),
    ensures
        r is Ok <==> (decryption_key_outcome(decryption_key_data@) is Ok && forall|i: int|
            0 <= i < ciphertext_data@.len() ==> #[trigger] decrypt_outcome(decryption_key_data@, ciphertext_data@[i].1@) is Ok),
        r matches Ok(v) ==> keys_distinct(v@) && forall|i: int|
            0 <= i < v@.len() ==> #[trigger] v@[i].1@ == decrypt_outcome(decryption_key_data@, ciphertext_data@[i].1@)->Ok_0,
        match decryption_key_outcome(decryption_key_data@) {
            Err(m) => r matches Err(e) && e@ == m,
            Ok((p, q)) => {
                &&& r is Ok <==> all_decryptable(p, q, ciphertext_data@)
                &&& r matches Ok(v) ==> v@.len() == ciphertext_data@.len() && forall|i: int|
                    0 <= i < v@.len() ==> #[trigger] v@[i].0@ == ciphertext_data@[i].0@ && v@[i].1@
                        == decrypt_item_outcome(p, q, ciphertext_data@[i].0@, ciphertext_data@[i].1@)->Ok_0
                &&& r matches Err(e) ==> first_decrypt_error(p, q, ciphertext_data@, e@)
            },
        },
        forall|p: int, q: int, xs: Seq<int>|
            prime_key_text(decryption_key_data@, p, q) && #[trigger] encrypts_each(p * q, ciphertext_data@, xs)
                ==> (r matches Ok(v) && forall|i: int|
                0 <= i < xs.len() ==> #[trigger] v@[i].1@ == format_radix36(signed_residue(xs[i], p * q))),
{
    let dk = validate_decryption_key(decryption_key_data)?;
    let ghost p = dk.p_value();
    let ghost q = dk.q_value();
    let ghost cts = ciphertext_data@;
    let mut decrypted: Vec<(String, String)> = Vec::new();
    let mut i: usize = 0;
    while i < ciphertext_data.len()
        invariant
            p == dk.p_value(),
            q == dk.q_value(),
            cts == ciphertext_data@,
            decryption_key_outcome(decryption_key_data@) == Ok::<(int, int), Seq<char>>((p, q)),
            i <= cts.len(),
            decrypted@.len() == i,
            forall|j: int| 0 <= j < i ==> #[trigger] decrypt_item_outcome(p, q, cts[j].0@, cts[j].1@) is Ok,
            forall|j: int|
                0 <= j < i ==> #[trigger] decrypted@[j].0@ == cts[j].0@ && decrypted@[j].1@
                    == decrypt_item_outcome(p, q, cts[j].0@, cts[j].1@)->Ok_0,
            forall|j: int, x: int|
                0 <= j < i && is_prime(p) && is_prime(q) && #[trigger] ciphertext_text_of(p * q, x, cts[j].1@)
                    ==> decrypted@[j].1@ == format_radix36(signed_residue(x, p * q)),
        decreases cts.len() - i,
    {
        let key = &ciphertext_data[i].0;
        let ct_data = &ciphertext_data[i].1;
        proof {
            assert forall|x: int| is_prime(p) && is_prime(q) && #[trigger] ciphertext_text_of(p * q, x, ct_data@)
                implies parse_radix36(ct_data@) matches Some(c) && is_encryption_of(p * q, x, c) by {
                lemma_ciphertext_text_reads(p * q, x, ct_data@);
            }
        }
        let ciphertext = match Num::parse_radix36(ct_data.as_str()) {
            Some(c) => c,
            None => {
                proof {
                    reveal_strlit("Bad ciphertext_data[");
                    reveal_strlit("]");
                }
                let e = "Bad ciphertext_data[".to_string().concat(key.as_str()).concat("]");
                assert(first_decrypt_error(p, q, cts, e@)) by {
                    assert(e@ =~= "Bad ciphertext_data["@ + key@ + "]"@);
                    assert(decrypt_item_outcome(p, q, cts[i as int].0@, cts[i as int].1@) == Err::<Seq<char>, Seq<char>>(e@));
                }
                proof {
                    lemma_no_encryption_list(decryption_key_data@, p, q, cts, i as int);
                    lemma_item_decrypts_as_single(decryption_key_data@, p, q, cts[i as int].0@, cts[i as int].1@);
                    assert(!(decrypt_outcome(decryption_key_data@, cts[i as int].1@) is Ok));
                }
                return Err(e);
            },
        };
        match decrypt_ciphertext(&dk, &ciphertext) {
            Ok(text) => {
                decrypted.push((key.clone(), text));
            },
            Err(e) => {
                assert(first_decrypt_error(p, q, cts, e@)) by {
                    assert(decrypt_item_outcome(p, q, cts[i as int].0@, cts[i as int].1@) == Err::<Seq<char>, Seq<char>>(e@));
                }
                proof {
                    lemma_no_encryption_list(decryption_key_data@, p, q, cts, i as int);
                    lemma_item_decrypts_as_single(decryption_key_data@, p, q, cts[i as int].0@, cts[i as int].1@);
                    assert(!(decrypt_outcome(decryption_key_data@, cts[i as int].1@) is Ok));
                }
                return Err(e);
            },
        }
        i = i + 1;
    }
    proof {
        assert forall|a: int, b: int| 0 <= a < b < decrypted@.len() implies #[trigger] decrypted@[a].0@ != #[trigger] decrypted@[b].0@ by {
            assert(decrypted@[a].0@ == cts[a].0@);
            assert(decrypted@[b].0@ == cts[b].0@);
        }
        assert forall|j: int| 0 <= j < cts.len() implies #[trigger] decrypt_outcome(decryption_key_data@, cts[j].1@) is Ok
            && decrypted@[j].1@ == decrypt_outcome(decryption_key_data@, cts[j].1@)->Ok_0 by {
            lemma_item_decrypts_as_single(decryption_key_data@, p, q, cts[j].0@, cts[j].1@);
            assert(decrypt_item_outcome(p, q, cts[j].0@, cts[j].1@) is Ok);
            assert(decrypted@[j].0@ == cts[j].0@);
        }
        assert forall|p2: int, q2: int, xs: Seq<int>|
            prime_key_text(decryption_key_data@, p2, q2) && #[trigger] encrypts_each(p2 * q2, cts, xs)
                implies forall|j: int|
                0 <= j < xs.len() ==> #[trigger] decrypted@[j].1@ == format_radix36(signed_residue(xs[j], p2 * q2)) by {
            assert forall|j: int| 0 <= j < xs.len() implies #[trigger] decrypted@[j].1@ == format_radix36(signed_residue(xs[j], p2 * q2)) by {
                assert(ciphertext_text_of(p2 * q2, xs[j], cts[j].1@));
            }
        }
    }
    Ok(decrypted)
}

/// When the item at `i` of a list does not decrypt with the key text `dk`, the
/// list is no list of encryptions under a key of primes.
proof fn lemma_no_encryption_list(dk: Seq<char>, p: int, q: int, cts: Seq<(String, String)>, i: int)
    requires
        0 <= i < cts.len(),
        decryption_key_outcome(dk) == Ok::<(int, int), Seq<char>>((p, q)),
        forall|x: int| is_prime(p) && is_prime(q) && #[trigger] ciphertext_text_of(p * q, x, cts[i].1@) ==> false,
    ensures
        forall|p2: int, q2: int, xs: Seq<int>| !(prime_key_text(dk, p2, q2) && #[trigger] encrypts_each(p2 * q2, cts, xs)),
{
    assert forall|p2: int, q2: int, xs: Seq<int>| !(prime_key_text(dk, p2, q2) && #[trigger] encrypts_each(p2 * q2, cts, xs)) by {
        if prime_key_text(dk, p2, q2) && encrypts_each(p2 * q2, cts, xs) {
            assert(ciphertext_text_of(p2 * q2, xs[i], cts[i].1@));
        }
    }
}

/// The running total of homomorphically adding the first `k` ciphertext texts of the
/// list, left to right under modulus `n`, or the error message it stops with.
pub open spec fn sum_prefix(n: int, cts: Seq<(String, String)>, k: nat) -> Result<int, Seq<char>>
    decreases k,
{
    if k == 0 {
        Err("Nothing to add"@)
    } else {
        let next = parse_radix36(cts[k - 1].1@);
        if k == 1 {
            match next {
                None => Err("Bad ciphertext data"@),
                Some(c) => Ok(c),
            }
        } else {
            match sum_prefix(n, cts, (k - 1) as nat) {
                Err(e) => Err(e),
                Ok(t) => match next {
                    None => Err("Bad ciphertext data"@),
                    Some(c) => if in_mult_group(t, n * n) && in_mult_group(c, n * n) {
                        Ok(add_value(n, t, c))
                    } else {
                        Err("Add failed"@)
                    },
                },
            }
        }
    }
}

/// What adding all ciphertext texts of the list under the encryption key text `ek`
/// gives: the total ciphertext text, or the error message.
pub open spec fn add_array_outcome(ek: Seq<char>, cts: Seq<(String, String)>) -> Result<Seq<char>, Seq<char>> {
    match parse_radix36(ek) {
        None => Err("Bad encryption key data"@),
        Some(n) => if cts.len() == 0 {
            Err("Nothing to add"@)
        } else {
            match sum_prefix(n, cts, cts.len()) {
                Ok(t) => Ok(format_radix36(t)),
                Err(e) => Err(e),
            }
        },
    }
}

/// The sum of a sequence of integers.
pub open spec fn sum_of(xs: Seq<int>) -> int
    decreases xs.len(),
{
    if xs.len() == 0 {
        0
    } else {
        sum_of(xs.drop_last()) + xs.last()
    }
}

/// Once the running total fails, it fails with the same message to the end.
proof fn lemma_sum_prefix_error_stays(n: int, cts: Seq<(String, String)>, k: nat, m: nat)
    requires
        1 <= k <= m,
        sum_prefix(n, cts, k) is Err,
    ensures
        sum_prefix(n, cts, m) == sum_prefix(n, cts, k),
    decreases m - k,
{
    if k < m {
        lemma_sum_prefix_error_stays(n, cts, k, (m - 1) as nat);
    }
}

/// Adding encryptions of the plaintexts `xs` gives an encryption of their sum.
pub proof fn lemma_sum_prefix_encrypts(n: int, cts: Seq<(String, String)>, xs: Seq<int>, k: nat)
    requires
        n > 1,
        encrypts_each(n, cts, xs),
        1 <= k <= cts.len(),
    ensures
        sum_prefix(n, cts, k) matches Ok(t) && is_encryption_of(n, sum_of(xs.take(k as int)), t),
    decreases k,
{
    assert(ciphertext_text_of(n, xs[k - 1], cts[k - 1].1@));
    lemma_ciphertext_text_reads(n, xs[k - 1], cts[k - 1].1@);
    let c = parse_radix36(cts[k - 1].1@)->Some_0;
    if k == 1 {
        assert(xs.take(1).drop_last() =~= Seq::<int>::empty());
        assert(xs.take(1).last() == xs[0]);
        assert(sum_of(xs.take(1).drop_last()) == 0);
        assert(sum_of(xs.take(1)) == xs[0]);
        assert(sum_prefix(n, cts, k) == Ok::<int, Seq<char>>(c));
    } else {
        lemma_sum_prefix_encrypts(n, cts, xs, (k - 1) as nat);
        let t = sum_prefix(n, cts, (k - 1) as nat)->Ok_0;
        crate::paillier::lemma_encryption_in_group(n, sum_of(xs.take(k - 1)), t);
        crate::paillier::lemma_encryption_in_group(n, xs[k - 1], c);
        crate::paillier::lemma_add_homomorphic(n, sum_of(xs.take(k - 1)), xs[k - 1], t, c);
        assert(xs.take(k as int).drop_last() =~= xs.take(k - 1));
        assert(sum_of(xs.take(k as int)) == sum_of(xs.take(k - 1)) + xs[k - 1]);
        assert(sum_prefix(n, cts, k) == Ok::<int, Seq<char>>(add_value(n, t, c)));
    }
}

/// Adds all ciphertext texts of a list homomorphically, left to right.
pub fn pal_add_array(encryption_key: String, ciphertext_data: Vec<(String, String)>) -> (r: Result<String, String>)
    requires
        keys_distinct(ciphertext_data@),
    ensures
        match add_array_outcome(encryption_key@, ciphertext_data@) {
            Ok(m) => r matches Ok(s) && s@ == m,
            Err(m) => r matches Err(e) && e@ == m,
        },
        forall|n: int, xs: Seq<int>|
            parse_radix36(encryption_key@) == Some(n) && n > 1 && ciphertext_data@.len() > 0
                && #[trigger] encrypts_each(n, ciphertext_data@, xs) ==> (r matches Ok(s) && canonical_ciphertext_of(
                n,
                sum_of(xs),
                s@,
            )),
{
    let ek = validate_encryption_key(encryption_key)?;
    let ghost n = ek.modulus();
    let ghost cts = ciphertext_data@;
    if ciphertext_data.len() == 0 {
        return Err("Nothing to add".to_string());
    }
    proof {
        assert forall|xs: Seq<int>| n > 1 && #[trigger] encrypts_each(n, cts, xs) implies sum_prefix(n, cts, cts.len()) matches Ok(t)
            && is_encryption_of(n, sum_of(xs), t) by {
            lemma_sum_prefix_encrypts(n, cts, xs, cts.len());
            assert(xs.take(xs.len() as int) =~= xs);
        }
    }
    let mut enc_total: Option<Num> = None;
    let mut i: usize = 0;
    while i < ciphertext_data.len()
        invariant
            n == ek.modulus(),
            parse_radix36(encryption_key@) == Some(n),
            cts == ciphertext_data@,
            cts.len() > 0,
            forall|xs: Seq<int>| n > 1 && #[trigger] encrypts_each(n, cts, xs) ==> sum_prefix(n, cts, cts.len()) is Ok,
            i <= cts.len(),
            i == 0 ==> enc_total is None,
            i > 0 ==> (enc_total matches Some(t) && sum_prefix(n, cts, i as nat) == Ok::<int, Seq<char>>(t@)),
        decreases cts.len() - i,
    {
        let ct_data = &ciphertext_data[i].1;
        let ciphertext = match Num::parse_radix36(ct_data.as_str()) {
            Some(c) => c,
            None => {
                proof {
                    assert(sum_prefix(n, cts, (i + 1) as nat) == Err::<int, Seq<char>>("Bad ciphertext data"@));
                    lemma_sum_prefix_error_stays(n, cts, (i + 1) as nat, cts.len());
                }
                return Err("Bad ciphertext data".to_string());
            },
        };
        match enc_total {
            Some(curr_total) => {
                match add_ciphertexts(&ek, &curr_total, &ciphertext) {
                    Ok(sum) => {
                        enc_total = Some(sum);
                    },
                    Err(e) => {
                        proof {
                            assert(sum_prefix(n, cts, (i + 1) as nat) == Err::<int, Seq<char>>(e@));
                            lemma_sum_prefix_error_stays(n, cts, (i + 1) as nat, cts.len());
                        }
                        return Err(e);
                    },
                }
            },
            None => {
                enc_total = Some(ciphertext);
            },
        }
        i = i + 1;
    }
    match enc_total {
        Some(final_total) => {
            let s = final_total.to_radix36();
            proof {
                assert forall|n2: int, xs: Seq<int>|
                    parse_radix36(encryption_key@) == Some(n2) && n2 > 1 && cts.len() > 0
                        && #[trigger] encrypts_each(n2, cts, xs) implies canonical_ciphertext_of(n2, sum_of(xs), s@) by {
                    lemma_radix36_roundtrip(final_total@);
                }
            }
            Ok(s)
        },
        None => Err("Error adding array".to_string()),
    }
}

/// Whether a message stands for a plaintext (an integer, or a text that reads in base 36).
fn message_has_plaintext(msg: &MsgType) -> (r: bool)
    ensures
        r == message_plaintext(*msg) is Ok,
{
    match msg {
        MsgType::Int(_) => true,
        MsgType::Str(text) => Num::parse_radix36(text.as_str()).is_some(),
        MsgType::Null => false,
    }
}

/// Whether encrypting `msg` under the encryption key text would meet a modulus
/// below 2 (where drawing a nonce does not end); `pal_encrypt` needs it false.
pub fn encrypt_meets_small_modulus(encryption_key: &str, msg: &MsgType) -> (r: bool)
    ensures
        r == !encrypt_needs_large_modulus(encryption_key@, *msg),
{
    match Num::parse_radix36(encryption_key) {
        None => false,
        Some(n) => message_has_plaintext(msg) && n.is_below_two(),
    }
}

/// Whether encrypting the list under the encryption key text would meet a modulus
/// below 2; `pal_encrypt_array` needs it false.
pub fn encrypt_array_meets_small_modulus(encryption_key: &str, msgs: &Vec<(String, MsgType)>) -> (r: bool)
    ensures
        r == !encrypt_array_needs_large_modulus(encryption_key@, msgs@),
{
    match Num::parse_radix36(encryption_key) {
        None => false,
        Some(n) => msgs.len() > 0 && message_has_plaintext(&msgs[0].1) && n.is_below_two(),
    }
}

/// Whether reading the decryption key text would reach primes on which building the
/// key panics; `pal_decrypt` and `pal_decrypt_array` need it false.
pub fn decryption_key_text_meets_panic(decryption_key_data: &str) -> (r: bool)
    ensures
        r == decryption_key_text_panics(decryption_key_data@),
{
    let (p_text, q_text) = match split_key_pair(decryption_key_data) {
        Some(pair) => pair,
        None => return false,
    };
    let p = match Num::parse_radix36(p_text.as_str()) {
        Some(p) => p,
        None => return false,
    };
    let q = match Num::parse_radix36(q_text.as_str()) {
        Some(q) => q,
        None => return false,
    };
    let zero = Num::from_i64(0);
    let one = Num::from_i64(1);
    proof {
        assert(p@ * q@ == 0 <==> (p@ == 0 || q@ == 0)) by (nonlinear_arith);
    }
    !p.equals(&q) && !p.equals(&one) && !q.equals(&one) && (p.equals(&zero) || q.equals(&zero))
}

} // verus!
