//! Keys read from their text form, and the single-value operations of the
//! library: encrypting a message, decrypting, adding and scaling ciphertexts.
use vstd::prelude::*;
use crate::bignum::Num;
use crate::key_text::{split_key_pair, two_pieces};
use crate::paillier::{
    abs_in_mult_group,
    add_value,
    in_mult_group,
    in_signed_range,
    is_encryption_of,
    is_prime,
    lemma_add_homomorphic,
    lemma_encryption_formula,
    lemma_encryption_in_group,
    lemma_scale_homomorphic,
    scale_value,
    signed_residue,
};
use crate::radix::{format_radix36, parse_radix36};
use crate::scheme::{
    decrypt_with_key,
    decryption_key_from_primes,
    encrypt_with_random,
    encrypted_add,
    encrypted_scale,
    encryption_formula,
    encryption_key_from_n,
    from_primes_panics,
    key_accepted,
    paillier_decrypt,
    PrivateKey,
    PublicKey,
};

verus! {

/// A message to encrypt: an integer, a base-36 text, or nothing.
#[derive(PartialEq, Debug)]
pub enum MsgType {
    Int(i64),
    Str(String),
    Null,
}

/// The plaintext a message stands for: an integer message is that integer; a text is
/// read in base 36.
pub open spec fn message_plaintext(msg: MsgType) -> Result<int, Seq<char>> {
    match msg {
        MsgType::Int(v) => Ok(v as int),
        MsgType::Str(s) => match parse_radix36(s@) {
            Some(x) => Ok(x),
            None => Err("Bad message data"@),
        },
        MsgType::Null => Err("Bad type"@),
    }
}

/// An integer message and a message of the integer's base-36 text stand for the same
/// plaintext, so they encrypt the same plaintext under every modulus.
pub proof fn lemma_int_and_text_messages(v: i64, text: String, n: int)
    requires
        text@ == format_radix36(v as int),
    ensures
        message_plaintext(MsgType::Int(v)) == message_plaintext(MsgType::Str(text)),
        encrypt_outcome(n, MsgType::Int(v)) == encrypt_outcome(n, MsgType::Str(text)),
{
    crate::radix::lemma_radix36_roundtrip(v as int);
}

/// The plaintext that encrypting `msg` under modulus `n` encrypts, or the error
/// message it fails with.
pub open spec fn encrypt_outcome(n: int, msg: MsgType) -> Result<int, Seq<char>> {
    match message_plaintext(msg) {
        Err(e) => Err(e),
        Ok(x) => if in_signed_range(x, n) {
            Ok(x)
        } else {
            Err("Failed to encrypt"@)
        },
    }
}

/// The primes a decryption key text stands for, or the error message reading it fails with.
pub open spec fn decryption_key_outcome(s: Seq<char>) -> Result<(int, int), Seq<char>> {
    match two_pieces(s) {
        None => Err("Bad decryption key data"@),
        Some((a, b)) => match parse_radix36(a) {
            None => Err("Bad decryption key data (p)"@),
            Some(p) => match parse_radix36(b) {
                None => Err("Bad decryption key data (q)"@),
                Some(q) => if key_accepted(p, q) {
                    Ok((p, q))
                } else {
                    Err("Failed to recreate decryption key"@)
                },
            },
        },
    }
}

/// Reading the decryption key text `s` reaches primes on which building the key panics.
pub open spec fn decryption_key_text_panics(s: Seq<char>) -> bool {
    match two_pieces(s) {
        None => false,
        Some((a, b)) => match (parse_radix36(a), parse_radix36(b)) {
            (Some(p), Some(q)) => from_primes_panics(p, q),
            _ => false,
        },
    }
}

/// `s` reads in base 36 as an encryption of `x` under modulus `n`.
pub open spec fn ciphertext_text_of(n: int, x: int, s: Seq<char>) -> bool {
    exists|c: int| #[trigger] is_encryption_of(n, x, c) && parse_radix36(s) == Some(c)
}

/// `s` is the canonical base-36 text of an encryption of `x` under modulus `n`.
pub open spec fn canonical_ciphertext_of(n: int, x: int, s: Seq<char>) -> bool {
    exists|c: int| #[trigger] is_encryption_of(n, x, c) && s == format_radix36(c)
}

/// A canonical ciphertext text reads back as its encryption.
pub proof fn lemma_canonical_ciphertext_reads(n: int, x: int, s: Seq<char>)
    requires
        canonical_ciphertext_of(n, x, s),
    ensures
        ciphertext_text_of(n, x, s),
{
    let c = choose|c: int| #[trigger] is_encryption_of(n, x, c) && s == format_radix36(c);
    crate::radix::lemma_radix36_roundtrip(c);
}

/// The base-36 text of an encryption reads back as that encryption.
pub proof fn lemma_ciphertext_text_reads(n: int, x: int, s: Seq<char>)
    requires
        ciphertext_text_of(n, x, s),
    ensures
        parse_radix36(s) matches Some(c) && is_encryption_of(n, x, c),
{
}

/// Reads an encryption key: the modulus `N` in base 36.
pub fn validate_encryption_key(encryption_key_data: String) -> (r: Result<PublicKey, String>)
    ensures
        match parse_radix36(encryption_key_data@) {
            None => r matches Err(e) && e@ == "Bad encryption key data"@,
            Some(n) => r matches Ok(k) && k.modulus() == n,
        },
{
    match Num::parse_radix36(encryption_key_data.as_str()) {
        None => Err("Bad encryption key data".to_string()),
        Some(n) => Ok(encryption_key_from_n(n)),
    }
}

/// Reads a decryption key: the primes `p` and `q` in base 36, joined by `||`.
pub fn validate_decryption_key(decryption_key_data: String) -> (r: Result<PrivateKey, String>)
    requires
        !decryption_key_text_panics(decryption_key_data@),
    ensures
        match decryption_key_outcome(decryption_key_data@) {
            Ok((p, q)) => r matches Ok(k) && k.p_value() == p && k.q_value() == q,
            Err(msg) => r matches Err(e) && e@ == msg,
        },
{
    let (p_text, q_text) = match split_key_pair(decryption_key_data.as_str()) {
        Some(pair) => pair,
        None => return Err("Bad decryption key data".to_string()),
    };
    let p = match Num::parse_radix36(p_text.as_str()) {
        Some(p) => p,
        None => return Err("Bad decryption key data (p)".to_string()),
    };
    let q = match Num::parse_radix36(q_text.as_str()) {
        Some(q) => q,
        None => return Err("Bad decryption key data (q)".to_string()),
    };
    match decryption_key_from_primes(p, q) {
        Ok(dk) => Ok(dk),
        Err(_) => Err("Failed to recreate decryption key".to_string()),
    }
}

/// Encrypts a message under an encryption key, with a fresh random nonce.
pub fn encrypt_msg(ek: &PublicKey, msg: &MsgType) -> (r: Result<Num, String>)
    requires
        message_plaintext(*msg) is Ok ==> ek.modulus() >= 2,
    ensures
        match encrypt_outcome(ek.modulus(), *msg) {
            Ok(x) => r matches Ok(c) && is_encryption_of(ek.modulus(), x, c@),
            Err(msg) => r matches Err(e) && e@ == msg,
        },
{
    let msg_data = match msg {
        MsgType::Int(int_val) => Num::from_i64(*int_val),
        MsgType::Str(str_val) => match Num::parse_radix36(str_val.as_str()) {
            Some(value) => value,
            None => return Err("Bad message data".to_string()),
        },
        MsgType::Null => return Err("Bad type".to_string()),
    };
    match encrypt_with_random(ek, &msg_data) {
        Ok(ciphertext) => {
            proof {
                let nonce = choose|nonce: int|
                    in_mult_group(nonce, ek.modulus()) && ciphertext@ == #[trigger] encryption_formula(
                        ek.modulus(),
                        msg_data@,
                        nonce,
                    );
                lemma_encryption_formula(ek.modulus(), msg_data@, nonce, ciphertext@);
            }
            Ok(ciphertext)
        },
        Err(_) => Err("Failed to encrypt".to_string()),
    }
}

/// What decrypting `c` with the key of primes `p` and `q` gives: nothing for a
/// ciphertext outside the multiplicative group modulo `(p q)^2`, and otherwise what
/// `DecryptionKey::decrypt` gives.
pub open spec fn decrypted_value(p: int, q: int, c: int) -> Option<int> {
    if in_mult_group(c, (p * q) * (p * q)) {
        paillier_decrypt(p, q, c)
    } else {
        None
    }
}

/// Decrypts a ciphertext; gives the plaintext in base 36. A ciphertext outside the
/// multiplicative group modulo `N^2` fails.
pub fn decrypt_ciphertext(dk: &PrivateKey, ciphertext: &Num) -> (r: Result<String, String>)
    ensures
        match decrypted_value(dk.p_value(), dk.q_value(), ciphertext@) {
            Some(m) => r matches Ok(s) && s@ == format_radix36(m),
            None => r matches Err(e) && e@ == "Failed to decrypt"@,
        },
        forall|x: int|
            is_prime(dk.p_value()) && is_prime(dk.q_value()) && #[trigger] is_encryption_of(
                dk.p_value() * dk.q_value(),
                x,
                ciphertext@,
            ) ==> (r matches Ok(s) && s@ == format_radix36(signed_residue(x, dk.p_value() * dk.q_value()))),
{
    match decrypt_with_key(dk, ciphertext) {
        Ok(plaintext) => Ok(plaintext.to_radix36()),
        Err(_) => Err("Failed to decrypt".to_string()),
    }
}

/// Adds two ciphertexts homomorphically.
pub fn add_ciphertexts(ek: &PublicKey, ciphertext1: &Num, ciphertext2: &Num) -> (r: Result<Num, String>)
    ensures
        ({
            let nn = ek.modulus() * ek.modulus();
            if in_mult_group(ciphertext1@, nn) && in_mult_group(ciphertext2@, nn) {
                r matches Ok(c) && c@ == add_value(ek.modulus(), ciphertext1@, ciphertext2@)
            } else {
                r matches Err(e) && e@ == "Add failed"@
            }
        }),
        forall|x1: int, x2: int|
            ek.modulus() > 1 && #[trigger] is_encryption_of(ek.modulus(), x1, ciphertext1@)
                && #[trigger] is_encryption_of(ek.modulus(), x2, ciphertext2@) ==> (r matches Ok(c)
                && is_encryption_of(ek.modulus(), x1 + x2, c@)),
{
    proof {
        assert forall|x1: int, x2: int|
            ek.modulus() > 1 && #[trigger] is_encryption_of(ek.modulus(), x1, ciphertext1@)
                && #[trigger] is_encryption_of(ek.modulus(), x2, ciphertext2@) implies in_mult_group(
            ciphertext1@,
            ek.modulus() * ek.modulus(),
        ) && in_mult_group(ciphertext2@, ek.modulus() * ek.modulus()) && is_encryption_of(
            ek.modulus(),
            x1 + x2,
            add_value(ek.modulus(), ciphertext1@, ciphertext2@),
        ) by {
            lemma_encryption_in_group(ek.modulus(), x1, ciphertext1@);
            lemma_encryption_in_group(ek.modulus(), x2, ciphertext2@);
            lemma_add_homomorphic(ek.modulus(), x1, x2, ciphertext1@, ciphertext2@);
        }
    }
    match encrypted_add(ek, ciphertext1, ciphertext2) {
        Ok(sum) => Ok(sum),
        Err(_) => Err("Add failed".to_string()),
    }
}

/// Multiplies the plaintext under a ciphertext by `factor`, homomorphically.
pub fn multiply_ciphertext(ek: &PublicKey, ciphertext: &Num, factor: Num) -> (r: Result<Num, String>)
    ensures
        if abs_in_mult_group(factor@, ek.modulus()) && in_mult_group(
            ciphertext@,
            ek.modulus() * ek.modulus(),
        ) {
            r matches Ok(c) && c@ == scale_value(ek.modulus(), factor@, ciphertext@)
        } else {
            r matches Err(e) && e@ == "Failed to multipy"@
        },
        forall|x: int|
            ek.modulus() > 1 && abs_in_mult_group(factor@, ek.modulus())
                && #[trigger] is_encryption_of(ek.modulus(), x, ciphertext@) ==> (r matches Ok(c)
                && is_encryption_of(ek.modulus(), factor@ * x, c@)),
{
    proof {
        assert forall|x: int|
            ek.modulus() > 1 && #[trigger] is_encryption_of(
                ek.modulus(),
                x,
                ciphertext@,
            ) implies in_mult_group(ciphertext@, ek.modulus() * ek.modulus()) && is_encryption_of(
            ek.modulus(),
            factor@ * x,
            scale_value(ek.modulus(), factor@, ciphertext@),
        ) by {
            lemma_encryption_in_group(ek.modulus(), x, ciphertext@);
            lemma_scale_homomorphic(ek.modulus(), x, factor@, ciphertext@);
        }
    }
    match encrypted_scale(ek, &factor, ciphertext) {
        Ok(product) => Ok(product),
        Err(_) => Err("Failed to multipy".to_string()),
    }
}

} // verus!
