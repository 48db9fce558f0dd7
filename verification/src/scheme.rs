//! Paillier keys and the operations of `fast_paillier` on them.
use vstd::prelude::*;
use fast_paillier::backend::{Integer, Sign};
use fast_paillier::{DecryptionKey, EncryptionKey};
use crate::bignum::Num;
use crate::paillier::{
    abs_in_mult_group,
    add_value,
    gcd,
    lcm,
    in_mult_group,
    in_signed_range,
    is_encryption_of,
    is_prime,
    scale_value,
    shifted_plaintext,
    signed_residue,
};
use vstd::arithmetic::power::pow;
use vstd::arithmetic::power2::pow2;

verus! {

#[verifier::external_type_specification]
#[verifier::external_body]
pub struct ExEncryptionKey(EncryptionKey);

#[verifier::external_type_specification]
#[verifier::external_body]
pub struct ExDecryptionKey(DecryptionKey);

#[verifier::external_type_specification]
#[verifier::external_body]
pub struct ExPaillierError(fast_paillier::Error);

/// The primes on which `DecryptionKey::from_primes(p, q)` builds a key: `p != q`,
/// `lambda = lcm(p - 1, q - 1)` is invertible modulo `N = p q`, and the CRT
/// exponentiation modulo `N^2` can be built from `p^2` and `q^2` (which needs
/// `0 < p^2 - p < p^2`, the same for `q`, and `p^2` invertible modulo `q^2`).
pub open spec fn key_accepted(p: int, q: int) -> bool {
    &&& p > 1
    &&& q > 1
    &&& p != q
    &&& gcd(lcm((p - 1) as nat, (q - 1) as nat), (p * q) as nat) == 1
    &&& gcd((p * p) as nat, (q * q) as nat) == 1
}

/// What `DecryptionKey::decrypt` returns for the key built from `p` and `q`
/// and the ciphertext `c` (`None` for an error).
pub uninterp spec fn paillier_decrypt(p: int, q: int, c: int) -> Option<int>;

/// `DecryptionKey::from_primes` panics exactly on these primes: they pass its
/// first checks and their product is zero.
pub open spec fn from_primes_panics(p: int, q: int) -> bool {
    p != q && p != 1 && q != 1 && p * q == 0
}

/// A Paillier encryption key together with its modulus `N`.
pub struct PublicKey {
    key: EncryptionKey,
    n: Num,
}

impl PublicKey {
    /// The modulus `N`.
    pub closed spec fn modulus(&self) -> int {
        self.n@
    }

    /// The modulus `N`.
    pub fn n(&self) -> (r: &Num)
        ensures
            r@ == self.modulus(),
    {
        &self.n
    }
}

/// A Paillier decryption key together with its primes `p` and `q`.
pub struct PrivateKey {
    key: DecryptionKey,
    p: Num,
    q: Num,
}

impl PrivateKey {
    /// The prime `p`.
    pub closed spec fn p_value(&self) -> int {
        self.p@
    }

    /// The prime `q`.
    pub closed spec fn q_value(&self) -> int {
        self.q@
    }

    /// The prime `p`.
    pub fn p(&self) -> (r: &Num)
        ensures
            r@ == self.p_value(),
    {
        &self.p
    }

    /// The prime `q`.
    pub fn q(&self) -> (r: &Num)
        ensures
            r@ == self.q_value(),
    {
        &self.q
    }
}

/// `EncryptionKey::from_n(n)`: the encryption key with modulus `n`.
#[verifier::external_body]
pub(crate) fn encryption_key_from_n(n: Num) -> (r: PublicKey)
    ensures
        r.modulus() == n@,
{
    let sign = if n.negative { Sign::Negative } else { Sign::NonNegative };
    PublicKey { key: EncryptionKey::from_n(Integer::from_bytes_msf_signed(&n.magnitude, sign)), n }
}

/// `EncryptionKey::encrypt_with_random` with the operating system's random
/// generator. It accepts `x` exactly in `-(N/2) ..= N/2`; the ciphertext is
/// `((1 + x' N) mod N^2) (r^N mod N^2) mod N^2` for a random nonce `r` of the
/// multiplicative group modulo `N`, where `x'` is `x`, or `x + N` when `x` is
/// negative. Which nonce is drawn is left open. (`N >= 2`: for a smaller `N`
/// the nonce sampling never ends or panics.)
#[verifier::external_body]
pub(crate) fn encrypt_with_random(pk: &PublicKey, x: &Num) -> (r: Result<Num, fast_paillier::Error>)
    requires
        pk.modulus() >= 2,
    ensures
        r is Ok <==> in_signed_range(x@, pk.modulus()),
        r matches Ok(c) ==> (exists|nonce: int| in_mult_group(nonce, pk.modulus()) && c@ == #[trigger] encryption_formula(pk.modulus(), x@, nonce)),
{
    let sign = if x.negative { Sign::Negative } else { Sign::NonNegative };
    let x = Integer::from_bytes_msf_signed(&x.magnitude, sign);
    match pk.key.encrypt_with_random(&mut rand_core::OsRng, &x) {
        Ok((c, _nonce)) => {
            let (magnitude, sign) = c.to_bytes_msf_signed();
            Ok(Num { negative: sign == Sign::Negative, magnitude })
        },
        Err(e) => Err(e),
    }
}

/// The value `EncryptionKey::encrypt_with` computes for plaintext `x` and nonce `r`.
pub open spec fn encryption_formula(n: int, x: int, r: int) -> int {
    (((1 + shifted_plaintext(x, n) * n) % (n * n)) * (pow(r, n as nat) % (n * n))) % (n * n)
}

/// `EncryptionKey::oadd(c1, c2)`: fails unless both ciphertexts lie in the
/// multiplicative group modulo `N^2`, and gives `c1 c2 mod N^2` otherwise.
#[verifier::external_body]
pub(crate) fn encrypted_add(pk: &PublicKey, c1: &Num, c2: &Num) -> (r: Result<Num, fast_paillier::Error>)
    ensures
        r is Ok <==> (in_mult_group(c1@, pk.modulus() * pk.modulus()) && in_mult_group(c2@, pk.modulus() * pk.modulus())),
        r matches Ok(c) ==> c@ == add_value(pk.modulus(), c1@, c2@),
{
    let s1 = if c1.negative { Sign::Negative } else { Sign::NonNegative };
    let s2 = if c2.negative { Sign::Negative } else { Sign::NonNegative };
    let a = Integer::from_bytes_msf_signed(&c1.magnitude, s1);
    let b = Integer::from_bytes_msf_signed(&c2.magnitude, s2);
    match pk.key.oadd(&a, &b) {
        Ok(c) => {
            let (magnitude, sign) = c.to_bytes_msf_signed();
            Ok(Num { negative: sign == Sign::Negative, magnitude })
        },
        Err(e) => Err(e),
    }
}

/// `EncryptionKey::omul(k, c)`: fails unless `|k|` lies in the multiplicative
/// group modulo `N` and `c` in the one modulo `N^2`; gives `c^k mod N^2`
/// otherwise (through the inverse of `c` when `k` is negative).
#[verifier::external_body]
pub(crate) fn encrypted_scale(pk: &PublicKey, k: &Num, c: &Num) -> (r: Result<Num, fast_paillier::Error>)
    ensures
        r is Ok <==> (abs_in_mult_group(k@, pk.modulus()) && in_mult_group(c@, pk.modulus() * pk.modulus())),
        r matches Ok(d) ==> d@ == scale_value(pk.modulus(), k@, c@),
{
    let sk = if k.negative { Sign::Negative } else { Sign::NonNegative };
    let sc = if c.negative { Sign::Negative } else { Sign::NonNegative };
    let k = Integer::from_bytes_msf_signed(&k.magnitude, sk);
    let c = Integer::from_bytes_msf_signed(&c.magnitude, sc);
    match pk.key.omul(&k, &c) {
        Ok(d) => {
            let (magnitude, sign) = d.to_bytes_msf_signed();
            Ok(Num { negative: sign == Sign::Negative, magnitude })
        },
        Err(e) => Err(e),
    }
}

/// `DecryptionKey::from_primes(p, q)`: builds the key exactly when
/// `key_accepted(p, q)`, and keeps `p` and `q`. (On a negative or zero `p` or `q`
/// the checks that build the CRT exponentiation fail; a zero `p q` panics in
/// the modular inversion, which `requires` leaves out.)
#[verifier::external_body]
pub(crate) fn decryption_key_from_primes(p: Num, q: Num) -> (r: Result<PrivateKey, fast_paillier::Error>)
    requires
        !from_primes_panics(p@, q@),
    ensures
        r is Ok <==> key_accepted(p@, q@),
        r matches Ok(k) ==> k.p_value() == p@ && k.q_value() == q@,
{
    let sp = if p.negative { Sign::Negative } else { Sign::NonNegative };
    let sq = if q.negative { Sign::Negative } else { Sign::NonNegative };
    let a = Integer::from_bytes_msf_signed(&p.magnitude, sp);
    let b = Integer::from_bytes_msf_signed(&q.magnitude, sq);
    match DecryptionKey::from_primes(a, b) {
        Ok(key) => Ok(PrivateKey { key, p, q }),
        Err(e) => Err(e),
    }
}

/// `DecryptionKey::generate` with the operating system's random generator. It
/// draws two random safe primes and builds the key with `from_primes`, so a
/// generated key is one that `from_primes` accepts. Each safe prime is drawn as
/// `2 x + 1` for an `x` whose bit 1534 is set, so it is at least `2^1535`. That
/// the primes are prime is left unsaid: they pass a probabilistic test only.
#[verifier::external_body]
pub(crate) fn generate_decryption_key() -> (r: Result<PrivateKey, fast_paillier::Error>)
    ensures
        r matches Ok(k) ==> key_accepted(k.p_value(), k.q_value()) && k.p_value() >= pow2(1535) && k.q_value()
            >= pow2(1535),
{
    match DecryptionKey::generate(&mut rand_core::OsRng) {
        Ok(key) => {
            let (pm, ps) = key.p().to_bytes_msf_signed();
            let (qm, qs) = key.q().to_bytes_msf_signed();
            let p = Num { negative: ps == Sign::Negative, magnitude: pm };
            let q = Num { negative: qs == Sign::Negative, magnitude: qm };
            Ok(PrivateKey { key, p, q })
        },
        Err(e) => Err(e),
    }
}

/// `DecryptionKey::n()`: the modulus `p q` of the key.
#[verifier::external_body]
pub(crate) fn decryption_key_modulus(k: &PrivateKey) -> (r: Num)
    ensures
        r@ == k.p_value() * k.q_value(),
{
    let (magnitude, sign) = k.key.n().to_bytes_msf_signed();
    Num { negative: sign == Sign::Negative, magnitude }
}

/// The integer an operation gave, or `None` when it failed.
pub open spec fn num_result<E>(r: Result<Num, E>) -> Option<int> {
    match r {
        Ok(x) => Some(x@),
        Err(_) => None,
    }
}

/// When `p` and `q` are primes, a ciphertext `c` that encrypts `x` under `p q`
/// decrypts (`m`) to `x` modulo `p q` in the signed range.
pub open spec fn decrypts_encryptions(p: int, q: int, c: int, m: Option<int>) -> bool {
    forall|x: int|
        is_prime(p) && is_prime(q) && #[trigger] is_encryption_of(p * q, x, c) ==> m == Some(
            signed_residue(x, p * q),
        )
}

/// `DecryptionKey::decrypt(c)`, named `paillier_decrypt`. It fails for a
/// ciphertext outside the multiplicative group modulo `N^2`. For a key whose
/// `p` and `q` are primes, an encryption of `x` (with any nonce coprime to
/// `N = p q`) decrypts to `x mod N` taken in the signed range: the correctness
/// of the Paillier scheme, which the source computes through the Chinese
/// remainder theorem.
#[verifier::external_body]
pub(crate) fn decrypt_with_key(k: &PrivateKey, c: &Num) -> (r: Result<Num, fast_paillier::Error>)
    ensures
        r is Ok <==> paillier_decrypt(k.p_value(), k.q_value(), c@) is Some,
        r matches Ok(m) ==> paillier_decrypt(k.p_value(), k.q_value(), c@) == Some(m@),
        r is Ok ==> in_mult_group(c@, (k.p_value() * k.q_value()) * (k.p_value() * k.q_value())),
        decrypts_encryptions(k.p_value(), k.q_value(), c@, num_result(r)),
{
    let sign = if c.negative { Sign::Negative } else { Sign::NonNegative };
    match k.key.decrypt(&Integer::from_bytes_msf_signed(&c.magnitude, sign)) {
        Ok(m) => {
            let (magnitude, sign) = m.to_bytes_msf_signed();
            Ok(Num { negative: sign == Sign::Negative, magnitude })
        },
        Err(e) => Err(e),
    }
}

} // verus!
