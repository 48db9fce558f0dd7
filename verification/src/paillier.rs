//! The arithmetic of the Paillier scheme over mathematical integers: the group
//! checks the scheme makes, what an encryption is, and the homomorphic laws.
use vstd::prelude::*;
use vstd::arithmetic::power::{
    pow,
    lemma_pow_distributes,
    lemma_pow_multiplies,
    lemma_pow_mod_noop,
    lemma1_pow,
};
use vstd::arithmetic::div_mod::{lemma_mul_mod_noop_general, lemma_mod_multiples_vanish, lemma_small_mod};
use vstd::arithmetic::mul::lemma_mul_is_commutative;

verus! {

/// Greatest common divisor (Euclid).
pub open spec fn gcd(a: nat, b: nat) -> nat
    decreases b,
{
    if b == 0 {
        a
    } else {
        gcd(b, a % b)
    }
}

/// Least common multiple (`0` when either argument is `0`).
pub open spec fn lcm(a: nat, b: nat) -> nat {
    if a == 0 || b == 0 {
        0
    } else {
        (a / gcd(a, b)) * b
    }
}

pub open spec fn abs(x: int) -> int {
    if x < 0 {
        -x
    } else {
        x
    }
}

/// `x` lies in the multiplicative group of the integers modulo `m`: `0 < x < m`
/// and `gcd(x, m) = 1`.
pub open spec fn in_mult_group(x: int, m: int) -> bool {
    0 < x < m && gcd(x as nat, m as nat) == 1
}

/// `|k|` lies in the multiplicative group modulo `|m|`.
pub open spec fn abs_in_mult_group(k: int, m: int) -> bool {
    abs(k) < abs(m) && gcd(abs(k) as nat, abs(m) as nat) == 1
}

/// `a` and `m` are coprime, witnessed by Bezout coefficients.
pub open spec fn coprime(a: int, m: int) -> bool {
    exists|u: int, v: int| #[trigger] (u * a) + #[trigger] (v * m) == 1
}

/// The Paillier encryption of `x` under modulus `n` with nonce `r`:
/// `(1 + x n) r^n mod n^2`.
pub open spec fn enc_value(n: int, x: int, r: int) -> int {
    ((1 + x * n) * pow(r, n as nat)) % (n * n)
}

/// `c` is an encryption of `x` under modulus `n`, for some nonce coprime to `n`.
pub open spec fn is_encryption_of(n: int, x: int, c: int) -> bool {
    exists|r: int| coprime(r, n) && c == #[trigger] enc_value(n, x, r)
}

/// The representative of `x` modulo `n` in the signed range that decryption returns:
/// `x mod n`, less `n` when twice it reaches `n`.
pub open spec fn signed_residue(x: int, n: int) -> int {
    let y = x % n;
    if 2 * y >= n {
        y - n
    } else {
        y
    }
}

/// The plaintexts an encryption key with modulus `n` accepts: `-(n/2) ..= n/2`.
pub open spec fn in_signed_range(x: int, n: int) -> bool {
    -(n / 2) <= x <= n / 2
}

/// The plaintext as the encryption formula uses it: `x`, or `x + n` when negative.
pub open spec fn shifted_plaintext(x: int, n: int) -> int {
    if x >= 0 {
        x
    } else {
        x + n
    }
}

/// `d` is the inverse of `c` modulo `m`, taken in `0..m`.
pub open spec fn is_mod_inverse(d: int, c: int, m: int) -> bool {
    0 <= d < m && (c * d) % m == 1
}

/// The inverse of `c` modulo `m` (meaningful when `c` is invertible).
pub open spec fn mod_inverse(c: int, m: int) -> int {
    choose|d: int| is_mod_inverse(d, c, m)
}

/// Homomorphic addition of two ciphertexts under modulus `n`: `c1 c2 mod n^2`.
pub open spec fn add_value(n: int, c1: int, c2: int) -> int {
    (c1 * c2) % (n * n)
}

/// Homomorphic multiplication of a ciphertext by a scalar `k` under modulus `n`:
/// `c^k mod n^2`, with the inverse of `c` raised to `-k` when `k` is negative.
pub open spec fn scale_value(n: int, k: int, c: int) -> int {
    if k >= 0 {
        pow(c, k as nat) % (n * n)
    } else {
        pow(mod_inverse(c, n * n), (-k) as nat) % (n * n)
    }
}

/// `p` is a prime.
pub open spec fn is_prime(p: int) -> bool {
    p > 1 && forall|d: int| 1 < d < p ==> #[trigger] (p % d) != 0
}

/// Bezout coefficients for `a` and `b`.
pub proof fn lemma_bezout(a: nat, b: nat) -> (uv: (int, int))
    ensures
        uv.0 * a + uv.1 * b == gcd(a, b),
    decreases b,
{
    if b == 0 {
        (1, 0)
    } else {
        let (u, v) = lemma_bezout(b, a % b);
        let q = (a / b) as int;
        assert(a % b == a - q * b) by {
            vstd::arithmetic::div_mod::lemma_fundamental_div_mod(a as int, b as int);
        }
        assert(u * b + v * (a - q * b) == v * a + (u - v * q) * b) by (nonlinear_arith);
        (v, u - v * q)
    }
}

/// A member of the multiplicative group modulo `m` is coprime to `m`.
pub proof fn lemma_mult_group_coprime(x: int, m: int)
    requires
        in_mult_group(x, m),
    ensures
        coprime(x, m),
{
    let (u, v) = lemma_bezout(x as nat, m as nat);
    assert((u * x) + (v * m) == 1);
}

/// Products of numbers coprime to `m` are coprime to `m`.
pub proof fn lemma_coprime_mul(a: int, b: int, m: int)
    requires
        coprime(a, m),
        coprime(b, m),
    ensures
        coprime(a * b, m),
{
    let (u1, v1) = choose|u: int, v: int| #[trigger] (u * a) + #[trigger] (v * m) == 1;
    let (u2, v2) = choose|u: int, v: int| #[trigger] (u * b) + #[trigger] (v * m) == 1;
    lemma_swap4(u1, a, u2, b);
    // (u1 a)(u2 b) = (1 - v1 m)(1 - v2 m) = 1 - (v1 + v2 - v1 v2 m) m
    lemma_expand_sub(v1 * m, v2 * m);
    lemma_swap4(v1, m, v2, m);
    vstd::arithmetic::mul::lemma_mul_is_associative(v1 * v2, m, m);
    vstd::arithmetic::mul::lemma_mul_is_distributive_sub_other_way(m, v1 + v2, v1 * v2 * m);
    vstd::arithmetic::mul::lemma_mul_is_distributive_add_other_way(m, v1, v2);
    let v = v1 + v2 - v1 * v2 * m;
    assert(((u1 * u2) * (a * b)) + (v * m) == 1);
}

/// Powers of a number coprime to `m` are coprime to `m`.
pub proof fn lemma_coprime_pow(a: int, k: nat, m: int)
    requires
        coprime(a, m),
    ensures
        coprime(pow(a, k), m),
    decreases k,
{
    reveal(pow);
    if k == 0 {
        assert((1 * pow(a, 0)) + (0 * m) == 1);
    } else {
        lemma_coprime_pow(a, (k - 1) as nat, m);
        lemma_coprime_mul(a, pow(a, (k - 1) as nat), m);
    }
}

/// `(1 + x n)^k = 1 + k x n` modulo `n^2`.
pub proof fn lemma_one_plus_pow(n: int, x: int, k: nat)
    requires
        n > 0,
    ensures
        pow(1 + x * n, k) % (n * n) == (1 + k * x * n) % (n * n),
    decreases k,
{
    let m = n * n;
    assert(m > 0) by (nonlinear_arith)
        requires
            n > 0,
            m == n * n,
    ;
    reveal(pow);
    if k == 0 {
        assert(k * x == 0);
        vstd::arithmetic::mul::lemma_mul_basics(n);
        assert(k * x * n == 0);
    } else {
        let k1 = (k - 1) as nat;
        lemma_one_plus_pow(n, x, k1);
        let a = pow(1 + x * n, k1);
        assert(pow(1 + x * n, k) == (1 + x * n) * a);
        lemma_mul_mod_noop_general(1 + x * n, a, m);
        lemma_mul_mod_noop_general(1 + x * n, 1 + k1 * x * n, m);
        lemma_expand_add(x * n, k1 * x * n);
        lemma_swap4(x, n, k1 * x, n);
        vstd::arithmetic::mul::lemma_mul_is_commutative(x, k1 * x);
        vstd::arithmetic::mul::lemma_mul_is_distributive_add_other_way(x * n, 1, k1 as int);
        vstd::arithmetic::mul::lemma_mul_is_associative(k1 as int, x, n);
        assert(k * x * n == (1 + k1) * (x * n)) by {
            vstd::arithmetic::mul::lemma_mul_is_associative(k as int, x, n);
        }
        assert((1 + x * n) * (1 + k1 * x * n) == m * (k1 * x * x) + (1 + k * x * n)) by {
            vstd::arithmetic::mul::lemma_mul_is_commutative(k1 * x * x, m);
            vstd::arithmetic::mul::lemma_mul_is_associative(k1 as int, x, x);
            vstd::arithmetic::mul::lemma_mul_is_commutative(x, k1 * x);
        }
        lemma_mod_multiples_vanish(k1 * x * x, 1 + k * x * n, m);
        assert(pow(1 + x * n, k) % m == ((1 + x * n) * (a % m)) % m);
        assert(((1 + x * n) * (a % m)) % m == ((1 + x * n) * ((1 + k1 * x * n) % m)) % m);
        assert(((1 + x * n) * ((1 + k1 * x * n) % m)) % m == ((1 + x * n) * (1 + k1 * x * n)) % m);
    }
}

/// What the encryption formula computes is an encryption in the sense of
/// `is_encryption_of`.
pub proof fn lemma_encryption_formula(n: int, x: int, r: int, c: int)
    requires
        n > 1,
        in_mult_group(r, n),
        c == (((1 + shifted_plaintext(x, n) * n) % (n * n)) * (pow(r, n as nat) % (n * n))) % (
        n * n),
    ensures
        is_encryption_of(n, x, c),
{
    let m = n * n;
    assert(m > 0) by (nonlinear_arith)
        requires
            n > 1,
            m == n * n,
    ;
    let s = shifted_plaintext(x, n);
    let p = pow(r, n as nat);
    lemma_mul_mod_noop_general(1 + s * n, p, m);
    if x < 0 {
        assert((1 + s * n) * p == m * p + (1 + x * n) * p) by (nonlinear_arith)
            requires
                s == x + n,
                m == n * n,
        ;
        lemma_mod_multiples_vanish(p, (1 + x * n) * p, m);
    }
    lemma_mult_group_coprime(r, n);
    assert(c == enc_value(n, x, r));
}

proof fn lemma_swap4(a: int, b: int, c: int, d: int)
    by (nonlinear_arith)
    ensures
        (a * b) * (c * d) == (a * c) * (b * d),
{
}

proof fn lemma_expand_add(a: int, b: int)
    by (nonlinear_arith)
    ensures
        (1 + a) * (1 + b) == 1 + a + b + a * b,
{
}

proof fn lemma_expand_sub(a: int, b: int)
    by (nonlinear_arith)
    ensures
        (1 - a) * (1 - b) == 1 - a - b + a * b,
{
}

proof fn lemma_product_expansion(n: int, x1: int, x2: int, p1: int, p2: int)
    ensures
        ((1 + x1 * n) * p1) * ((1 + x2 * n) * p2) == (n * n) * ((x1 * x2) * (p1 * p2)) + (1 + (
        x1 + x2) * n) * (p1 * p2),
{
    let a = x1 * n;
    let b = x2 * n;
    lemma_swap4(1 + a, p1, 1 + b, p2);
    lemma_expand_add(a, b);
    lemma_swap4(x1, n, x2, n);
    vstd::arithmetic::mul::lemma_mul_is_distributive_add_other_way(n, x1, x2);
    let p = p1 * p2;
    vstd::arithmetic::mul::lemma_mul_is_distributive_add_other_way(p, 1 + a + b, a * b);
    vstd::arithmetic::mul::lemma_mul_is_associative(n * n, x1 * x2, p);
    vstd::arithmetic::mul::lemma_mul_is_commutative(x1 * x2, n * n);
}

/// Homomorphic addition: the product of encryptions of `x1` and `x2` is an
/// encryption of `x1 + x2`.
pub proof fn lemma_add_homomorphic(n: int, x1: int, x2: int, c1: int, c2: int)
    requires
        n > 1,
        is_encryption_of(n, x1, c1),
        is_encryption_of(n, x2, c2),
    ensures
        is_encryption_of(n, x1 + x2, add_value(n, c1, c2)),
{
    let m = n * n;
    assert(m > 0) by (nonlinear_arith)
        requires
            n > 1,
            m == n * n,
    ;
    let r1 = choose|r: int| coprime(r, n) && c1 == #[trigger] enc_value(n, x1, r);
    let r2 = choose|r: int| coprime(r, n) && c2 == #[trigger] enc_value(n, x2, r);
    let p1 = pow(r1, n as nat);
    let p2 = pow(r2, n as nat);
    lemma_pow_distributes(r1, r2, n as nat);
    let a1 = (1 + x1 * n) * p1;
    let a2 = (1 + x2 * n) * p2;
    lemma_mul_mod_noop_general(a1, a2, m);
    lemma_product_expansion(n, x1, x2, p1, p2);
    lemma_mod_multiples_vanish((x1 * x2) * (p1 * p2), (1 + (x1 + x2) * n) * (p1 * p2), m);
    lemma_coprime_mul(r1, r2, n);
    assert(add_value(n, c1, c2) == enc_value(n, x1 + x2, r1 * r2));
}

} // verus!

verus! {

/// Raising an encryption of `x` to a power `k >= 0` gives an encryption of `k x`.
proof fn lemma_scale_nonneg(n: int, x: int, k: nat, c: int)
    requires
        n > 1,
        is_encryption_of(n, x, c),
    ensures
        is_encryption_of(n, k * x, pow(c, k) % (n * n)),
{
    let m = n * n;
    assert(m > 0) by (nonlinear_arith)
        requires
            n > 1,
            m == n * n,
    ;
    let r = choose|r: int| coprime(r, n) && c == #[trigger] enc_value(n, x, r);
    let p = pow(r, n as nat);
    let e = (1 + x * n) * p;
    let rk = pow(r, k);
    let q = pow(rk, n as nat);
    lemma_pow_mod_noop(e, k, m);
    lemma_pow_distributes(1 + x * n, p, k);
    lemma_pow_multiplies(r, n as nat, k);
    lemma_pow_multiplies(r, k, n as nat);
    vstd::arithmetic::mul::lemma_mul_is_commutative(n, k as int);
    assert(pow(p, k) == q);
    lemma_one_plus_pow(n, x, k);
    lemma_mul_mod_noop_general(pow(1 + x * n, k), q, m);
    lemma_mul_mod_noop_general(1 + k * x * n, q, m);
    assert(pow(c, k) % m == ((1 + k * x * n) * q) % m);
    vstd::arithmetic::mul::lemma_mul_is_associative(k as int, x, n);
    lemma_coprime_pow(r, k, n);
    assert(pow(c, k) % m == enc_value(n, k * x, rk));
}

/// The inverse of an encryption of `x` is an encryption of `-x`.
proof fn lemma_inverse_encryption(n: int, x: int, c: int)
    requires
        n > 1,
        is_encryption_of(n, x, c),
    ensures
        is_mod_inverse(mod_inverse(c, n * n), c, n * n),
        is_encryption_of(n, -x, mod_inverse(c, n * n)),
{
    let m = n * n;
    assert(m > 1) by (nonlinear_arith)
        requires
            n > 1,
            m == n * n,
    ;
    let r = choose|r: int| coprime(r, n) && c == #[trigger] enc_value(n, x, r);
    let (a, b) = choose|u: int, v: int| #[trigger] (u * r) + #[trigger] (v * n) == 1;
    // u = a^2 r + 2 a b n is an inverse of r modulo n^2
    let t = a * r;
    let u = a * t + 2 * a * b * n;
    assert(u * r + (b * b * n) * n == 1) by (nonlinear_arith)
        requires
            a * r + b * n == 1,
            t == a * r,
            u == a * t + 2 * a * b * n,
    {
        assert(u * r == t * t + 2 * t * (b * n));
        assert(t == 1 - b * n);
    }
    vstd::arithmetic::mul::lemma_mul_is_commutative(u, r);
    assert((r * u) + ((b * b * n) * n) == 1);
    assert(coprime(u, n));
    let ur = (u * r) % m;
    assert(u * r == m * (-(b * b)) + 1) by (nonlinear_arith)
        requires
            u * r + (b * b * n) * n == 1,
            m == n * n,
    ;
    lemma_mod_multiples_vanish(-(b * b), 1, m);
    lemma_small_mod(1, m as nat);
    assert(ur == 1);
    let e = enc_value(n, -x, u);
    let ec = (1 + x * n) * pow(r, n as nat);
    let ee = (1 + (-x) * n) * pow(u, n as nat);
    lemma_mul_mod_noop_general(ec, ee, m);
    // ec * ee = (1 - x^2 n^2) (r u)^n
    lemma_pow_distributes(r, u, n as nat);
    let w = pow(r * u, n as nat);
    assert(ec * ee == m * (-(x * x) * w) + w) by (nonlinear_arith)
        requires
            ec == (1 + x * n) * pow(r, n as nat),
            ee == (1 + (-x) * n) * pow(u, n as nat),
            w == pow(r, n as nat) * pow(u, n as nat),
            m == n * n,
    ;
    lemma_mod_multiples_vanish(-(x * x) * w, w, m);
    vstd::arithmetic::mul::lemma_mul_is_commutative(r, u);
    lemma_pow_mod_noop(r * u, n as nat, m);
    lemma1_pow(n as nat);
    assert((c * e) % m == 1);
    assert(0 <= e < m) by {
        vstd::arithmetic::div_mod::lemma_mod_bound((1 + (-x) * n) * pow(u, n as nat), m);
    }
    assert(is_mod_inverse(e, c, m));
    let d = mod_inverse(c, m);
    assert(is_mod_inverse(d, c, m));
    // inverses modulo m are unique
    lemma_mul_mod_noop_general(d, c * e, m);
    lemma_small_mod(d as nat, m as nat);
    assert((d * (c * e)) % m == d);
    vstd::arithmetic::mul::lemma_mul_is_associative(d, c, e);
    vstd::arithmetic::mul::lemma_mul_is_commutative(d, c);
    lemma_mul_mod_noop_general(c * d, e, m);
    lemma_small_mod(e as nat, m as nat);
    assert((d * (c * e)) % m == e);
    assert(d == e);
}

/// Homomorphic multiplication: scaling an encryption of `x` by `k` gives an
/// encryption of `k x`.
pub proof fn lemma_scale_homomorphic(n: int, x: int, k: int, c: int)
    requires
        n > 1,
        is_encryption_of(n, x, c),
    ensures
        is_encryption_of(n, k * x, scale_value(n, k, c)),
{
    if k >= 0 {
        lemma_scale_nonneg(n, x, k as nat, c);
    } else {
        lemma_inverse_encryption(n, x, c);
        lemma_scale_nonneg(n, -x, (-k) as nat, mod_inverse(c, n * n));
        assert((-k) * (-x) == k * x) by (nonlinear_arith);
    }
}

/// Decryption returns a plaintext unchanged when twice it lies strictly between `-n` and `n`.
pub proof fn lemma_signed_residue_small(x: int, n: int)
    requires
        n > 0,
        -n < 2 * x < n,
    ensures
        signed_residue(x, n) == x,
{
    if x >= 0 {
        lemma_small_mod(x as nat, n as nat);
    } else {
        lemma_mod_multiples_vanish(1, x, n);
        lemma_small_mod((x + n) as nat, n as nat);
        assert(x % n == (n * 1 + x) % n);
    }
}

} // verus!

verus! {

/// `gcd(a, b)` divides `a` and `b`.
proof fn lemma_gcd_divides(a: nat, b: nat)
    requires
        a > 0 || b > 0,
    ensures
        gcd(a, b) > 0,
        a % gcd(a, b) == 0,
        b % gcd(a, b) == 0,
    decreases b,
{
    if b == 0 {
        vstd::arithmetic::div_mod::lemma_mod_self_0(a as int);
        vstd::arithmetic::div_mod::lemma_small_mod(0, a);
    } else {
        lemma_gcd_divides(b, a % b);
        let g = gcd(a, b);
        let s = b / g;
        let t = (a % b) / g;
        vstd::arithmetic::div_mod::lemma_fundamental_div_mod(b as int, g as int);
        vstd::arithmetic::div_mod::lemma_fundamental_div_mod((a % b) as int, g as int);
        vstd::arithmetic::div_mod::lemma_fundamental_div_mod(a as int, b as int);
        let q = a / b;
        assert(a == g * (q * s + t)) by (nonlinear_arith)
            requires
                b == g * s,
                a % b == g * t,
                a == b * q + a % b,
        ;
        vstd::arithmetic::div_mod::lemma_mod_multiples_basic((q * s + t) as int, g as int);
        vstd::arithmetic::mul::lemma_mul_is_commutative(g as int, (q * s + t) as int);
    }
}

/// Bezout coefficients for `a` and `m` make `gcd(a, m) = 1`.
proof fn lemma_coprime_gcd(a: int, m: int)
    requires
        0 < a,
        0 < m,
        coprime(a, m),
    ensures
        gcd(a as nat, m as nat) == 1,
{
    let (u, v) = choose|u: int, v: int| #[trigger] (u * a) + #[trigger] (v * m) == 1;
    lemma_gcd_divides(a as nat, m as nat);
    let g = gcd(a as nat, m as nat) as int;
    let s = a / g;
    let t = m / g;
    vstd::arithmetic::div_mod::lemma_fundamental_div_mod(a, g);
    vstd::arithmetic::div_mod::lemma_fundamental_div_mod(m, g);
    assert(g * (u * s + v * t) == 1) by (nonlinear_arith)
        requires
            a == g * s,
            m == g * t,
            u * a + v * m == 1,
    ;
    if g > 1 {
        assert(false) by (nonlinear_arith)
            requires
                g > 1,
                g * (u * s + v * t) == 1,
        ;
    }
}

/// An integer coprime to `n` is coprime to `n^2`.
proof fn lemma_coprime_square(a: int, n: int)
    requires
        coprime(a, n),
    ensures
        coprime(a, n * n),
{
    let (u, v) = choose|u: int, v: int| #[trigger] (u * a) + #[trigger] (v * n) == 1;
    let u2 = u * u * a + 2 * u * v * n;
    let v2 = v * v;
    assert(u2 * a + v2 * (n * n) == 1) by (nonlinear_arith)
        requires
            u * a + v * n == 1,
            u2 == u * u * a + 2 * u * v * n,
            v2 == v * v,
    {
        assert(u2 * a + v2 * (n * n) == (u * a + v * n) * (u * a + v * n));
    }
    assert((u2 * a) + (v2 * (n * n)) == 1);
}

/// Reducing modulo `m` keeps coprimality with `m`.
proof fn lemma_coprime_mod(a: int, m: int)
    requires
        m > 0,
        coprime(a, m),
    ensures
        coprime(a % m, m),
{
    let (u, v) = choose|u: int, v: int| #[trigger] (u * a) + #[trigger] (v * m) == 1;
    let q = a / m;
    vstd::arithmetic::div_mod::lemma_fundamental_div_mod(a, m);
    let v2 = u * q + v;
    assert(u * (a % m) + v2 * m == 1) by (nonlinear_arith)
        requires
            a == m * q + a % m,
            u * a + v * m == 1,
            v2 == u * q + v,
    ;
    assert((u * (a % m)) + (v2 * m) == 1);
}

/// The multiplicative group modulo `m` is closed under multiplication modulo `m`.
pub proof fn lemma_mult_group_closed(a: int, b: int, m: int)
    requires
        in_mult_group(a, m),
        in_mult_group(b, m),
    ensures
        in_mult_group((a * b) % m, m),
{
    lemma_mult_group_coprime(a, m);
    lemma_mult_group_coprime(b, m);
    lemma_coprime_mul(a, b, m);
    lemma_coprime_mod(a * b, m);
    let c = (a * b) % m;
    vstd::arithmetic::div_mod::lemma_mod_bound(a * b, m);
    if c == 0 {
        let (u, v) = choose|u: int, v: int| #[trigger] (u * c) + #[trigger] (v * m) == 1;
        assert(u * c == 0);
        assert(false) by (nonlinear_arith)
            requires
                v * m == 1,
                m > 1,
        ;
    }
    lemma_coprime_gcd(c, m);
}

/// A number that shares a factor with `n` lies outside the multiplicative group
/// modulo `n^2`, so it is no ciphertext under `n`.
pub proof fn lemma_shared_factor_outside_group(c: int, n: int)
    requires
        n > 1,
        c <= 0 || gcd(c as nat, n as nat) != 1,
    ensures
        !in_mult_group(c, n * n),
{
    if in_mult_group(c, n * n) {
        lemma_mult_group_coprime(c, n * n);
        let (u, v) = choose|u: int, v: int| #[trigger] (u * c) + #[trigger] (v * (n * n)) == 1;
        vstd::arithmetic::mul::lemma_mul_is_associative(v, n, n);
        assert((u * c) + ((v * n) * n) == 1);
        lemma_coprime_gcd(c, n);
    }
}

/// An encryption is a valid ciphertext: it lies in the multiplicative group modulo `n^2`.
pub proof fn lemma_encryption_in_group(n: int, x: int, c: int)
    requires
        n > 1,
        is_encryption_of(n, x, c),
    ensures
        in_mult_group(c, n * n),
{
    let m = n * n;
    assert(m > 1) by (nonlinear_arith)
        requires
            n > 1,
            m == n * n,
    ;
    let r = choose|r: int| coprime(r, n) && c == #[trigger] enc_value(n, x, r);
    let p = pow(r, n as nat);
    lemma_coprime_pow(r, n as nat, n);
    assert((1 * (1 + x * n)) + ((-x) * n) == 1) by (nonlinear_arith);
    lemma_coprime_mul(1 + x * n, p, n);
    lemma_coprime_square((1 + x * n) * p, n);
    lemma_coprime_mod((1 + x * n) * p, m);
    vstd::arithmetic::div_mod::lemma_mod_bound((1 + x * n) * p, m);
    if c == 0 {
        let (u, v) = choose|u: int, v: int| #[trigger] (u * c) + #[trigger] (v * m) == 1;
        assert(u * c == 0);
        assert(false) by (nonlinear_arith)
            requires
                v * m == 1,
                m > 1,
        ;
    }
    lemma_coprime_gcd(c, m);
}

} // verus!
