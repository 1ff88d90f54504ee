//! The sigma-protocol engine: exponentiation, the prover's response and the
//! verifier's two-equation check, over a subgroup of order `q` modulo `p`.

use crate::bignum::BigNum;
use rand::Rng;
use vstd::arithmetic::div_mod::{
    lemma_fundamental_div_mod, lemma_fundamental_div_mod_converse, lemma_mod_bound,
    lemma_mod_multiples_vanish, lemma_mod_twice, lemma_small_mod, lemma_mul_mod_noop, lemma_mul_mod_noop_right,
};
use vstd::arithmetic::mul::lemma_mul_is_distributive_add;
use vstd::arithmetic::power::{
    lemma0_pow, lemma1_pow, lemma_pow0, lemma_pow_adds, lemma_pow_mod_noop,
    lemma_pow_multiplies, pow,
};
use vstd::prelude::*;

verus! {

/// The prover's response `k - c*x`, computed over the integers and reduced
/// modulo `q` into `[0, q)`.
pub open spec fn response(k: nat, c: nat, x: nat, q: nat) -> int {
    (k - c * x) % (q as int)
}

/// The response as two cases on the sign of `k - c*x`; a zero remainder in
/// the negative case gives `0`, not `q`.
pub open spec fn branch_response(k: nat, c: nat, x: nat, q: nat) -> int {
    if k >= c * x {
        (k - c * x) % (q as int)
    } else if (c * x - k) % (q as int) == 0 {
        0
    } else {
        q - (c * x - k) % (q as int)
    }
}

/// The response as one formula: `c*x` is reduced first, so the subtraction
/// never goes below zero.
pub open spec fn unified_response(k: nat, c: nat, x: nat, q: nat) -> int {
    (k + (q - ((c * x) as int) % (q as int))) % (q as int)
}

/// `r == base^s * y^c mod p`: one of the two verification equations.
pub open spec fn equation_holds(r: nat, base: nat, y: nat, c: nat, s: nat, p: nat) -> bool {
    r as int == (pow(base as int, s) * pow(y as int, c)) % (p as int)
}

/// Both verification equations, for the commitments `r1, r2` and the public
/// values `y1, y2` under the generators `g, h`.
pub open spec fn proof_accepted(
    r1: nat,
    r2: nat,
    y1: nat,
    y2: nat,
    g: nat,
    h: nat,
    c: nat,
    s: nat,
    p: nat,
) -> bool {
    equation_holds(r1, g, y1, c, s, p) && equation_holds(r2, h, y2, c, s, p)
}

/// A character of `0-9`, `A-Z` or `a-z`.
pub open spec fn is_alphanumeric(ch: char) -> bool {
    ('0' <= ch && ch <= '9') || ('A' <= ch && ch <= 'Z') || ('a' <= ch && ch <= 'z')
}

/// `(-d) mod q`, from `d mod q`.
proof fn lemma_negated_residue(d: int, q: int)
    requires
        q > 0,
    ensures
        (-d) % q == (if d % q == 0 { 0 } else { q - d % q }),
{
    lemma_fundamental_div_mod(d, q);
    lemma_mod_bound(d, q);
    let t = d / q;
    let m = d % q;
    assert(q * (-t) == -(q * t)) by (nonlinear_arith);
    if m == 0 {
        lemma_fundamental_div_mod_converse(-d, q, -t, 0);
    } else {
        assert(q * (-t - 1) == -(q * t) - q) by (nonlinear_arith);
        lemma_fundamental_div_mod_converse(-d, q, -t - 1, q - m);
    }
}

/// The response computed in either form equals the signed residue.
pub proof fn solve_forms_agree(k: nat, c: nat, x: nat, q: nat)
    requires
        q > 0,
    ensures
        branch_response(k, c, x, q) == response(k, c, x, q),
        unified_response(k, c, x, q) == response(k, c, x, q),
{
    let cx = c * x;
    if k < cx {
        lemma_negated_residue(cx - k, q as int);
    }
    lemma_fundamental_div_mod(cx as int, q as int);
    let t = cx as int / q as int;
    let m = cx as int % q as int;
    lemma_mul_is_distributive_add(q as int, t, 1);
    assert(k + (q - m) == q * (t + 1) + (k - cx));
    lemma_mod_multiples_vanish(t + 1, k - cx, q as int);
}

/// `g^(a + q*n) == g^a (mod p)` when `g^q == 1 (mod p)`.
proof fn lemma_pow_period(g: int, a: nat, n: nat, q: nat, p: int)
    requires
        p > 1,
        pow(g, q) % p == 1,
    ensures
        pow(g, a + q * n) % p == pow(g, a) % p,
{
    lemma_pow_multiplies(g, q, n);
    lemma_pow_adds(g, a, q * n);
    lemma_pow_mod_noop(pow(g, q), n, p);
    lemma1_pow(n);
    let big = pow(pow(g, q), n);
    assert(pow(pow(g, q) % p, n) == 1);
    lemma_small_mod(1, p as nat);
    assert(big % p == 1);
    lemma_mul_mod_noop(pow(g, a), big, p);
    lemma_mod_twice(pow(g, a), p);
}

/// `g^s * (g^x mod p)^c == g^(s + x*c) (mod p)`.
proof fn lemma_combine(p: nat, g: nat, x: nat, c: nat, s: nat)
    requires
        p > 1,
    ensures
        (pow(g as int, s) * pow(pow(g as int, x) % (p as int), c)) % (p as int) == pow(
            g as int,
            s + x * c,
        ) % (p as int),
{
    let pi = p as int;
    let gi = g as int;
    let y = pow(gi, x) % pi;
    lemma_pow_mod_noop(pow(gi, x), c, pi);
    lemma_pow_multiplies(gi, x, c);
    lemma_mul_mod_noop_right(pow(gi, s), pow(y, c), pi);
    lemma_mul_mod_noop_right(pow(gi, s), pow(gi, x * c), pi);
    lemma_pow_adds(gi, s, x * c);
}

/// The check `r == g^s * y^c (mod p)` passes for `y = g^x`, `r = g^k`, and
/// `s` the response to `c` for the secret `x`.
proof fn lemma_honest_equation(p: nat, q: nat, g: nat, x: nat, k: nat, c: nat)
    requires
        p > 1,
        q > 0,
        pow(g as int, q) % (p as int) == 1,
    ensures
        equation_holds(
            (pow(g as int, k) % (p as int)) as nat,
            g,
            (pow(g as int, x) % (p as int)) as nat,
            c,
            response(k, c, x, q) as nat,
            p,
        ),
{
    let pi = p as int;
    let gi = g as int;
    lemma_mod_bound(k - c * x, q as int);
    let s = response(k, c, x, q);
    let sn = s as nat;
    let e: nat = sn + x * c;
    lemma_combine(p, g, x, c, sn);
    // s + x*c and k differ by a multiple of q
    lemma_fundamental_div_mod(k - c * x, q as int);
    let t = (k - c * x) / (q as int);
    assert(k - c * x == q * t + s);
    if t <= 0 {
        let n: nat = (-t) as nat;
        assert(q * n == -(q * t)) by (nonlinear_arith)
            requires
                n == -t,
        ;
        assert(e == k + q * n);
        lemma_pow_period(gi, k, n, q, pi);
    } else {
        let n: nat = t as nat;
        assert(k == e + q * n);
        lemma_pow_period(gi, e, n, q, pi);
    }
}

/// `n > 1` with no divisor strictly between `1` and `n`.
pub open spec fn is_prime(n: nat) -> bool {
    n > 1 && forall|d: nat| 1 < d < n ==> #[trigger] (n % d) != 0
}

/// Greatest common divisor, by Euclid's algorithm.
spec fn gcd(a: nat, b: nat) -> nat
    decreases b,
{
    if b == 0 {
        a
    } else {
        gcd(b, a % b)
    }
}

/// Bezout coefficients `(u, v)` with `a*u + b*v == gcd(a, b)`, and the
/// cofactors `(ka, kb)` with `a == gcd*ka`, `b == gcd*kb`.
proof fn lemma_bezout(a: nat, b: nat) -> (r: (int, int, int, int))
    ensures
        a * r.0 + b * r.1 == gcd(a, b),
        a == gcd(a, b) * r.2,
        b == gcd(a, b) * r.3,
    decreases b,
{
    if b == 0 {
        (1, 0, 1, 0)
    } else {
        let m = a % b;
        let t = a / b;
        lemma_fundamental_div_mod(a as int, b as int);
        lemma_mod_bound(a as int, b as int);
        let (u, v, kb, km) = lemma_bezout(b, m);
        let d = gcd(a, b);
        assert(d == gcd(b, m));
        assert(a * v + b * (u - t * v) == d) by (nonlinear_arith)
            requires
                b * u + m * v == d,
                a == b * t + m,
        ;
        assert(a == d * (kb * t + km)) by (nonlinear_arith)
            requires
                b == d * kb,
                m == d * km,
                a == b * t + m,
        ;
        (v, u - t * v, kb * t + km, kb)
    }
}

/// Euclid's lemma: a prime divides a product only if it divides a factor.
proof fn lemma_prime_product(q: nat, a: nat, b: nat)
    requires
        is_prime(q),
        a % q != 0,
        b % q != 0,
    ensures
        (a * b) % q != 0,
{
    let (u, v, kq, ka) = lemma_bezout(q, a);
    let d = gcd(q, a);
    assert(d > 0) by {
        if d == 0 {
            assert(q == 0 * kq) by (nonlinear_arith)
                requires
                    q == d * kq,
                    d == 0,
            ;
        }
    }
    assert(kq >= 1) by (nonlinear_arith)
        requires
            q == d * kq,
            d > 0,
            q > 1,
    ;
    assert(d <= q) by (nonlinear_arith)
        requires
            q == d * kq,
            kq >= 1,
            d > 0,
    ;
    if d == q {
        assert(a == q * ka);
        vstd::arithmetic::div_mod::lemma_mod_multiples_basic(ka, q as int);
        assert(a % q == 0) by (nonlinear_arith)
            requires
                a == q * ka,
                (ka * q) % (q as int) == 0,
        ;
    } else if d > 1 {
        vstd::arithmetic::div_mod::lemma_mod_multiples_basic(kq, d as int);
        assert(q % d == 0) by (nonlinear_arith)
            requires
                q == d * kq,
                (kq * d) % (d as int) == 0,
        ;
    } else {
        assert(d == 1);
        if (a * b) % q == 0 {
            lemma_fundamental_div_mod((a * b) as int, q as int);
            let m = (a * b) as int / (q as int);
            assert(b == q * (b * u + m * v)) by (nonlinear_arith)
                requires
                    q * u + a * v == 1,
                    a * b == q * m,
            ;
            vstd::arithmetic::div_mod::lemma_mod_multiples_basic(b * u + m * v, q as int);
            assert(b % q == 0) by (nonlinear_arith)
                requires
                    b == q * (b * u + m * v),
                    ((b * u + m * v) * q) % (q as int) == 0,
            ;
        }
    }
}

/// Soundness: when `q` is prime and `g` has order `q` (two powers of `g`
/// agree modulo `p` exactly when their exponents agree modulo `q`), a
/// response computed from a secret `x2` other than `x` (modulo `q`) is
/// rejected for every challenge `c` that is non-zero modulo `q`, whatever
/// `h` is. For `c == 0 (mod q)` the secret plays no part and the response
/// passes: the one coincidence.
pub proof fn wrong_secret_rejected(
    p: nat,
    q: nat,
    g: nat,
    h: nat,
    x: nat,
    x2: nat,
    k: nat,
    c: nat,
)
    requires
        p > 1,
        is_prime(q),
        forall|a: nat, b: nat|
            #[trigger] (pow(g as int, a) % (p as int)) == #[trigger] (pow(g as int, b) % (p as int))
                ==> a % q == b % q,
        x % q != x2 % q,
        c % q != 0,
    ensures
        !proof_accepted(
            (pow(g as int, k) % (p as int)) as nat,
            (pow(h as int, k) % (p as int)) as nat,
            (pow(g as int, x) % (p as int)) as nat,
            (pow(h as int, x) % (p as int)) as nat,
            g,
            h,
            c,
            response(k, c, x2, q) as nat,
            p,
        ),
{
    let qi = q as int;
    lemma_mod_bound(k - c * x2, qi);
    let s = response(k, c, x2, q);
    let sn = s as nat;
    let e: nat = sn + x * c;
    lemma_combine(p, g, x, c, sn);
    if equation_holds(
        (pow(g as int, k) % (p as int)) as nat,
        g,
        (pow(g as int, x) % (p as int)) as nat,
        c,
        sn,
        p,
    ) {
        lemma_mod_bound(pow(g as int, k), p as int);
        assert(pow(g as int, k) % (p as int) == pow(g as int, e) % (p as int));
        assert(k % q == e % q);
        // k == e (mod q) and e == k - c*x2 + c*x (mod q), so c*(x2 - x) == 0 (mod q)
        lemma_fundamental_div_mod(k - c * x2, qi);
        let t = (k - c * x2) / qi;
        lemma_fundamental_div_mod(k as int, qi);
        lemma_fundamental_div_mod(e as int, qi);
        let d: int = c * x2 - c * x;
        let kk = (k as int) / qi;
        let ee = (e as int) / qi;
        vstd::arithmetic::mul::lemma_mul_is_commutative(x as int, c as int);
        assert(d == qi * kk - qi * ee - qi * t);
        assert(qi * kk - qi * ee - qi * t == qi * (kk - ee - t)) by (nonlinear_arith);
        vstd::arithmetic::div_mod::lemma_mod_multiples_basic(
            (k as int) / qi - (e as int) / qi - t,
            qi,
        );
        assert(d % qi == 0) by (nonlinear_arith)
            requires
                d == qi * ((k as int) / qi - (e as int) / qi - t),
                (((k as int) / qi - (e as int) / qi - t) * qi) % qi == 0,
        ;
        // reduce both factors into [0, q)
        let a: nat = (c % q) as nat;
        let b: nat = ((x2 - x) % qi) as nat;
        lemma_mod_bound(x2 - x, qi);
        assert(b != 0) by {
            if b == 0 {
                lemma_fundamental_div_mod(x2 - x, qi);
                lemma_fundamental_div_mod(x as int, qi);
                lemma_fundamental_div_mod(x2 as int, qi);
                let w = (x2 - x) / qi;
                assert(x2 == x + qi * w);
                lemma_mod_multiples_vanish(w, x as int, qi);
            }
        }
        lemma_mod_twice(c as int, qi);
        lemma_mod_twice(x2 - x, qi);
        lemma_prime_product(q, a, b);
        lemma_mul_mod_noop(c as int, x2 - x, qi);
        vstd::arithmetic::mul::lemma_mul_is_distributive_sub(c as int, x2 as int, x as int);
    }
}

/// Completeness: a prover who knows `x`, commits with `k` and answers the
/// challenge `c` with the response `k - c*x mod q` is accepted, whenever both
/// generators satisfy `g^q == h^q == 1 (mod p)`.
pub proof fn honest_prover_accepted(p: nat, q: nat, g: nat, h: nat, x: nat, k: nat, c: nat)
    requires
        p > 1,
        q > 0,
        pow(g as int, q) % (p as int) == 1,
        pow(h as int, q) % (p as int) == 1,
    ensures
        proof_accepted(
            (pow(g as int, k) % (p as int)) as nat,
            (pow(h as int, k) % (p as int)) as nat,
            (pow(g as int, x) % (p as int)) as nat,
            (pow(h as int, x) % (p as int)) as nat,
            g,
            h,
            c,
            response(k, c, x, q) as nat,
            p,
        ),
{
    lemma_honest_equation(p, q, g, x, k, c);
    lemma_honest_equation(p, q, h, x, k, c);
}

/// All-zero commitments, public values and response are accepted exactly
/// when the challenge is non-zero: `g^0 * 0^c` is `0` for `c > 0` and `1`
/// for `c == 0`.
pub proof fn zero_values_accepted_iff_challenge_nonzero(g: nat, h: nat, c: nat, p: nat)
    requires
        p > 1,
    ensures
        proof_accepted(0, 0, 0, 0, g, h, c, 0, p) == (c > 0),
{
    lemma_pow0(g as int);
    lemma_pow0(h as int);
    lemma_pow0(0);
    lemma_small_mod(1, p);
    lemma_small_mod(0, p);
    if c > 0 {
        lemma0_pow(c);
    }
}

/// A group description: modulus `p`, subgroup order `q` and generators `g`, `h`.
#[derive(Debug)]
pub struct ZKP {
    pub p: BigNum,
    pub q: BigNum,
    pub g: BigNum,
    pub h: BigNum,
}

impl Clone for ZKP {
    fn clone(&self) -> (r: ZKP)
        ensures
            r.p@ == self.p@,
            r.q@ == self.q@,
            r.g@ == self.g@,
            r.h@ == self.h@,
    {
        ZKP { p: self.p.clone(), q: self.q.clone(), g: self.g.clone(), h: self.h.clone() }
    }
}

impl ZKP {
    /// What the arithmetic needs of the group: `p > 1` and `q > 0`.
    pub open spec fn wf(&self) -> bool {
        self.p@ > 1 && self.q@ > 0
    }

    /// `n ^ exponent mod modulus`.
    pub fn exponentiate(n: &BigNum, exponent: &BigNum, modulus: &BigNum) -> (r: BigNum)
        requires
            modulus@ > 0,
        ensures
            r@ == pow(n@ as int, exponent@) % (modulus@ as int),
    {
        n.modpow(exponent, modulus)
    }

    /// The response `s = k - c*x mod q`, in `[0, q)`, by cases on the sign of
    /// `k - c*x`.
    pub fn solve(&self, k: &BigNum, c: &BigNum, x: &BigNum) -> (s: BigNum)
        requires
            self.q@ > 0,
        ensures
            s@ == branch_response(k@, c@, x@, self.q@),
            s@ == response(k@, c@, x@, self.q@),
            s@ < self.q@,
    {
        proof {
            solve_forms_agree(k@, c@, x@, self.q@);
        }
        let cx = c.mul(x);
        if k.ge(&cx) {
            let d = k.sub(&cx);
            d.rem(&self.q)
        } else {
            let d = cx.sub(k);
            let m = d.rem(&self.q);
            if m.equals(&BigNum::zero()) {
                m
            } else {
                self.q.sub(&m)
            }
        }
    }

    /// The same response as `solve`, as a single formula: `c*x` is reduced
    /// modulo `q` first and the difference is taken from `k + q`.
    pub fn solve_unified(&self, k: &BigNum, c: &BigNum, x: &BigNum) -> (s: BigNum)
        requires
            self.q@ > 0,
        ensures
            s@ == unified_response(k@, c@, x@, self.q@),
            s@ == response(k@, c@, x@, self.q@),
            s@ < self.q@,
    {
        proof {
            solve_forms_agree(k@, c@, x@, self.q@);
        }
        let cx = c.mul(x);
        let m = cx.rem(&self.q);
        let t = self.q.sub(&m);
        let u = k.add(&t);
        u.rem(&self.q)
    }

    /// Whether `r1 == g^s * y1^c (mod p)` and `r2 == h^s * y2^c (mod p)`.
    pub fn verify(
        &self,
        r1: &BigNum,
        r2: &BigNum,
        y1: &BigNum,
        y2: &BigNum,
        c: &BigNum,
        s: &BigNum,
    ) -> (ok: bool)
        requires
            self.p@ > 0,
        ensures
            ok == proof_accepted(r1@, r2@, y1@, y2@, self.g@, self.h@, c@, s@, self.p@),
    {
        let cond1 = self.equation(r1, &self.g, y1, c, s);
        let cond2 = self.equation(r2, &self.h, y2, c, s);
        cond1 && cond2
    }

    /// Whether `r == base^s * y^c (mod p)`.
    fn equation(&self, r: &BigNum, base: &BigNum, y: &BigNum, c: &BigNum, s: &BigNum) -> (ok:
        bool)
        requires
            self.p@ > 0,
        ensures
            ok == equation_holds(r@, base@, y@, c@, s@, self.p@),
    {
        let bs = base.modpow(s, &self.p);
        let yc = y.modpow(c, &self.p);
        let t = bs.mul(&yc).rem(&self.p);
        proof {
            lemma_mul_mod_noop(pow(base@ as int, s@), pow(y@ as int, c@), self.p@ as int);
        }
        r.equals(&t)
    }

    /// A value in `[0, limit)` from the thread-local random generator.
    pub fn generate_random_number_below(limit: &BigNum) -> (r: BigNum)
        requires
            limit@ > 0,
        ensures
            r@ < limit@,
    {
        BigNum::random_below(limit)
    }

    /// A random string of `size` characters from `0-9`, `A-Z` and `a-z`.
    pub fn generate_random_string(size: usize) -> (r: String)
        ensures
            r@.len() == size,
            forall|i: int| 0 <= i < r@.len() ==> is_alphanumeric(#[trigger] r@[i]),
    {
        random_alphanumeric(size)
    }
}

/// Exponentiation of a fixed base modulo a fixed modulus.
#[derive(Debug)]
pub struct Exponentiation {
    pub base: BigNum,
    pub modulus: BigNum,
}

impl Exponentiation {
    /// `base ^ exponent mod modulus`.
    pub fn compute(&self, exponent: &BigNum) -> (r: BigNum)
        requires
            self.modulus@ > 0,
        ensures
            r@ == pow(self.base@ as int, exponent@) % (self.modulus@ as int),
    {
        self.base.modpow(exponent, &self.modulus)
    }

    /// The operation's name.
    pub fn name(&self) -> (r: &'static str)
        ensures
            r@ == "Exponentiation"@,
    {
        "Exponentiation"
    }
}

/// Relies on `rand::distributions::Alphanumeric` sampled from the thread-local
/// generator: `size` characters, each one of `0-9`, `A-Z`, `a-z`.
#[verifier::external_body]
fn random_alphanumeric(size: usize) -> (r: String)
    ensures
        r@.len() == size,
        forall|i: int| 0 <= i < r@.len() ==> is_alphanumeric(#[trigger] r@[i]),
{
    rand::thread_rng().sample_iter(rand::distributions::Alphanumeric).take(size).map(
        char::from,
    ).collect()
}

} // verus!
