//! Montgomery reduction.
//!
//! Montgomery reduction performs modular multiplication without dividing by
//! the modulus on the hot path. A [`MontgomeryContext`] stores, for one odd
//! modulus `N`, the precomputed values `R^2 mod N` and `N'` with
//! `N * N' == -1 (mod R)`, where `R = 2^64`. Values are carried through a
//! transform domain in which every residue is implicitly scaled by `R`; the
//! representation is bit-identical in both domains, so callers must convert
//! explicitly with `to_montgomery` / `from_montgomery` and never mix domains.

use vstd::prelude::*;
use vstd::arithmetic::div_mod::{
    lemma_small_mod, lemma_fundamental_div_mod, lemma_fundamental_div_mod_converse,
    lemma_multiply_divide_lt, lemma_mod_mod, lemma_mod_multiples_vanish,
    lemma_mod_add_multiples_vanish, lemma_mod_sub_multiples_vanish, lemma_mod_multiples_basic,
    lemma_add_mod_noop, lemma_mul_mod_noop_left, lemma_mul_mod_noop_right,
    lemma_mul_mod_noop_general,
};
use vstd::arithmetic::power::{
    pow, lemma_pow0, lemma_pow1, lemma_pow_adds, lemma_pow_increases,
};
use vstd::arithmetic::power2::{lemma2_to64, lemma2_to64_rest, lemma_pow2};
use vstd::arithmetic::mul::{
    lemma_mul_upper_bound, lemma_mul_is_distributive_sub_other_way,
    lemma_mul_strict_inequality_converse,
};

use crate::{ModularError, ModularInt};

verus! {

/// Half of `m + 1`: for an odd modulus `m` this is the modular inverse of
/// two, since `2 * ((m + 1) / 2) == m + 1 == 1 (mod m)`.
pub open spec fn inv2(m: int) -> int {
    (m + 1) / 2
}

/// The value a single Montgomery reduction returns for a double-width input
/// `t` under an odd modulus `m`: the canonical representative of
/// `t * R^{-1} (mod m)` with `R = 2^64`, written through the inverse of two.
pub open spec fn redc_spec(t: int, m: int) -> int {
    (t * pow(inv2(m), 64)) % m
}

/// For an odd modulus, two times its half-of-successor is one, modulo `m`.
proof fn lemma_inv2_cancel(m: int)
    requires
        m > 0,
        m % 2 == 1,
    ensures
        (2 * inv2(m)) % m == 1int % m,
{
    lemma_fundamental_div_mod(m + 1, 2);
    assert(2 * inv2(m) == m + 1);
    lemma_mod_add_multiples_vanish(1, m);
}

/// Powers of two and of the inverse of two cancel each other, modulo an odd
/// modulus.
proof fn lemma_pow_inv2_cancel(m: int, k: nat)
    requires
        m > 0,
        m % 2 == 1,
    ensures
        (pow(2, k) * pow(inv2(m), k)) % m == 1int % m,
    decreases k,
{
    if k == 0 {
        lemma_pow0(2);
        lemma_pow0(inv2(m));
    } else {
        lemma_pow_inv2_cancel(m, (k - 1) as nat);
        lemma_pow_adds(2, 1, (k - 1) as nat);
        lemma_pow_adds(inv2(m), 1, (k - 1) as nat);
        lemma_pow1(2);
        lemma_pow1(inv2(m));
        let x = pow(2, (k - 1) as nat);
        let y = pow(inv2(m), (k - 1) as nat);
        assert(pow(2, k) * pow(inv2(m), k) == (2 * inv2(m)) * (x * y)) by (nonlinear_arith)
            requires
                pow(2, k) == 2 * x,
                pow(inv2(m), k) == inv2(m) * y,
        ;
        lemma_inv2_cancel(m);
        lemma_mul_mod_noop_general(2 * inv2(m), x * y, m);
        lemma_mul_mod_noop_general(1, 1, m);
        assert(((1int % m) * (1int % m)) % m == 1int % m);
    }
}

/// `R = 2^64` and `inv2(m)^64` cancel each other, modulo an odd modulus.
proof fn lemma_r_inv2_cancel(m: int)
    requires
        m > 0,
        m % 2 == 1,
    ensures
        (0x10000000000000000int * pow(inv2(m), 64)) % m == 1int % m,
{
    lemma2_to64();
    lemma_pow2(64);
    assert(pow(2, 64) == 0x10000000000000000int);
    lemma_pow_inv2_cancel(m, 64);
}

/// The value below `m` whose product with `R = 2^64` is congruent to `t` is
/// exactly `redc_spec(t, m)`.
proof fn lemma_redc_unique(t: int, m: int, r: int)
    requires
        m > 0,
        m % 2 == 1,
        0 <= r < m,
        (r * 0x10000000000000000) % m == t % m,
    ensures
        r == redc_spec(t, m),
{
    let rr: int = 0x10000000000000000;
    let p = pow(inv2(m), 64);
    lemma_mul_mod_noop_left(t, p, m);
    lemma_mul_mod_noop_left(r * rr, p, m);
    assert((t * p) % m == ((r * rr) * p) % m);
    assert((r * rr) * p == r * (rr * p)) by (nonlinear_arith);
    lemma_mul_mod_noop_right(r, rr * p, m);
    lemma_r_inv2_cancel(m);
    lemma_mul_mod_noop_right(r, 1, m);
    assert((r * (rr * p)) % m == (r * 1) % m);
    lemma_small_mod(r as nat, m as nat);
}

/// Montgomery context for efficient modular multiplication.
///
/// Stores the precomputed values needed for Montgomery reduction, bound to
/// exactly one odd modulus for its lifetime and immutable after
/// construction.
#[derive(Debug, Clone)]
pub struct MontgomeryContext<T> {
    modulus: T,
    r_squared: T,
    n_prime: T,
}

impl MontgomeryContext<u64> {
    /// The modulus this context was built for.
    pub closed spec fn spec_modulus(self) -> u64 {
        self.modulus
    }

    /// The precomputed `R^2 mod modulus`.
    pub closed spec fn spec_r_squared(self) -> u64 {
        self.r_squared
    }

    /// The precomputed `N'` with `modulus * N' == -1 (mod R)`.
    pub closed spec fn spec_n_prime(self) -> u64 {
        self.n_prime
    }

    /// Well-formedness: the modulus is odd and positive and both precomputed
    /// constants satisfy their defining equations.
    pub open spec fn wf(self) -> bool {
        &&& self.spec_modulus() > 0
        &&& self.spec_modulus() % 2 == 1
        &&& self.spec_r_squared() as int == 0x100000000000000000000000000000000int
            % (self.spec_modulus() as int)
        &&& (self.spec_modulus() as int * self.spec_n_prime() as int) % 0x10000000000000000
            == 0x10000000000000000 - 1
    }

    /// Returns the modulus used in this Montgomery context.
    pub fn modulus(&self) -> (r: u64)
        ensures
            r == self.spec_modulus(),
    {
        self.modulus
    }

    /// Computes `R^2 mod modulus` where `R = 2^64`, by 128 rounds of
    /// doubling followed by reduction.
    fn compute_r_squared(modulus: u64) -> (r: u64)
        requires
            modulus > 0,
        ensures
            r as int == 0x100000000000000000000000000000000int % (modulus as int),
    {
        let m = modulus;
        let mut result: u128 = 1;
        let mut i: u64 = 0;
        while i < 128
            invariant
                i <= 128,
                m > 0,
                result < 0x10000000000000000,
                i == 0 ==> result == 1,
                i > 0 ==> result as int == pow(2, i as nat) % (m as int),
            decreases 128 - i,
        {
            let ghost i0 = i as nat;
            let doubled: u128 = result * 2;
            result = doubled % (m as u128);
            i = i + 1;
            proof {
                lemma_pow_adds(2, i0, 1);
                lemma_pow1(2);
                if i0 == 0 {
                    lemma_pow0(2);
                } else {
                    lemma_mul_mod_noop_left(pow(2, i0), 2, m as int);
                }
            }
        }
        proof {
            lemma_pow_adds(2, 64, 64);
            lemma2_to64();
            lemma_pow2(64);
            assert(pow(2, 64) == 0x10000000000000000int);
            assert(pow(2, 128) == 0x100000000000000000000000000000000int) by (nonlinear_arith)
                requires
                    pow(2, 128) == pow(2, 64) * pow(2, 64),
                    pow(2, 64) == 0x10000000000000000int,
            ;
        }
        result as u64
    }

    /// Computes `N'` such that `modulus * N' == -1 (mod R)` with `R = 2^64`,
    /// by lifting the inverse of the modulus one bit at a time and negating
    /// it.
    fn compute_n_prime(modulus: u64) -> (r: u64)
        requires
            modulus % 2 == 1,
        ensures
            (modulus as int * r as int) % 0x10000000000000000 == 0x10000000000000000 - 1,
    {
        let m = modulus;
        // Invariant: m * y == 1 (mod 2^i), with pw == 2^i.
        let mut y: u64 = 1;
        let mut pw: u128 = 2;
        let mut i: u64 = 1;
        proof {
            lemma_pow1(2);
            lemma_fundamental_div_mod(m as int, 2);
        }
        while i < 64
            invariant
                1 <= i <= 64,
                m % 2 == 1,
                pw == pow(2, i as nat),
                2 <= pw <= 0x10000000000000000,
                (y as int) < pw,
                (m as int * y as int) % (pw as int) == 1,
            decreases 64 - i,
        {
            proof {
                lemma_mul_upper_bound(m as int, u64::MAX as int, y as int, u64::MAX as int);
                lemma_pow_adds(2, i as nat, 1);
                lemma_pow1(2);
                assert(pow(2, (i + 1) as nat) == pw * 2);
                lemma_pow_increases(2, i as nat, 63);
                lemma2_to64_rest();
                lemma_pow2(63);
                assert(pow(2, 63) == 0x8000000000000000int);
            }
            let p: u128 = (m as u128) * (y as u128);
            let t2: u128 = pw * 2;
            let ghost pp = p as int;
            let ghost tt = pw as int;
            proof {
                // p % (2 * pw) is 1 or 1 + pw, because p % pw == 1.
                lemma_mod_mod(pp, tt, 2);
                lemma_mod_bound_split(pp, tt);
            }
            if p % t2 != 1 {
                proof {
                    lemma_lift_flip(m as int, y as int, tt);
                }
                y = y + (pw as u64);
            }
            pw = t2;
            i = i + 1;
        }
        proof {
            lemma2_to64();
            lemma_pow2(64);
            assert(pow(2, 64) == 0x10000000000000000int);
            // y != 0, since 0 is not congruent to 1 modulo 2^64.
            if y == 0 {
                assert((m as int * 0) % 0x10000000000000000 == 0) by {
                    lemma_small_mod(0, 0x10000000000000000);
                }
            }
        }
        let np: u128 = 0x1_0000_0000_0000_0000u128 - (y as u128);
        proof {
            lemma_neg_inverse(m as int, y as int);
        }
        np as u64
    }
}

impl MontgomeryContext<u64> {
    /// Creates a new Montgomery context for the given modulus, precomputing
    /// the values required for Montgomery arithmetic.
    ///
    /// Fails with `ZeroModulus` when the modulus is zero and with
    /// `EvenModulus` when it is even: Montgomery reduction requires
    /// `gcd(modulus, R) == 1`, so only odd moduli are accepted.
    pub fn new(modulus: u64) -> (r: Result<Self, ModularError>)
        ensures
            modulus == 0 ==> r == Err::<Self, ModularError>(ModularError::ZeroModulus),
            modulus != 0 && modulus % 2 == 0 ==> r == Err::<Self, ModularError>(
                ModularError::EvenModulus,
            ),
            modulus % 2 == 1 ==> (r matches Ok(c) && c.wf() && c.spec_modulus() == modulus),
    {
        if modulus == 0 {
            return Err(ModularError::ZeroModulus);
        }
        if modulus % 2 == 0 {
            return Err(ModularError::EvenModulus);
        }
        let r_squared = Self::compute_r_squared(modulus);
        let n_prime = Self::compute_n_prime(modulus);
        Ok(Self { modulus, r_squared, n_prime })
    }

    /// Performs the Montgomery reduction of a double-width value `t`.
    ///
    /// Computes `m = (t mod R) * n_prime mod R`, then the quotient
    /// `u = (t + m * modulus) / R`; the division is exact by construction
    /// and is taken limb by limb, so no intermediate sum can overflow. A
    /// single final conditional subtraction suffices because the REDC
    /// invariant bounds `u` by `2 * modulus - 1`.
    fn montgomery_reduction(&self, t: u128) -> (r: u64)
        requires
            self.wf(),
            (t as int) < self.spec_modulus() as int * 0x10000000000000000,
        ensures
            r < self.spec_modulus(),
            r as int == redc_spec(t as int, self.spec_modulus() as int),
    {
        let m = self.modulus;
        let rr: u128 = 0x1_0000_0000_0000_0000u128;
        let t_lo: u128 = t % rr;
        let t_hi: u128 = t / rr;
        proof {
            lemma_mul_upper_bound(
                t_lo as int,
                0xFFFFFFFFFFFFFFFF,
                self.spec_n_prime() as int,
                0xFFFFFFFFFFFFFFFF,
            );
        }
        let m_val: u128 = (t_lo * (self.n_prime as u128)) % rr;
        proof {
            lemma_mul_upper_bound(m_val as int, 0xFFFFFFFFFFFFFFFF, m as int, 0xFFFFFFFFFFFFFFFF);
        }
        let prod: u128 = m_val * (m as u128);
        let p_lo: u128 = prod % rr;
        let p_hi: u128 = prod / rr;
        let lo_sum: u128 = t_lo + p_lo;
        let carry: u128 = lo_sum / rr;
        proof {
            lemma_multiply_divide_lt(t as int, m as int, 0x10000000000000000);
            lemma_multiply_divide_lt(prod as int, 0x10000000000000000, 0x10000000000000000);
        }
        let u: u128 = t_hi + p_hi + carry;
        proof {
            let mm = m as int;
            let tt = t as int;
            let big = 0x10000000000000000int;
            let np = self.spec_n_prime() as int;
            let mv = m_val as int;
            let pr = prod as int;
            let uu = u as int;
            // The low product is congruent to (m * n_prime) * t modulo R.
            lemma_mul_mod_noop_right(mm, (tt % big) * np, big);
            assert(mm * ((tt % big) * np) == (mm * np) * (tt % big)) by (nonlinear_arith);
            lemma_mul_mod_noop_right(mm * np, tt, big);
            lemma_mul_mod_noop_left(mm * np, tt, big);
            assert((mm * mv) % big == ((big - 1) * tt) % big);
            // Therefore t + prod vanishes modulo R.
            lemma_add_mod_noop(tt, pr, big);
            lemma_add_mod_noop(tt, (big - 1) * tt, big);
            assert(tt + (big - 1) * tt == big * tt) by (nonlinear_arith);
            lemma_mod_multiples_basic(tt, big);
            assert((tt + pr) % big == 0);
            // The limb sum reconstructs the exact quotient: u * R == t + prod.
            lemma_fundamental_div_mod(tt, big);
            lemma_fundamental_div_mod(pr, big);
            lemma_fundamental_div_mod(lo_sum as int, big);
            assert(tt + pr == uu * big + (lo_sum as int) % big);
            lemma_fundamental_div_mod_converse(tt + pr, big, uu, (lo_sum as int) % big);
            assert(uu * big == tt + pr);
            // u is below 2 * modulus.
            lemma_mul_upper_bound(mv, big - 1, mm, mm);
            assert(uu * big < (2 * mm) * big);
            lemma_mul_strict_inequality_converse(uu, 2 * mm, big);
            // u * R is congruent to t modulo the modulus.
            lemma_mod_multiples_vanish(mv, tt, mm);
            assert((uu * big) % mm == tt % mm);
        }
        let reduced: u128 = if u >= m as u128 {
            u - m as u128
        } else {
            u
        };
        proof {
            let mm = m as int;
            let big = 0x10000000000000000int;
            let uu = u as int;
            let red = reduced as int;
            if uu >= mm {
                lemma_mul_is_distributive_sub_other_way(big, uu, mm);
                lemma_mod_multiples_vanish(-big, uu * big, mm);
                assert((uu - mm) * big == mm * (-big) + uu * big);
            }
            assert((red * big) % mm == (t as int) % mm);
            lemma_redc_unique(t as int, mm, red);
        }
        reduced as u64
    }
}

/// Montgomery-domain operations for residue values.
///
/// The spec functions expose the view a residue presents to these
/// operations; `ModularInt<u64>` implements them with its stored value and
/// modulus.
pub trait MontgomeryArithmetic where Self: Sized {
    /// The operand is well formed.
    spec fn mont_wf(&self) -> bool;

    /// The operand's stored value.
    spec fn mont_value(&self) -> u64;

    /// The operand's modulus.
    spec fn mont_modulus(&self) -> u64;

    /// Lifts a normal-domain value into the Montgomery domain:
    /// `REDC(value * r_squared)`, which equals `value * R mod modulus`.
    ///
    /// Fails with `ModulusMismatch` if and only if the operand and the
    /// context disagree on the modulus.
    fn to_montgomery(&self, ctx: &MontgomeryContext<u64>) -> (r: Result<
        ModularInt<u64>,
        ModularError,
    >)
        requires
            self.mont_wf(),
            ctx.wf(),
        ensures
            self.mont_modulus() != ctx.spec_modulus() ==> r == Err::<
                ModularInt<u64>,
                ModularError,
            >(ModularError::ModulusMismatch),
            self.mont_modulus() == ctx.spec_modulus() ==> (r matches Ok(c) && c.wf()
                && c.spec_modulus() == ctx.spec_modulus() && c.spec_value() as int == (
            self.mont_value() as int * 0x10000000000000000) % (ctx.spec_modulus() as int)),
    ;

    /// Lowers a transform-domain value back to the normal domain by one
    /// further Montgomery reduction, which strips one factor of `R`.
    ///
    /// Fails with `ModulusMismatch` if and only if the operand and the
    /// context disagree on the modulus.
    fn from_montgomery(&self, ctx: &MontgomeryContext<u64>) -> (r: Result<
        ModularInt<u64>,
        ModularError,
    >)
        requires
            self.mont_wf(),
            ctx.wf(),
        ensures
            self.mont_modulus() != ctx.spec_modulus() ==> r == Err::<
                ModularInt<u64>,
                ModularError,
            >(ModularError::ModulusMismatch),
            self.mont_modulus() == ctx.spec_modulus() ==> (r matches Ok(c) && c.wf()
                && c.spec_modulus() == ctx.spec_modulus() && c.spec_value() as int == redc_spec(
                self.mont_value() as int,
                ctx.spec_modulus() as int,
            )),
    ;

    /// Multiplies two transform-domain operands: `REDC(a * b)`, so only one
    /// reduction is paid per multiply.
    ///
    /// Fails with `ModulusMismatch` if and only if either operand and the
    /// context disagree on the modulus.
    fn montgomery_mul(&self, other: &ModularInt<u64>, ctx: &MontgomeryContext<u64>) -> (r: Result<
        ModularInt<u64>,
        ModularError,
    >)
        requires
            self.mont_wf(),
            other.wf(),
            ctx.wf(),
        ensures
            (self.mont_modulus() != ctx.spec_modulus() || other.spec_modulus()
                != ctx.spec_modulus()) ==> r == Err::<ModularInt<u64>, ModularError>(
                ModularError::ModulusMismatch,
            ),
            (self.mont_modulus() == ctx.spec_modulus() && other.spec_modulus()
                == ctx.spec_modulus()) ==> (r matches Ok(c) && c.wf() && c.spec_modulus()
                == ctx.spec_modulus() && c.spec_value() as int == redc_spec(
                self.mont_value() as int * other.spec_value() as int,
                ctx.spec_modulus() as int,
            )),
    ;
}

impl MontgomeryArithmetic for ModularInt<u64> {
    open spec fn mont_wf(&self) -> bool {
        self.wf()
    }

    open spec fn mont_value(&self) -> u64 {
        self.spec_value()
    }

    open spec fn mont_modulus(&self) -> u64 {
        self.spec_modulus()
    }

    fn to_montgomery(&self, ctx: &MontgomeryContext<u64>) -> (r: Result<
        ModularInt<u64>,
        ModularError,
    >) {
        if self.modulus() != ctx.modulus() {
            return Err(ModularError::ModulusMismatch);
        }
        let m = ctx.modulus();
        proof {
            lemma_product_below_modulus_times_r(
                self.spec_value() as int,
                ctx.spec_r_squared() as int,
                m as int,
            );
        }
        let t: u128 = (self.value() as u128) * (ctx.r_squared as u128);
        let v = ctx.montgomery_reduction(t);
        proof {
            lemma_to_mont_value(self.spec_value() as int, m as int);
        }
        Ok(ModularInt::from_reduced(v, m))
    }

    fn from_montgomery(&self, ctx: &MontgomeryContext<u64>) -> (r: Result<
        ModularInt<u64>,
        ModularError,
    >) {
        if self.modulus() != ctx.modulus() {
            return Err(ModularError::ModulusMismatch);
        }
        let m = ctx.modulus();
        let v = ctx.montgomery_reduction(self.value() as u128);
        Ok(ModularInt::from_reduced(v, m))
    }

    fn montgomery_mul(&self, other: &ModularInt<u64>, ctx: &MontgomeryContext<u64>) -> (r: Result<
        ModularInt<u64>,
        ModularError,
    >) {
        if self.modulus() != ctx.modulus() || other.modulus() != ctx.modulus() {
            return Err(ModularError::ModulusMismatch);
        }
        let m = ctx.modulus();
        proof {
            lemma_product_below_modulus_times_r(
                self.spec_value() as int,
                other.spec_value() as int,
                m as int,
            );
        }
        let t: u128 = (self.value() as u128) * (other.value() as u128);
        let v = ctx.montgomery_reduction(t);
        Ok(ModularInt::from_reduced(v, m))
    }
}

/// The product of two values below an at-most-64-bit modulus stays below
/// `modulus * R`.
proof fn lemma_product_below_modulus_times_r(x: int, y: int, m: int)
    requires
        0 < m < 0x10000000000000000,
        0 <= x < m,
        0 <= y < m,
    ensures
        x * y < m * 0x10000000000000000,
{
    lemma_mul_upper_bound(x, m - 1, y, m - 1);
    assert((m - 1) * (m - 1) < m * 0x10000000000000000) by (nonlinear_arith)
        requires
            0 < m < 0x10000000000000000,
    ;
}

/// Reducing `value * (R^2 mod m)` by one Montgomery reduction lifts the
/// value into the transform domain: the result is `value * R mod m`.
proof fn lemma_to_mont_value(v: int, m: int)
    requires
        m > 0,
        m % 2 == 1,
        0 <= v < m,
    ensures
        redc_spec(v * (0x100000000000000000000000000000000int % m), m) == (v
            * 0x10000000000000000) % m,
{
    let big = 0x10000000000000000int;
    let big2 = 0x100000000000000000000000000000000int;
    let p = pow(inv2(m), 64);
    let r2 = big2 % m;
    assert((v * r2) * p == (v * p) * r2) by (nonlinear_arith);
    lemma_mul_mod_noop_right(v * p, big2, m);
    assert(((v * p) * r2) % m == ((v * p) * big2) % m);
    assert((v * p) * 0x100000000000000000000000000000000int == (v * 0x10000000000000000int) * (
    0x10000000000000000int * p)) by (nonlinear_arith);
    lemma_mul_mod_noop_right(v * big, big * p, m);
    lemma_r_inv2_cancel(m);
    lemma_mul_mod_noop_right(v * big, 1, m);
    assert(((v * big) * (big * p)) % m == ((v * big) * 1) % m);
}

/// Law: lifting two residues into the Montgomery domain, multiplying them
/// there, and lowering the product back yields exactly the plain modular
/// product `(a * b) % m`, for every odd modulus `m` and all `a, b` in
/// `[0, m)`.
pub proof fn lemma_montgomery_round_trip(a: int, b: int, m: int)
    requires
        m > 0,
        m % 2 == 1,
        0 <= a < m,
        0 <= b < m,
    ensures
        redc_spec(
            redc_spec(
                ((a * 0x10000000000000000) % m) * ((b * 0x10000000000000000) % m),
                m,
            ),
            m,
        ) == (a * b) % m,
{
    let big = 0x10000000000000000int;
    let p = pow(inv2(m), 64);
    let x = (a * big) % m;
    let y = (b * big) % m;
    let z = redc_spec(x * y, m);
    // Replace both reduced factors by the full products.
    assert((x * y) * p == x * (y * p)) by (nonlinear_arith);
    lemma_mul_mod_noop_left(a * big, y * p, m);
    assert((a * big) * (y * p) == y * ((a * big) * p)) by (nonlinear_arith);
    lemma_mul_mod_noop_left(b * big, (a * big) * p, m);
    assert(z == ((b * big) * ((a * big) * p)) % m);
    // One factor of R cancels against the reduction.
    assert((b * big) * ((a * big) * p) == ((a * b) * big) * (big * p)) by (nonlinear_arith);
    lemma_mul_mod_noop_right((a * b) * big, big * p, m);
    lemma_r_inv2_cancel(m);
    lemma_mul_mod_noop_right((a * b) * big, 1, m);
    assert(z == ((a * b) * big) % m);
    // The second reduction cancels the remaining factor of R.
    lemma_mul_mod_noop_left((a * b) * big, p, m);
    assert(z * p == ((a * b) * big) % m * p);
    assert(((a * b) * big) * p == (a * b) * (big * p)) by (nonlinear_arith);
    lemma_mul_mod_noop_right(a * b, big * p, m);
    lemma_mul_mod_noop_right(a * b, 1, m);
    assert(redc_spec(z, m) == (a * b) % m);
}

/// For `p % pw == 1` and `pw >= 2`, the residue of `p` modulo `2 * pw` is
/// either `1` or `1 + pw`.
proof fn lemma_mod_bound_split(p: int, pw: int)
    requires
        p >= 0,
        pw >= 2,
        (p % (pw * 2)) % pw == p % pw,
        p % pw == 1,
    ensures
        p % (pw * 2) == 1 || p % (pw * 2) == 1 + pw,
{
    let z = p % (pw * 2);
    lemma_mod_bound(p, pw * 2);
    if z < pw {
        lemma_small_mod(z as nat, pw as nat);
    } else {
        lemma_mod_sub_multiples_vanish(z, pw);
        assert((z - pw) % pw == z % pw);
        lemma_small_mod((z - pw) as nat, pw as nat);
    }
}

/// Bound of the Euclidean remainder, for nonnegative dividends.
proof fn lemma_mod_bound(x: int, m: int)
    requires
        x >= 0,
        m > 0,
    ensures
        0 <= x % m < m,
{
}

/// One lifting step: when `m * y` is `1 + pw` modulo `2 * pw`, adding `pw`
/// to `y` makes the product `1` modulo `2 * pw`, for odd `m`.
proof fn lemma_lift_flip(m: int, y: int, pw: int)
    requires
        m > 0,
        m % 2 == 1,
        y >= 0,
        pw >= 2,
        (m * y) % (pw * 2) == 1 + pw,
    ensures
        (m * (y + pw)) % (pw * 2) == 1,
{
    let t2 = pw * 2;
    let j = m / 2;
    lemma_fundamental_div_mod(m, 2);
    assert(m == 2 * j + 1);
    assert(m * (y + pw) == m * y + m * pw) by (nonlinear_arith);
    assert(m * pw == j * t2 + pw) by (nonlinear_arith)
        requires
            m == 2 * j + 1,
            t2 == pw * 2,
    ;
    lemma_mod_multiples_vanish(j, m * y + pw, t2);
    assert((m * (y + pw)) % t2 == (m * y + pw) % t2);
    lemma_add_mod_noop(m * y, pw, t2);
    lemma_small_mod(pw as nat, t2 as nat);
    assert(((1 + pw) + pw) % t2 == 1) by {
        lemma_mod_add_multiples_vanish(1, t2);
        lemma_small_mod(1, t2 as nat);
    }
}

/// Negating an inverse of `m` modulo `R` gives the constant `N'` with
/// `m * N' == R - 1 (mod R)`.
proof fn lemma_neg_inverse(m: int, y: int)
    requires
        m > 0,
        1 <= y < 0x10000000000000000,
        (m * y) % 0x10000000000000000 == 1,
    ensures
        (m * (0x10000000000000000 - y)) % 0x10000000000000000 == 0x10000000000000000 - 1,
{
    let rr: int = 0x10000000000000000;
    let q = (m * y) / rr;
    lemma_fundamental_div_mod(m * y, rr);
    assert(m * y == q * rr + 1);
    assert(m * (rr - y) == m * rr - m * y) by (nonlinear_arith);
    assert(m * (rr - y) == (m - q - 1) * rr + (rr - 1)) by (nonlinear_arith)
        requires
            m * rr - m * y == m * (rr - y),
            m * y == q * rr + 1,
    ;
    lemma_fundamental_div_mod_converse(m * (rr - y), rr, m - q - 1, rr - 1);
}

} // verus!
