//! Barrett reduction.
//!
//! Barrett reduction computes `value mod modulus` without dividing by the
//! modulus on the hot path. A [`BarrettContext`] precomputes
//! `mu = floor(2^128 / modulus)`, a fixed-point approximation of the
//! reciprocal, held as two 64-bit halves. A reduction estimates the quotient
//! by multiplying with `mu` and shifting, subtracts the estimated multiple
//! of the modulus, and finishes with at most one corrective subtraction:
//! the estimate is never off by more than one unit.

use vstd::prelude::*;
use vstd::arithmetic::div_mod::{
    lemma_small_mod, lemma_fundamental_div_mod, lemma_fundamental_div_mod_converse,
    lemma_mod_multiples_basic, lemma_mod_sub_multiples_vanish, lemma_div_pos_is_pos,
    lemma_div_is_ordered, lemma_div_is_ordered_by_denominator, lemma_div_multiples_vanish,
    lemma_div_denominator,
};
use vstd::arithmetic::mul::{
    lemma_mul_upper_bound, lemma_mul_nonnegative, lemma_mul_inequality,
    lemma_mul_is_distributive_sub_other_way,
};

use crate::intrinsics::mul_add_carry;
use crate::{ModularError, ModularInt};

verus! {

/// Barrett context for efficient modular reduction.
///
/// Stores the modulus together with the reciprocal approximation
/// `mu = floor(2^128 / modulus)`, split into a high and a low 64-bit half.
/// The context is bound to exactly one modulus for its lifetime and is
/// immutable after construction.
#[derive(Debug, Clone)]
pub struct BarrettContext<T> {
    modulus: T,
    mu_hi: T,
    mu_lo: T,
}

impl BarrettContext<u64> {
    /// The modulus this context was built for.
    pub closed spec fn spec_modulus(self) -> u64 {
        self.modulus
    }

    /// The reciprocal approximation `mu`, as a single mathematical integer.
    pub closed spec fn spec_mu(self) -> int {
        self.mu_hi as int * 0x10000000000000000 + self.mu_lo as int
    }

    /// Well-formedness: the modulus is positive and `mu` is exactly
    /// `floor(2^128 / modulus)`, except for the degenerate modulus one,
    /// where the reciprocal would not fit and zero is stored instead.
    pub open spec fn wf(self) -> bool {
        &&& self.spec_modulus() > 0
        &&& self.spec_modulus() == 1 ==> self.spec_mu() == 0
        &&& self.spec_modulus() >= 2 ==> self.spec_mu() == 0x100000000000000000000000000000000int
            / (self.spec_modulus() as int)
    }

    /// Returns the modulus used in this Barrett context.
    pub fn modulus(&self) -> (r: u64)
        ensures
            r == self.spec_modulus(),
    {
        self.modulus
    }

    /// Creates a new Barrett context for a `u64` modulus, precomputing the
    /// reciprocal approximation `mu = floor(2^128 / modulus)`.
    ///
    /// Fails with `ZeroModulus` if and only if the modulus is zero. The
    /// modulus one is special-cased, since its reciprocal would degenerate.
    pub fn new(modulus: u64) -> (r: Result<Self, ModularError>)
        ensures
            modulus == 0 ==> r == Err::<Self, ModularError>(ModularError::ZeroModulus),
            modulus != 0 ==> (r matches Ok(c) && c.wf() && c.spec_modulus() == modulus),
    {
        if modulus == 0 {
            return Err(ModularError::ZeroModulus);
        }
        if modulus == 1 {
            return Ok(Self { modulus, mu_hi: 0, mu_lo: 0 });
        }
        let big = 0x1_0000_0000_0000_0000u128;
        let q: u128 = u128::MAX / (modulus as u128);
        let rem: u128 = u128::MAX % (modulus as u128);
        proof {
            lemma_div_is_ordered_by_denominator(u128::MAX as int, 2, modulus as int);
        }
        // 2^128 == modulus * q + rem + 1, so the floor of 2^128 / modulus is
        // q + 1 exactly when the modulus divides 2^128.
        let mu: u128 = if rem == (modulus - 1) as u128 {
            q + 1
        } else {
            q
        };
        proof {
            let mm = modulus as int;
            let big2 = 0x100000000000000000000000000000000int;
            lemma_fundamental_div_mod(u128::MAX as int, mm);
            if rem == (modulus - 1) as u128 {
                assert((q as int + 1) * mm == q as int * mm + mm) by (nonlinear_arith);
                assert(q as int * mm == mm * (q as int)) by (nonlinear_arith);
                lemma_fundamental_div_mod_converse(big2, mm, q as int + 1, 0);
            } else {
                assert(q as int * mm == mm * (q as int)) by (nonlinear_arith);
                lemma_fundamental_div_mod_converse(big2, mm, q as int, rem as int + 1);
            }
            assert(mu as int == big2 / mm);
            lemma_div_is_ordered_by_denominator(big2, 2, mm);
        }
        let mu_hi: u64 = (mu / big) as u64;
        let mu_lo: u64 = (mu % big) as u64;
        proof {
            lemma_fundamental_div_mod(mu as int, 0x10000000000000000);
        }
        Ok(Self { modulus, mu_hi, mu_lo })
    }

    /// Performs Barrett reduction of a single-width value, returning
    /// `value mod modulus` with at most one corrective subtraction after the
    /// quotient estimate.
    pub fn reduce_u64(&self, value: u64) -> (r: u64)
        requires
            self.wf(),
        ensures
            r as int == value as int % (self.spec_modulus() as int),
    {
        let m = self.modulus;
        if m == 1 {
            proof {
                lemma_mod_multiples_basic(value as int, 1);
            }
            return 0;
        }
        // Fast path: the value is already reduced.
        if value < m {
            proof {
                lemma_small_mod(value as nat, m as nat);
            }
            return value;
        }
        // Fast path: a single subtraction suffices.
        let d = value - m;
        if d < m {
            proof {
                lemma_mod_sub_multiples_vanish(value as int, m as int);
                lemma_small_mod(d as nat, m as nat);
            }
            return d;
        }
        // General path: estimate the quotient with the high half of mu,
        // which is floor(2^64 / modulus).
        let big = 0x1_0000_0000_0000_0000u128;
        proof {
            lemma_mul_upper_bound(value as int, u64::MAX as int, self.mu_hi as int, u64::MAX as int);
        }
        let q: u64 = ((value as u128 * self.mu_hi as u128) / big) as u64;
        proof {
            let mm = m as int;
            let vv = value as int;
            let qq = q as int;
            let big1 = 0x10000000000000000int;
            let big2 = 0x100000000000000000000000000000000int;
            // The high half of mu is floor(2^64 / m).
            lemma_fundamental_div_mod_converse(
                self.spec_mu(),
                big1,
                self.mu_hi as int,
                self.mu_lo as int,
            );
            lemma_div_denominator(big2, mm, big1);
            lemma_div_denominator(big2, big1, mm);
            assert(big1 * mm == mm * big1);
            assert(self.mu_hi as int == big1 / mm);
            lemma_barrett_estimate(vv, mm, big1, big1 / mm, qq);
            // The estimated multiple stays at or below the value, and
            // within one modulus of it.
            lemma_fundamental_div_mod(vv, mm);
            lemma_mul_inequality(qq, vv / mm, mm);
            lemma_mul_inequality(vv / mm - 1, qq, mm);
            lemma_mul_is_distributive_sub_other_way(mm, vv / mm, 1);
            assert((vv / mm) * mm == mm * (vv / mm)) by (nonlinear_arith);
        }
        let qm: u64 = q * m;
        let mut r0: u64 = value - qm;
        proof {
            lemma_mod_sub_multiples_vanish_repeat(value as int, q as int, m as int);
        }
        // Final correction: the estimate is off by at most one.
        if r0 >= m {
            r0 = r0 - m;
            proof {
                lemma_mod_sub_multiples_vanish(value as int - q as int * m as int, m as int);
            }
        }
        proof {
            lemma_small_mod(r0 as nat, m as nat);
        }
        r0
    }

    /// Performs efficient modular multiplication using Barrett reduction:
    /// the full double-width product is formed and then reduced with the
    /// quotient-estimate-and-correct procedure over its high and low halves.
    pub fn mul_mod_u64(&self, a: u64, b: u64) -> (r: u64)
        requires
            self.wf(),
        ensures
            r as int == (a as int * b as int) % (self.spec_modulus() as int),
    {
        let m = self.modulus;
        if m == 1 {
            proof {
                lemma_mul_nonnegative(a as int, b as int);
                lemma_mod_multiples_basic(a as int * b as int, 1);
            }
            return 0;
        }
        proof {
            lemma_mul_upper_bound(a as int, u64::MAX as int, b as int, u64::MAX as int);
        }
        let product: u128 = a as u128 * b as u128;
        if product < m as u128 {
            proof {
                lemma_small_mod((a as int * b as int) as nat, m as nat);
            }
            return product as u64;
        }
        let big = 0x1_0000_0000_0000_0000u128;
        let p_hi: u64 = (product / big) as u64;
        let p_lo: u64 = (product % big) as u64;
        // Schoolbook 128 x 128 multiplication of the product with mu; only
        // the top half of the 256-bit result is needed, but every carry is
        // propagated exactly.
        let (c1, r0) = mul_add_carry(p_lo, self.mu_lo, 0, 0);
        let (c2, l1) = mul_add_carry(p_hi, self.mu_lo, c1, 0);
        let (c3, r1) = mul_add_carry(p_lo, self.mu_hi, l1, 0);
        let (r3, r2) = mul_add_carry(p_hi, self.mu_hi, c2, c3);
        let q: u128 = (r3 as u128) * big + (r2 as u128);
        proof {
            let mm = m as int;
            let pp = product as int;
            let qq = q as int;
            let big1 = 0x10000000000000000int;
            let big2 = 0x100000000000000000000000000000000int;
            let mu = self.spec_mu();
            let ph = p_hi as int;
            let pl = p_lo as int;
            let mh = self.mu_hi as int;
            let ml = self.mu_lo as int;
            lemma_fundamental_div_mod(pp, big1);
            assert(pp == ph * big1 + pl);
            // Expand the double-width product of the value with mu.
            assert(pp * mu == (ph * mh) * big2 + (ph * ml) * big1 + (pl * mh) * big1 + (pl
                * ml)) by (nonlinear_arith)
                requires
                    pp == ph * big1 + pl,
                    mu == mh * big1 + ml,
                    big1 == 0x10000000000000000int,
                    big2 == 0x100000000000000000000000000000000int,
            ;
            // The four carry-exact limb products reconstruct that value, so
            // the two top limbs are the shifted quotient estimate.
            assert(pp * mu == qq * big2 + ((r1 as int) * big1 + r0 as int));
            lemma_mul_nonnegative(pp, mu);
            lemma_fundamental_div_mod_converse(
                pp * mu,
                big2,
                qq,
                (r1 as int) * big1 + r0 as int,
            );
            assert(qq == (pp * mu) / big2);
            lemma_barrett_estimate(pp, mm, big2, mu, qq);
            // Bounds: the estimated multiple stays at or below the product,
            // and within one modulus of it.
            lemma_fundamental_div_mod(pp, mm);
            lemma_mul_inequality(qq, pp / mm, mm);
            lemma_mul_inequality(pp / mm - 1, qq, mm);
            lemma_mul_is_distributive_sub_other_way(mm, pp / mm, 1);
            assert((pp / mm) * mm == mm * (pp / mm)) by (nonlinear_arith);
            lemma_mod_sub_multiples_vanish_repeat(pp, qq, mm);
        }
        let qm: u128 = q * (m as u128);
        let mut r0w: u128 = product - qm;
        // Final correction: the estimate is off by at most one.
        if r0w >= m as u128 {
            r0w = r0w - m as u128;
            proof {
                lemma_mod_sub_multiples_vanish(
                    product as int - q as int * m as int,
                    m as int,
                );
            }
        }
        proof {
            lemma_small_mod(r0w as nat, m as nat);
        }
        r0w as u64
    }
}

/// Barrett-reduction operations for residue values.
///
/// The spec functions expose the view a residue presents to these
/// operations; `ModularInt<u64>` implements them with its stored value and
/// modulus.
pub trait BarrettReduction where Self: Sized {
    /// The operand is well formed.
    spec fn barrett_wf(&self) -> bool;

    /// The operand's stored value.
    spec fn barrett_value(&self) -> u64;

    /// The operand's modulus.
    spec fn barrett_modulus(&self) -> u64;

    /// Reduces the residue through the context.
    ///
    /// Fails with `ModulusMismatch` if and only if the operand and the
    /// context disagree on the modulus.
    fn barrett_reduce(&self, ctx: &BarrettContext<u64>) -> (r: Result<
        ModularInt<u64>,
        ModularError,
    >)
        requires
            self.barrett_wf(),
            ctx.wf(),
        ensures
            self.barrett_modulus() != ctx.spec_modulus() ==> r == Err::<
                ModularInt<u64>,
                ModularError,
            >(ModularError::ModulusMismatch),
            self.barrett_modulus() == ctx.spec_modulus() ==> (r matches Ok(c) && c.wf()
                && c.spec_modulus() == ctx.spec_modulus() && c.spec_value() as int == (
            self.barrett_value() as int) % (ctx.spec_modulus() as int)),
    ;

    /// Multiplies two residues through the context's Barrett reduction.
    ///
    /// Fails with `ModulusMismatch` if and only if either operand and the
    /// context disagree on the modulus.
    fn barrett_mul(&self, other: &ModularInt<u64>, ctx: &BarrettContext<u64>) -> (r: Result<
        ModularInt<u64>,
        ModularError,
    >)
        requires
            self.barrett_wf(),
            other.wf(),
            ctx.wf(),
        ensures
            (self.barrett_modulus() != ctx.spec_modulus() || other.spec_modulus()
                != ctx.spec_modulus()) ==> r == Err::<ModularInt<u64>, ModularError>(
                ModularError::ModulusMismatch,
            ),
            (self.barrett_modulus() == ctx.spec_modulus() && other.spec_modulus()
                == ctx.spec_modulus()) ==> (r matches Ok(c) && c.wf() && c.spec_modulus()
                == ctx.spec_modulus() && c.spec_value() as int == (self.barrett_value() as int
                * other.spec_value() as int) % (ctx.spec_modulus() as int)),
    ;
}

impl BarrettReduction for ModularInt<u64> {
    open spec fn barrett_wf(&self) -> bool {
        self.wf()
    }

    open spec fn barrett_value(&self) -> u64 {
        self.spec_value()
    }

    open spec fn barrett_modulus(&self) -> u64 {
        self.spec_modulus()
    }

    fn barrett_reduce(&self, ctx: &BarrettContext<u64>) -> (r: Result<
        ModularInt<u64>,
        ModularError,
    >) {
        if self.modulus() != ctx.modulus() {
            return Err(ModularError::ModulusMismatch);
        }
        let v = ctx.reduce_u64(self.value());
        Ok(ModularInt::from_reduced(v, ctx.modulus()))
    }

    fn barrett_mul(&self, other: &ModularInt<u64>, ctx: &BarrettContext<u64>) -> (r: Result<
        ModularInt<u64>,
        ModularError,
    >) {
        if self.modulus() != ctx.modulus() || other.modulus() != ctx.modulus() {
            return Err(ModularError::ModulusMismatch);
        }
        let v = ctx.mul_mod_u64(self.value(), other.value());
        Ok(ModularInt::from_reduced(v, ctx.modulus()))
    }
}

/// Subtracting a multiple of the modulus does not change the residue.
proof fn lemma_mod_sub_multiples_vanish_repeat(v: int, q: int, m: int)
    requires
        m > 0,
        q >= 0,
    ensures
        (v - q * m) % m == v % m,
    decreases q,
{
    if q > 0 {
        lemma_mod_sub_multiples_vanish_repeat(v - m, q - 1, m);
        lemma_mod_sub_multiples_vanish(v, m);
        assert(v - q * m == (v - m) - (q - 1) * m) by (nonlinear_arith);
    }
}

/// The Barrett quotient estimate is exact or one short: with
/// `mu == floor(B / m)`, a value `p` below `B`, and the estimate
/// `q == floor(p * mu / B)`, the true quotient `floor(p / m)` is `q` or
/// `q + 1`.
proof fn lemma_barrett_estimate(p: int, m: int, b: int, mu: int, q: int)
    requires
        m >= 2,
        b >= 2,
        0 <= p < b,
        mu == b / m,
        q == (p * mu) / b,
    ensures
        q <= p / m,
        p / m <= q + 1,
{
    let rho = b % m;
    let qt = p / m;
    let r2 = p % m;
    lemma_fundamental_div_mod(b, m);
    lemma_fundamental_div_mod(p, m);
    lemma_div_pos_is_pos(b, m);
    lemma_mul_nonnegative(p, mu);
    lemma_fundamental_div_mod(p * mu, b);
    let r1 = (p * mu) % b;
    // Lower estimate: q * m <= p.
    assert(q * m <= p) by (nonlinear_arith)
        requires
            b == m * mu + rho,
            0 <= rho < m,
            p * mu == b * q + r1,
            0 <= r1 < b,
            0 <= p < b,
            m >= 2,
            b >= 2,
            mu >= 0,
    ;
    lemma_div_is_ordered(q * m, p, m);
    lemma_div_multiples_vanish(q, m);
    // Upper estimate: the scaled product reaches (qt - 1) * b.
    assert((qt - 1) * b <= p * mu) by (nonlinear_arith)
        requires
            b == m * mu + rho,
            0 <= rho < m,
            p == m * qt + r2,
            0 <= r2 < m,
            0 <= p < b,
            m >= 2,
            b >= 2,
            mu >= 0,
    ;
    lemma_div_is_ordered((qt - 1) * b, p * mu, b);
    lemma_div_multiples_vanish(qt - 1, b);
}

} // verus!
