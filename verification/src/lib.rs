//! Modular arithmetic over fixed-width unsigned integers.
//!
//! A [`ModularInt`] holds a value known to lie in `[0, modulus)` together with
//! its modulus, and offers the basic modular operations, exponentiation and
//! inversion. The companion modules provide division-free reduction contexts
//! ([`barrett::BarrettContext`], [`montgomery::MontgomeryContext`]) and a
//! portable carry-chain multiply layer ([`intrinsics`]).

pub mod barrett;
pub mod intrinsics;
pub mod montgomery;

pub use barrett::BarrettContext;
pub use barrett::BarrettReduction;
pub use montgomery::MontgomeryArithmetic;
pub use montgomery::MontgomeryContext;

use vstd::prelude::*;
use vstd::arithmetic::div_mod::{
    lemma_small_mod, lemma_mod_sub_multiples_vanish, lemma_mod_add_multiples_vanish,
    lemma_mul_mod_noop_left, lemma_mul_mod_noop_right, lemma_fundamental_div_mod,
    lemma_mod_self_0, lemma_mod_multiples_vanish, lemma_sub_mod_noop, lemma_mul_mod_noop_general,
};
use vstd::arithmetic::power::{
    pow, lemma_pow0, lemma_pow1, lemma_pow_adds, lemma_pow_multiplies, lemma_pow_mod_noop,
};
use vstd::arithmetic::mul::{
    lemma_mul_is_associative, lemma_mul_is_distributive_add, lemma_mul_is_distributive_sub,
};

verus! {

/// Errors reported by constructors and arithmetic operations.
///
/// Every variant reflects a violated caller-side precondition; nothing is
/// silently corrected.
#[derive(Clone, Copy, Debug, PartialEq, Eq, Structural)]
pub enum ModularError {
    /// A modulus of zero was supplied to a constructor.
    ZeroModulus,
    /// The two operands of a binary operation carry different moduli.
    ModulusMismatch,
    /// A modular inverse was requested for zero or for a value sharing a
    /// nontrivial factor with the modulus.
    NotInvertible,
    /// A Montgomery context was requested for an even modulus.
    EvenModulus,
}

/// Greatest common divisor of two natural numbers, by the Euclidean
/// recurrence; `gcd(a, 0) == a`.
pub open spec fn gcd(a: nat, b: nat) -> nat
    decreases b,
{
    if b == 0 {
        a
    } else {
        gcd(b, a % b)
    }
}

/// Relies on `num_integer::gcd`: the greatest common divisor of two unsigned
/// values, computed there by Stein's binary algorithm.
#[verifier::external_body]
fn gcd_u64(a: u64, b: u64) -> (r: u64)
    ensures
        r == gcd(a as nat, b as nat),
{
    num_integer::gcd(a, b)
}

/// Represents an integer modulo a given modulus.
#[derive(Debug, Clone, Copy, PartialEq, Eq, Structural)]
pub struct ModularInt<T> {
    value: T,
    modulus: T,
}

impl ModularInt<u64> {
    /// The stored value, in `[0, modulus)` for any well-formed instance.
    pub closed spec fn spec_value(self) -> u64 {
        self.value
    }

    /// The modulus this value is bound to.
    pub closed spec fn spec_modulus(self) -> u64 {
        self.modulus
    }

    /// Well-formedness: the modulus is positive and the value is reduced.
    pub open spec fn wf(self) -> bool {
        self.spec_modulus() > 0 && self.spec_value() < self.spec_modulus()
    }

    /// Returns the value of the modular integer.
    pub fn value(&self) -> (r: u64)
        ensures
            r == self.spec_value(),
    {
        self.value
    }

    /// Returns the modulus of the modular integer.
    pub fn modulus(&self) -> (r: u64)
        ensures
            r == self.spec_modulus(),
    {
        self.modulus
    }

    /// Creates a new `ModularInt`, reducing `value` into `[0, modulus)`.
    ///
    /// Fails with `ZeroModulus` if and only if `modulus` is zero.
    pub fn new(value: u64, modulus: u64) -> (r: Result<Self, ModularError>)
        ensures
            modulus == 0 ==> r == Err::<Self, ModularError>(ModularError::ZeroModulus),
            modulus != 0 ==> (r matches Ok(x) && x.wf() && x.spec_modulus() == modulus
                && x.spec_value() == value as int % modulus as int),
    {
        if modulus == 0 {
            Err(ModularError::ZeroModulus)
        } else {
            Ok(Self { value: value % modulus, modulus })
        }
    }

    /// Builds a residue from a value already known to be reduced.
    pub(crate) fn from_reduced(value: u64, modulus: u64) -> (r: Self)
        requires
            modulus > 0,
            value < modulus,
        ensures
            r.wf(),
            r.spec_value() == value,
            r.spec_modulus() == modulus,
    {
        Self { value, modulus }
    }

    /// Performs modular addition.
    ///
    /// Fails with `ModulusMismatch` if and only if the operands carry
    /// different moduli. The raw sum never wraps silently: when it would
    /// reach the modulus, the modulus is subtracted instead.
    pub fn add_mod(&self, other: &Self) -> (r: Result<Self, ModularError>)
        requires
            self.wf(),
            other.wf(),
        ensures
            self.spec_modulus() != other.spec_modulus() ==> r == Err::<Self, ModularError>(
                ModularError::ModulusMismatch,
            ),
            self.spec_modulus() == other.spec_modulus() ==> (r matches Ok(c) && c.wf()
                && c.spec_modulus() == self.spec_modulus() && c.spec_value() == (
            self.spec_value() + other.spec_value()) % (self.spec_modulus() as int)),
    {
        if self.modulus != other.modulus {
            return Err(ModularError::ModulusMismatch);
        }
        let m = self.modulus;
        // self.value + other.value >= m exactly when self.value >= m - other.value;
        // both branches stay within u64.
        let gap = m - other.value;
        let v = if self.value >= gap {
            proof {
                lemma_mod_sub_multiples_vanish(self.spec_value() + other.spec_value(), m as int);
                lemma_small_mod((self.spec_value() + other.spec_value() - m) as nat, m as nat);
            }
            self.value - gap
        } else {
            proof {
                lemma_small_mod((self.spec_value() + other.spec_value()) as nat, m as nat);
            }
            self.value + other.value
        };
        Ok(Self { value: v, modulus: m })
    }

    /// Performs modular subtraction.
    ///
    /// Fails with `ModulusMismatch` if and only if the operands carry
    /// different moduli. When `self.value < other.value` the modulus is added
    /// before subtracting, so the result stays in range with no underflow.
    pub fn sub_mod(&self, other: &Self) -> (r: Result<Self, ModularError>)
        requires
            self.wf(),
            other.wf(),
        ensures
            self.spec_modulus() != other.spec_modulus() ==> r == Err::<Self, ModularError>(
                ModularError::ModulusMismatch,
            ),
            self.spec_modulus() == other.spec_modulus() ==> (r matches Ok(c) && c.wf()
                && c.spec_modulus() == self.spec_modulus() && c.spec_value() == (
            self.spec_value() - other.spec_value()) % (self.spec_modulus() as int)),
    {
        if self.modulus != other.modulus {
            return Err(ModularError::ModulusMismatch);
        }
        let m = self.modulus;
        let v = if self.value >= other.value {
            proof {
                lemma_small_mod((self.spec_value() - other.spec_value()) as nat, m as nat);
            }
            self.value - other.value
        } else {
            proof {
                lemma_mod_add_multiples_vanish(self.spec_value() - other.spec_value(), m as int);
                lemma_small_mod((self.spec_value() - other.spec_value() + m) as nat, m as nat);
            }
            self.value + (m - other.value)
        };
        Ok(Self { value: v, modulus: m })
    }

    /// Performs modular multiplication via the full double-width product.
    ///
    /// Fails with `ModulusMismatch` if and only if the operands carry
    /// different moduli.
    pub fn mul_mod(&self, other: &Self) -> (r: Result<Self, ModularError>)
        requires
            self.wf(),
            other.wf(),
        ensures
            self.spec_modulus() != other.spec_modulus() ==> r == Err::<Self, ModularError>(
                ModularError::ModulusMismatch,
            ),
            self.spec_modulus() == other.spec_modulus() ==> (r matches Ok(c) && c.wf()
                && c.spec_modulus() == self.spec_modulus() && c.spec_value() == (
            self.spec_value() * other.spec_value()) % (self.spec_modulus() as int)),
    {
        if self.modulus != other.modulus {
            return Err(ModularError::ModulusMismatch);
        }
        let v = mul_u64_mod(self.value, other.value, self.modulus);
        Ok(Self { value: v, modulus: self.modulus })
    }

    /// Computes the modular exponentiation `self^exponent mod modulus`.
    ///
    /// Examines the exponent bits from the least significant upward, squaring
    /// the base each round and multiplying into the accumulator when the
    /// current bit is set, so the loop takes `O(log exponent)`
    /// multiplications. A zero exponent yields the multiplicative identity
    /// `1 mod modulus` for every base, including zero.
    pub fn pow_mod(&self, exponent: u64) -> (r: Self)
        requires
            self.wf(),
        ensures
            r.wf(),
            r.spec_modulus() == self.spec_modulus(),
            r.spec_value() == pow(self.spec_value() as int, exponent as nat) % (
            self.spec_modulus() as int),
    {
        let ghost goal = pow(self.spec_value() as int, exponent as nat) % (
        self.spec_modulus() as int);
        let m = self.modulus;
        let mut result: u64 = 1 % m;
        let mut base: u64 = self.value;
        let mut exp: u64 = exponent;
        proof {
            lemma_mul_mod_noop_left(1, pow(base as int, exp as nat), m as int);
        }
        while exp > 0
            invariant
                m == self.spec_modulus(),
                m > 0,
                result < m,
                base < m,
                goal == pow(self.spec_value() as int, exponent as nat) % (m as int),
                (result as int * pow(base as int, exp as nat)) % (m as int) == goal,
            decreases exp,
        {
            let ghost result0 = result as int;
            let ghost base0 = base as int;
            let ghost exp0 = exp as nat;
            if exp % 2 == 1 {
                result = mul_u64_mod(result, base, m);
                proof {
                    lemma_pow_adds(base0, 1, (exp0 - 1) as nat);
                    lemma_pow1(base0);
                    assert(pow(base0, exp0) == base0 * pow(base0, (exp0 - 1) as nat));
                    lemma_mul_mod_noop_left(
                        result0 * base0,
                        pow(base0, (exp0 - 1) as nat),
                        m as int,
                    );
                    lemma_mul_is_associative(result0, base0, pow(base0, (exp0 - 1) as nat));
                    lemma_mul_is_associative(base0, result0, pow(base0, (exp0 - 1) as nat));
                    assert(result0 * base0 * pow(base0, (exp0 - 1) as nat) == result0 * (base0
                        * pow(base0, (exp0 - 1) as nat))) by (nonlinear_arith);
                }
            }
            // The exponent already consumed leaves an even remainder.
            let ghost even0 = (2 * (exp0 / 2)) as nat;
            proof {
                assert((result as int * pow(base0, even0)) % (m as int) == goal);
            }
            base = mul_u64_mod(base, base, m);
            exp = exp / 2;
            proof {
                lemma_pow_multiplies(base0, 2, exp as nat);
                lemma_pow_adds(base0, 1, 1);
                lemma_pow1(base0);
                assert(pow(base0, 2) == base0 * pow(base0, 1));
                lemma_pow_mod_noop(base0 * base0, exp as nat, m as int);
                lemma_mul_mod_noop_right(result as int, pow(base0, even0), m as int);
                lemma_mul_mod_noop_right(result as int, pow(base as int, exp as nat), m as int);
                assert(pow(base as int, exp as nat) % (m as int) == pow(base0, even0) % (
                m as int));
            }
        }
        proof {
            lemma_pow0(base as int);
            lemma_small_mod(result as nat, m as nat);
        }
        Self { value: result, modulus: m }
    }

    /// Computes the modular inverse `self^(-1) mod modulus` by the extended
    /// Euclidean algorithm, keeping the Bezout coefficient reduced into
    /// `[0, modulus)` at every step.
    ///
    /// Fails with `NotInvertible` if and only if the value is zero or shares
    /// a nontrivial common factor with the modulus; otherwise the result `c`
    /// satisfies `self.value * c.value == 1 (mod modulus)`.
    pub fn inverse_mod(&self) -> (r: Result<Self, ModularError>)
        requires
            self.wf(),
        ensures
            (self.spec_value() == 0 || gcd(self.spec_value() as nat, self.spec_modulus() as nat)
                != 1) ==> r == Err::<Self, ModularError>(ModularError::NotInvertible),
            (self.spec_value() != 0 && gcd(self.spec_value() as nat, self.spec_modulus() as nat)
                == 1) ==> (r matches Ok(c) && c.wf() && c.spec_modulus() == self.spec_modulus()
                && (self.spec_value() * c.spec_value()) % (self.spec_modulus() as int) == 1),
    {
        if self.value == 0 {
            return Err(ModularError::NotInvertible);
        }
        let g = gcd_u64(self.value, self.modulus);
        if g != 1 {
            return Err(ModularError::NotInvertible);
        }
        let a = self.value;
        let m = self.modulus;
        let mut old_r: u64 = a;
        let mut r: u64 = m;
        let mut old_s: u64 = 1;
        let mut s: u64 = 0;
        proof {
            lemma_mod_self_0(m as int);
            lemma_small_mod(0, m as nat);
            lemma_small_mod(a as nat, m as nat);
        }
        while r != 0
            invariant
                2 <= m,
                1 <= a < m,
                old_s < m,
                s < m,
                old_r <= m,
                r <= m,
                gcd(old_r as nat, r as nat) == gcd(a as nat, m as nat),
                (a as int * old_s as int) % (m as int) == (old_r as int) % (m as int),
                (a as int * s as int) % (m as int) == (r as int) % (m as int),
            decreases r,
        {
            let q: u64 = old_r / r;
            let new_r: u64 = old_r % r;
            proof {
                vstd::arithmetic::mul::lemma_mul_upper_bound(
                    q as int,
                    u64::MAX as int,
                    s as int,
                    u64::MAX as int,
                );
            }
            let qs_full: u128 = q as u128 * s as u128;
            let qs: u64 = (qs_full % (m as u128)) as u64;
            let new_s: u64 = if old_s >= qs {
                old_s - qs
            } else {
                old_s + (m - qs)
            };
            proof {
                let aa = a as int;
                let mm = m as int;
                let qq = q as int;
                let ss = s as int;
                let oss = old_s as int;
                let rr = r as int;
                let orr = old_r as int;
                let nrr = new_r as int;
                let qss = qs as int;
                let nss = new_s as int;
                // The Euclidean step preserves the gcd.
                assert(gcd(old_r as nat, r as nat) == gcd(r as nat, new_r as nat));
                // new_r == old_r - q * r.
                lemma_fundamental_div_mod(orr, rr);
                // qs == (q * s) % m.
                assert(qss == (qq * ss) % mm);
                // a * new_s == a * old_s - a * qs, up to a multiple of m.
                lemma_mul_is_distributive_sub(aa, oss, qss);
                lemma_mul_is_distributive_add(aa, oss - qss, mm);
                lemma_mod_multiples_vanish(aa, aa * oss - aa * qss, mm);
                assert((aa * nss) % mm == (aa * oss - aa * qss) % mm);
                // a * qs == q * r, up to a multiple of m.
                lemma_mul_mod_noop_right(aa, qq * ss, mm);
                assert(aa * (qq * ss) == qq * (aa * ss)) by (nonlinear_arith);
                lemma_mul_mod_noop_right(qq, aa * ss, mm);
                lemma_mul_mod_noop_right(qq, rr, mm);
                assert((aa * qss) % mm == (qq * rr) % mm);
                // Subtract the two congruences.
                lemma_sub_mod_noop(aa * oss, aa * qss, mm);
                lemma_sub_mod_noop(orr, qq * rr, mm);
                assert((aa * oss - aa * qss) % mm == (orr - qq * rr) % mm);
                assert((aa * nss) % mm == nrr % mm);
            }
            old_r = r;
            r = new_r;
            old_s = s;
            s = new_s;
        }
        proof {
            assert(gcd(old_r as nat, 0) == old_r as nat);
            lemma_small_mod(1, m as nat);
            lemma_small_mod(old_s as nat, m as nat);
        }
        Ok(Self { value: old_s, modulus: m })
    }
}

impl ModularInt<u32> {
    /// The stored value, in `[0, modulus)` for any well-formed instance.
    pub closed spec fn spec_value(self) -> u32 {
        self.value
    }

    /// The modulus this value is bound to.
    pub closed spec fn spec_modulus(self) -> u32 {
        self.modulus
    }

    /// Well-formedness: the modulus is positive and the value is reduced.
    pub open spec fn wf(self) -> bool {
        self.spec_modulus() > 0 && self.spec_value() < self.spec_modulus()
    }

    /// Returns the value of the modular integer.
    pub fn value(&self) -> (r: u32)
        ensures
            r == self.spec_value(),
    {
        self.value
    }

    /// Returns the modulus of the modular integer.
    pub fn modulus(&self) -> (r: u32)
        ensures
            r == self.spec_modulus(),
    {
        self.modulus
    }

    /// Creates a new `ModularInt`, reducing `value` into `[0, modulus)`.
    ///
    /// Fails with `ZeroModulus` if and only if `modulus` is zero.
    pub fn new(value: u32, modulus: u32) -> (r: Result<Self, ModularError>)
        ensures
            modulus == 0 ==> r == Err::<Self, ModularError>(ModularError::ZeroModulus),
            modulus != 0 ==> (r matches Ok(x) && x.wf() && x.spec_modulus() == modulus
                && x.spec_value() == value as int % modulus as int),
    {
        if modulus == 0 {
            Err(ModularError::ZeroModulus)
        } else {
            Ok(Self { value: value % modulus, modulus })
        }
    }

    /// Performs modular addition; see the 64-bit variant for the contract.
    pub fn add_mod(&self, other: &Self) -> (r: Result<Self, ModularError>)
        requires
            self.wf(),
            other.wf(),
        ensures
            self.spec_modulus() != other.spec_modulus() ==> r == Err::<Self, ModularError>(
                ModularError::ModulusMismatch,
            ),
            self.spec_modulus() == other.spec_modulus() ==> (r matches Ok(c) && c.wf()
                && c.spec_modulus() == self.spec_modulus() && c.spec_value() == (
            self.spec_value() + other.spec_value()) % (self.spec_modulus() as int)),
    {
        if self.modulus != other.modulus {
            return Err(ModularError::ModulusMismatch);
        }
        let m = self.modulus;
        let gap = m - other.value;
        let v = if self.value >= gap {
            proof {
                lemma_mod_sub_multiples_vanish(self.spec_value() + other.spec_value(), m as int);
                lemma_small_mod((self.spec_value() + other.spec_value() - m) as nat, m as nat);
            }
            self.value - gap
        } else {
            proof {
                lemma_small_mod((self.spec_value() + other.spec_value()) as nat, m as nat);
            }
            self.value + other.value
        };
        Ok(Self { value: v, modulus: m })
    }

    /// Performs modular subtraction; see the 64-bit variant for the contract.
    pub fn sub_mod(&self, other: &Self) -> (r: Result<Self, ModularError>)
        requires
            self.wf(),
            other.wf(),
        ensures
            self.spec_modulus() != other.spec_modulus() ==> r == Err::<Self, ModularError>(
                ModularError::ModulusMismatch,
            ),
            self.spec_modulus() == other.spec_modulus() ==> (r matches Ok(c) && c.wf()
                && c.spec_modulus() == self.spec_modulus() && c.spec_value() == (
            self.spec_value() - other.spec_value()) % (self.spec_modulus() as int)),
    {
        if self.modulus != other.modulus {
            return Err(ModularError::ModulusMismatch);
        }
        let m = self.modulus;
        let v = if self.value >= other.value {
            proof {
                lemma_small_mod((self.spec_value() - other.spec_value()) as nat, m as nat);
            }
            self.value - other.value
        } else {
            proof {
                lemma_mod_add_multiples_vanish(self.spec_value() - other.spec_value(), m as int);
                lemma_small_mod((self.spec_value() - other.spec_value() + m) as nat, m as nat);
            }
            self.value + (m - other.value)
        };
        Ok(Self { value: v, modulus: m })
    }

    /// Performs modular multiplication via the full double-width product;
    /// see the 64-bit variant for the contract.
    pub fn mul_mod(&self, other: &Self) -> (r: Result<Self, ModularError>)
        requires
            self.wf(),
            other.wf(),
        ensures
            self.spec_modulus() != other.spec_modulus() ==> r == Err::<Self, ModularError>(
                ModularError::ModulusMismatch,
            ),
            self.spec_modulus() == other.spec_modulus() ==> (r matches Ok(c) && c.wf()
                && c.spec_modulus() == self.spec_modulus() && c.spec_value() == (
            self.spec_value() * other.spec_value()) % (self.spec_modulus() as int)),
    {
        if self.modulus != other.modulus {
            return Err(ModularError::ModulusMismatch);
        }
        proof {
            vstd::arithmetic::mul::lemma_mul_upper_bound(
                self.spec_value() as int,
                u32::MAX as int,
                other.spec_value() as int,
                u32::MAX as int,
            );
        }
        let prod: u64 = self.value as u64 * other.value as u64;
        let v: u64 = prod % (self.modulus as u64);
        Ok(Self { value: v as u32, modulus: self.modulus })
    }
}

/// Law: a zero exponent yields the multiplicative identity for every base
/// and every positive modulus.
pub proof fn lemma_pow_mod_zero(a: int, m: int)
    requires
        m > 0,
    ensures
        pow(a, 0nat) % m == 1int % m,
{
    lemma_pow0(a);
}

/// Law: exponents add under a fixed modulus. The power of a sum of exponents,
/// reduced, equals the reduced product of the two separately reduced powers,
/// which is exactly how `pow_mod` results compose through `mul_mod`.
pub proof fn lemma_pow_mod_adds(a: int, e1: nat, e2: nat, m: int)
    requires
        m > 0,
    ensures
        pow(a, e1 + e2) % m == ((pow(a, e1) % m) * (pow(a, e2) % m)) % m,
{
    lemma_pow_adds(a, e1, e2);
    lemma_mul_mod_noop_general(pow(a, e1), pow(a, e2), m);
}

/// Multiplies two `u64` values and reduces the double-width product, so that
/// operands near `modulus - 1` never overflow the native width.
fn mul_u64_mod(a: u64, b: u64, modulus: u64) -> (r: u64)
    requires
        modulus > 0,
    ensures
        r == (a * b) % (modulus as int),
        r < modulus,
{
    proof {
        vstd::arithmetic::mul::lemma_mul_upper_bound(
            a as int,
            u64::MAX as int,
            b as int,
            u64::MAX as int,
        );
    }
    let prod: u128 = a as u128 * b as u128;
    let v: u128 = prod % (modulus as u128);
    v as u64
}

} // verus!
