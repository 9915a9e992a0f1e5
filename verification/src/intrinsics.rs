//! Portable carry-chain arithmetic for accelerated modular multiplication.
//!
//! The functions here are the portable reference implementations of the
//! wide-multiply primitives. An accelerated code path built on CPU-specific
//! instructions is required to produce bit-identical results for every input,
//! which is why each function carries an exact contract: any implementation
//! meeting the same contract is interchangeable with these.

use vstd::prelude::*;
use vstd::arithmetic::div_mod::lemma_fundamental_div_mod;
use vstd::arithmetic::mul::lemma_mul_upper_bound;

verus! {

/// Performs a multiply-add operation with carry.
///
/// Returns `a * b + c + carry` as a tuple `(high, low)` where `high` holds
/// the high 64 bits and `low` the low 64 bits of the result. The widest
/// possible operands still fit the double width exactly, so no input can
/// overflow.
pub fn mul_add_carry(a: u64, b: u64, c: u64, carry: u64) -> (r: (u64, u64))
    ensures
        r.0 as int * 0x10000000000000000 + r.1 as int == a as int * b as int + c + carry,
{
    proof {
        lemma_mul_upper_bound(a as int, u64::MAX as int, b as int, u64::MAX as int);
    }
    let wide: u128 = a as u128 * b as u128 + c as u128 + carry as u128;
    let hi: u128 = wide / 0x1_0000_0000_0000_0000u128;
    let lo: u128 = wide % 0x1_0000_0000_0000_0000u128;
    proof {
        lemma_fundamental_div_mod(wide as int, 0x10000000000000000);
    }
    (hi as u64, lo as u64)
}

/// Carryless (polynomial over GF(2)) product of the bits `[0, n)` of `b`
/// with `a`, accumulated by exclusive or.
pub open spec fn clmul(a: u64, b: u64, n: nat) -> u128
    decreases n,
{
    if n == 0 {
        0u128
    } else if (b >> ((n - 1) as u64)) & 1u64 == 1u64 {
        clmul(a, b, (n - 1) as nat) ^ ((a as u128) << ((n - 1) as u64))
    } else {
        clmul(a, b, (n - 1) as nat)
    }
}

/// Software implementation of carryless multiplication.
///
/// Returns the 128-bit carryless product of `a` and `b` as a `(high, low)`
/// pair; a hardware carryless-multiply instruction must agree with this
/// result bit for bit.
pub fn carryless_mul_software(a: u64, b: u64) -> (r: (u64, u64))
    ensures
        r.0 as int * 0x10000000000000000 + r.1 as int == clmul(a, b, 64) as int,
{
    let mut acc: u128 = 0;
    let mut i: u64 = 0;
    while i < 64
        invariant
            i <= 64,
            acc == clmul(a, b, i as nat),
        decreases 64 - i,
    {
        if (b >> i) & 1 == 1 {
            acc = acc ^ ((a as u128) << i);
        }
        i = i + 1;
    }
    let hi: u128 = acc / 0x1_0000_0000_0000_0000u128;
    let lo: u128 = acc % 0x1_0000_0000_0000_0000u128;
    proof {
        lemma_fundamental_div_mod(acc as int, 0x10000000000000000);
    }
    (hi as u64, lo as u64)
}

/// Provides modular arithmetic behind a selectable code path.
///
/// The flag records whether a caller wants the carry-chain path; both paths
/// meet the same exact contract, so they return identical outputs for every
/// `(a, b, modulus)` triple and the choice is transparent to callers.
pub struct ModularArithmeticAccelerated {
    pub use_acceleration: bool,
}

impl ModularArithmeticAccelerated {
    /// Creates a new arithmetic helper on the portable code path.
    ///
    /// Capability detection needs CPU-specific instructions, so it lives
    /// with the front end; a caller that has detected support opts in
    /// through `with_acceleration`.
    pub fn new() -> (r: Self)
        ensures
            !r.use_acceleration,
    {
        Self { use_acceleration: false }
    }

    /// Creates a helper with the given code-path selection.
    pub fn with_acceleration(use_acceleration: bool) -> (r: Self)
        ensures
            r.use_acceleration == use_acceleration,
    {
        Self { use_acceleration }
    }

    /// Multiplies two `u64` values with modular reduction.
    ///
    /// Both code paths return exactly `(a * b) % modulus`, whichever the
    /// flag selects.
    pub fn mul_mod(&self, a: u64, b: u64, modulus: u64) -> (r: u64)
        requires
            modulus > 0,
        ensures
            r == (a as int * b as int) % (modulus as int),
    {
        if self.use_acceleration {
            let (hi, lo) = mul_add_carry(a, b, 0, 0);
            self.reduce_mod(hi, lo, modulus)
        } else {
            proof {
                lemma_mul_upper_bound(a as int, u64::MAX as int, b as int, u64::MAX as int);
            }
            let wide: u128 = a as u128 * b as u128;
            (wide % (modulus as u128)) as u64
        }
    }

    /// Reduces a 128-bit value, given as two 64-bit halves, modulo a 64-bit
    /// modulus.
    fn reduce_mod(&self, hi: u64, lo: u64, modulus: u64) -> (r: u64)
        requires
            modulus > 0,
        ensures
            r == (hi as int * 0x10000000000000000 + lo as int) % (modulus as int),
    {
        let value: u128 = (hi as u128) * 0x1_0000_0000_0000_0000u128 + (lo as u128);
        (value % (modulus as u128)) as u64
    }
}

} // verus!
