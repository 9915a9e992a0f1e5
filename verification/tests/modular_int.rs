use modularity::{ModularError, ModularInt};

#[test]
fn test_modular_int_creation() {
    let a = ModularInt::<u64>::new(5u64, 17).unwrap();
    assert_eq!(a.value(), 5);
    assert_eq!(a.modulus(), 17);

    let b = ModularInt::<u64>::new(20u64, 17).unwrap();
    assert_eq!(b.value(), 3); // 20 % 17 = 3
}

#[test]
fn test_modular_arithmetic_u64() {
    let a = ModularInt::<u64>::new(5u64, 17).unwrap();
    let b = ModularInt::<u64>::new(7u64, 17).unwrap();

    let c = a.add_mod(&b).unwrap();
    assert_eq!(c.value(), 12); // (5 + 7) % 17 = 12

    let d = a.sub_mod(&b).unwrap();
    assert_eq!(d.value(), 15); // (5 - 7) % 17 = 15 (or 17-2=15)

    let e = a.mul_mod(&b).unwrap();
    assert_eq!(e.value(), 1); // (5 * 7) % 17 = 35 % 17 = 1
}

#[test]
fn test_modular_exponentiation() {
    let a = ModularInt::<u64>::new(2u64, 17).unwrap();
    let b = a.pow_mod(4);
    assert_eq!(b.value(), 16); // 2^4 % 17 = 16

    let c = a.pow_mod(8);
    assert_eq!(c.value(), 1); // 2^8 % 17 = 256 % 17 = 1
}

#[test]
fn test_modular_inverse() {
    let a = ModularInt::<u64>::new(3u64, 17).unwrap();
    let b = a.inverse_mod().unwrap();
    assert_eq!(b.value(), 6); // 3 * 6 % 17 = 18 % 17 = 1

    let c = ModularInt::<u64>::new(5u64, 17).unwrap();
    let d = c.inverse_mod().unwrap();
    assert_eq!(d.value(), 7); // 5 * 7 % 17 = 35 % 17 = 1
}

#[test]
fn test_modular_arithmetic_u32() {
    let a = ModularInt::<u32>::new(20u32, 17).unwrap();
    assert_eq!(a.value(), 3);
    assert_eq!(a.modulus(), 17);

    let b = ModularInt::<u32>::new(7u32, 17).unwrap();
    assert_eq!(a.add_mod(&b).unwrap().value(), 10);
    assert_eq!(a.sub_mod(&b).unwrap().value(), 13);
    assert_eq!(a.mul_mod(&b).unwrap().value(), 4); // 21 % 17

    // Overflow boundary for the 32-bit width.
    let m: u32 = u32::MAX - 4;
    let x = ModularInt::<u32>::new(m - 1, m).unwrap();
    let y = ModularInt::<u32>::new(m - 2, m).unwrap();
    let expected_add = ((m as u64 - 1 + m as u64 - 2) % m as u64) as u32;
    let expected_mul = ((m as u64 - 1) * (m as u64 - 2) % m as u64) as u32;
    assert_eq!(x.add_mod(&y).unwrap().value(), expected_add);
    assert_eq!(x.mul_mod(&y).unwrap().value(), expected_mul);
}

#[test]
fn test_zero_modulus_error() {
    assert_eq!(
        ModularInt::<u64>::new(5u64, 0),
        Err(ModularError::ZeroModulus)
    );
    assert_eq!(
        ModularInt::<u32>::new(5u32, 0),
        Err(ModularError::ZeroModulus)
    );
}

#[test]
fn test_modulus_mismatch_error() {
    let a = ModularInt::<u64>::new(5u64, 17).unwrap();
    let b = ModularInt::<u64>::new(5u64, 19).unwrap();
    assert_eq!(a.add_mod(&b), Err(ModularError::ModulusMismatch));
    assert_eq!(a.sub_mod(&b), Err(ModularError::ModulusMismatch));
    assert_eq!(a.mul_mod(&b), Err(ModularError::ModulusMismatch));

    let x = ModularInt::<u32>::new(5u32, 17).unwrap();
    let y = ModularInt::<u32>::new(5u32, 19).unwrap();
    assert_eq!(x.add_mod(&y), Err(ModularError::ModulusMismatch));
    assert_eq!(x.sub_mod(&y), Err(ModularError::ModulusMismatch));
    assert_eq!(x.mul_mod(&y), Err(ModularError::ModulusMismatch));
}

#[test]
fn test_not_invertible_error() {
    // Zero has no inverse.
    let zero = ModularInt::<u64>::new(0u64, 17).unwrap();
    assert_eq!(zero.inverse_mod(), Err(ModularError::NotInvertible));

    // A shared factor with the modulus has no inverse.
    let a = ModularInt::<u64>::new(4u64, 8).unwrap();
    assert_eq!(a.inverse_mod(), Err(ModularError::NotInvertible));

    let b = ModularInt::<u64>::new(6u64, 9).unwrap();
    assert_eq!(b.inverse_mod(), Err(ModularError::NotInvertible));
}

#[test]
fn test_inverse_coprime_round_trip() {
    // Every nonzero residue modulo a prime is invertible, and the product
    // with its inverse is one.
    let m: u64 = 17;
    for v in 1..m {
        let a = ModularInt::<u64>::new(v, m).unwrap();
        let inv = a.inverse_mod().unwrap();
        assert_eq!(v as u128 * inv.value() as u128 % m as u128, 1);
    }
    // Composite modulus: exactly the residues coprime to it are invertible.
    let m12: u64 = 12;
    for v in 1..m12 {
        let a = ModularInt::<u64>::new(v, m12).unwrap();
        let shares_factor = v % 2 == 0 || v % 3 == 0;
        if shares_factor {
            assert_eq!(a.inverse_mod(), Err(ModularError::NotInvertible));
        } else {
            let inv = a.inverse_mod().unwrap();
            assert_eq!(v * inv.value() % m12, 1);
        }
    }
}

#[test]
fn test_inverse_large_modulus() {
    let m: u64 = 0xFFFFFFFFFFFFFFFB; // 2^64 - 5, prime
    let a = ModularInt::<u64>::new(0xABCDEF0123456789u64, m).unwrap();
    let inv = a.inverse_mod().unwrap();
    assert_eq!(
        a.value() as u128 * inv.value() as u128 % m as u128,
        1
    );
}

#[test]
fn test_pow_mod_zero_exponent() {
    // A zero exponent yields the multiplicative identity for every base,
    // including zero.
    let a = ModularInt::<u64>::new(0u64, 17).unwrap();
    assert_eq!(a.pow_mod(0).value(), 1);
    let b = ModularInt::<u64>::new(13u64, 17).unwrap();
    assert_eq!(b.pow_mod(0).value(), 1);
    // With modulus one the identity itself reduces to zero.
    let c = ModularInt::<u64>::new(0u64, 1).unwrap();
    assert_eq!(c.pow_mod(0).value(), 0);
}

#[test]
fn test_pow_mod_exponent_addition() {
    // pow_mod(a, e1 + e2) equals mul_mod(pow_mod(a, e1), pow_mod(a, e2)).
    let m: u64 = 1_000_000_007;
    let a = ModularInt::<u64>::new(3u64, m).unwrap();
    for (e1, e2) in [(0u64, 5u64), (1, 1), (13, 29), (1000, 1), (64, 64)] {
        let lhs = a.pow_mod(e1 + e2);
        let rhs = a.pow_mod(e1).mul_mod(&a.pow_mod(e2)).unwrap();
        assert_eq!(lhs.value(), rhs.value());
    }
}

#[test]
fn test_add_mod_overflow_boundary() {
    // Operands near the top of the 64-bit range must not wrap silently.
    let m: u64 = 0xFFFFFFFFFFFFFFFB; // 2^64 - 5
    let a = ModularInt::<u64>::new(m - 1, m).unwrap();
    let b = ModularInt::<u64>::new(m - 2, m).unwrap();
    let expected = ((m as u128 - 1 + m as u128 - 2) % m as u128) as u64;
    assert_eq!(a.add_mod(&b).unwrap().value(), expected);

    let d = a.sub_mod(&b).unwrap();
    assert_eq!(d.value(), 1);
    let e = b.sub_mod(&a).unwrap();
    assert_eq!(e.value(), m - 1);

    let p = a.mul_mod(&b).unwrap();
    let expected_mul = ((m as u128 - 1) * (m as u128 - 2) % m as u128) as u64;
    assert_eq!(p.value(), expected_mul);
}
