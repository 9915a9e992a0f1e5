use modularity::{ModularError, ModularInt, MontgomeryArithmetic, MontgomeryContext};

#[test]
fn test_montgomery_multiplication_u64() {
    let modulus = 17u64;
    let ctx = MontgomeryContext::new(modulus).unwrap();

    let a = ModularInt::<u64>::new(5u64, modulus).unwrap();
    let b = ModularInt::<u64>::new(7u64, modulus).unwrap();

    let a_mont = a.to_montgomery(&ctx).unwrap();
    let b_mont = b.to_montgomery(&ctx).unwrap();

    let result_mont = a_mont.montgomery_mul(&b_mont, &ctx).unwrap();
    let result = result_mont.from_montgomery(&ctx).unwrap();

    assert_eq!(result.value(), 1); // 5 * 7 mod 17 = 35 mod 17 = 1
}

#[test]
fn test_montgomery_large_modulus() {
    let large_prime = 0xFFFFFFFFFFFFFFFBu64; // 2^64 - 5
    let ctx = MontgomeryContext::new(large_prime).unwrap();

    let a = ModularInt::<u64>::new(0xABCDEF0123456789u64, large_prime).unwrap();
    let b = ModularInt::<u64>::new(0x123456789ABCDEFu64, large_prime).unwrap();

    let a_mont = a.to_montgomery(&ctx).unwrap();
    let b_mont = b.to_montgomery(&ctx).unwrap();

    let result_mont = a_mont.montgomery_mul(&b_mont, &ctx).unwrap();
    let result = result_mont.from_montgomery(&ctx).unwrap();

    // Verify using regular multiplication
    let expected = (a.value() as u128 * b.value() as u128 % large_prime as u128) as u64;
    assert_eq!(result.value(), expected);
}

#[test]
fn test_montgomery_even_modulus_error() {
    assert!(matches!(MontgomeryContext::new(16u64), Err(ModularError::EvenModulus)));
    assert!(matches!(MontgomeryContext::new(2u64), Err(ModularError::EvenModulus)));
}

#[test]
fn test_montgomery_zero_modulus_error() {
    assert!(matches!(MontgomeryContext::new(0u64), Err(ModularError::ZeroModulus)));
}

#[test]
fn test_montgomery_context_mismatch_error() {
    let ctx = MontgomeryContext::new(17u64).unwrap();
    let a = ModularInt::<u64>::new(5u64, 19).unwrap();
    let b = ModularInt::<u64>::new(5u64, 17).unwrap();
    assert_eq!(a.to_montgomery(&ctx), Err(ModularError::ModulusMismatch));
    assert_eq!(a.from_montgomery(&ctx), Err(ModularError::ModulusMismatch));
    assert_eq!(a.montgomery_mul(&b, &ctx), Err(ModularError::ModulusMismatch));
    assert_eq!(b.montgomery_mul(&a, &ctx), Err(ModularError::ModulusMismatch));
}

#[test]
fn test_montgomery_round_trip_matches_mul_mod() {
    // Lifting into the transform domain, multiplying there, and lowering
    // the product equals the plain modular product, for every operand pair.
    let modulus = 17u64;
    let ctx = MontgomeryContext::new(modulus).unwrap();
    for a in 0..modulus {
        for b in 0..modulus {
            let x = ModularInt::<u64>::new(a, modulus).unwrap();
            let y = ModularInt::<u64>::new(b, modulus).unwrap();
            let via_mont = x
                .to_montgomery(&ctx)
                .unwrap()
                .montgomery_mul(&y.to_montgomery(&ctx).unwrap(), &ctx)
                .unwrap()
                .from_montgomery(&ctx)
                .unwrap();
            let direct = x.mul_mod(&y).unwrap();
            assert_eq!(via_mont.value(), direct.value());
        }
    }
}

#[test]
fn test_montgomery_to_from_identity() {
    // Converting into the transform domain and straight back returns the
    // original residue.
    let moduli = [1u64, 3, 17, (1 << 63) + 1, 0xFFFFFFFFFFFFFFFB, u64::MAX];
    for &m in moduli.iter() {
        let ctx = MontgomeryContext::new(m).unwrap();
        assert_eq!(ctx.modulus(), m);
        let values = [0u64, 1 % m, 2 % m, (m - 1) % m, 12345 % m];
        for &v in values.iter() {
            let a = ModularInt::<u64>::new(v, m).unwrap();
            let round = a.to_montgomery(&ctx).unwrap().from_montgomery(&ctx).unwrap();
            assert_eq!(round.value(), v);
        }
    }
}

#[test]
fn test_montgomery_modulus_one() {
    let ctx = MontgomeryContext::new(1u64).unwrap();
    let a = ModularInt::<u64>::new(0u64, 1).unwrap();
    let m = a.to_montgomery(&ctx).unwrap();
    assert_eq!(m.value(), 0);
    assert_eq!(m.from_montgomery(&ctx).unwrap().value(), 0);
}
