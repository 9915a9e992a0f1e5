use modularity::intrinsics::{carryless_mul_software, mul_add_carry, ModularArithmeticAccelerated};

#[test]
fn test_modular_arithmetic_accelerated() {
    let accel = ModularArithmeticAccelerated::new();

    // Basic test case
    let a = 5u64;
    let b = 7u64;
    let modulus = 17u64;

    let result = accel.mul_mod(a, b, modulus);
    assert_eq!(result, 1); // 5 * 7 mod 17 = 35 mod 17 = 1

    // Test with large numbers
    let large_a = 0xABCDEF0123456789u64;
    let large_b = 0x123456789ABCDEFu64;
    let large_prime = 0xFFFFFFFFFFFFFFFBu64; // 2^64 - 5

    let result_large = accel.mul_mod(large_a, large_b, large_prime);
    let expected = ((large_a as u128 * large_b as u128) % large_prime as u128) as u64;
    assert_eq!(result_large, expected);
}

#[test]
fn test_accelerated_matches_fallback() {
    // Both code paths return identical outputs for the same inputs, across
    // a deterministic pseudo-random sweep plus the boundary cases.
    let carry_chain = ModularArithmeticAccelerated::with_acceleration(true);
    let portable = ModularArithmeticAccelerated::with_acceleration(false);
    assert!(carry_chain.use_acceleration);
    assert!(!portable.use_acceleration);

    let moduli = [1u64, 2, 17, 1 << 32, (1 << 63) + 1, 0xFFFFFFFFFFFFFFFB, u64::MAX];
    let mut x: u64 = 0x243F6A8885A308D3;
    for &m in moduli.iter() {
        for &a in [0u64, m - 1, u64::MAX].iter() {
            for &b in [0u64, m - 1, u64::MAX].iter() {
                assert_eq!(carry_chain.mul_mod(a, b, m), portable.mul_mod(a, b, m));
            }
        }
        for _ in 0..50 {
            x = x.wrapping_mul(6364136223846793005).wrapping_add(1442695040888963407);
            let a = x;
            x = x.wrapping_mul(6364136223846793005).wrapping_add(1442695040888963407);
            let b = x;
            let fast = carry_chain.mul_mod(a, b, m);
            let slow = portable.mul_mod(a, b, m);
            assert_eq!(fast, slow);
            assert_eq!(slow, (a as u128 * b as u128 % m as u128) as u64);
        }
    }
}

#[test]
fn test_mul_add_carry_exact() {
    assert_eq!(mul_add_carry(2, 3, 4, 5), (0, 15));
    // The widest possible inputs still fit the double width exactly.
    let (hi, lo) = mul_add_carry(u64::MAX, u64::MAX, u64::MAX, u64::MAX);
    assert_eq!(hi, u64::MAX);
    assert_eq!(lo, u64::MAX);
    // A product that lands exactly on the 64-bit boundary.
    let (hi, lo) = mul_add_carry(1 << 32, 1 << 32, 0, 0);
    assert_eq!((hi, lo), (1, 0));
}

#[test]
fn test_carryless_mul_software_known_values() {
    // 0b101 clmul 0b011 = 0b101 ^ 0b1010 = 0b1111.
    assert_eq!(carryless_mul_software(5, 3), (0, 15));
    // The high half carries the bits shifted past the low word.
    assert_eq!(carryless_mul_software(1 << 63, 2), (1, 0));
    assert_eq!(carryless_mul_software(0, u64::MAX), (0, 0));
    // Carryless squaring spreads the bits: (x)^2 has bits at doubled
    // positions only.
    assert_eq!(carryless_mul_software(1 | (1 << 33), 1 | (1 << 33)), (1 << 2, 1));
}

#[test]
fn test_default_helper_uses_portable_path() {
    let accel = ModularArithmeticAccelerated::new();
    assert!(!accel.use_acceleration);
    assert_eq!(accel.mul_mod(0, 0, 1), 0);
    assert_eq!(accel.mul_mod(u64::MAX, u64::MAX, u64::MAX), 0);
}
