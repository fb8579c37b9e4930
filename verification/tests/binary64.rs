use analytics::binary64::hundredths_to_binary64;

#[test]
fn zero_hundredths_is_positive_zero() {
    assert_eq!(hundredths_to_binary64(0), 0);
    assert_eq!(f64::from_bits(hundredths_to_binary64(0)), 0.0);
}

#[test]
fn known_bit_patterns() {
    assert_eq!(hundredths_to_binary64(100), 0x3FF0_0000_0000_0000);
    assert_eq!(hundredths_to_binary64(50), 0x3FE0_0000_0000_0000);
    assert_eq!(hundredths_to_binary64(350), 0x400C_0000_0000_0000);
    assert_eq!(hundredths_to_binary64(1), 0x3F84_7AE1_47AE_147B);
    assert_eq!(hundredths_to_binary64(9999), 0x4058_FF5C_28F5_C28F);
}

#[test]
fn every_sample_value_is_the_quotient_by_one_hundred() {
    let mut h: u32 = 0;
    while h < 10_000 {
        let expected = h as f64 / 100.0;
        assert_eq!(hundredths_to_binary64(h), expected.to_bits(), "{} hundredths", h);
        h += 1;
    }
}

#[test]
fn large_counts_are_the_quotient_by_one_hundred() {
    let counts = [10_000u32, 12_345, 65_535, 1_000_000, 123_456_789, 4_294_967_295];
    for h in counts {
        let expected = h as f64 / 100.0;
        assert_eq!(hundredths_to_binary64(h), expected.to_bits(), "{} hundredths", h);
    }
}
