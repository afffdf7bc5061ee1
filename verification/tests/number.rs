use asp_spectra::number::Real;

fn num(x: f64) -> Real {
    Real::from_bits(x.to_bits())
}

#[test]
fn bits_round_trip() {
    let x = num(4000.0);
    assert_eq!(x.to_bits(), 4000.0f64.to_bits());
    assert_eq!(f64::from_bits(x.to_bits()), 4000.0);
}

#[test]
fn count_of_whole_numbers() {
    assert_eq!(num(0.0).to_count(), 0);
    assert_eq!(num(1.0).to_count(), 1);
    assert_eq!(num(3.0).to_count(), 3);
    assert_eq!(num(1024.0).to_count(), 1024);
    assert_eq!(num(4000.0).to_count(), 4000);
    assert_eq!(num(1e15).to_count(), 1_000_000_000_000_000);
}

#[test]
fn count_cuts_off_towards_zero() {
    assert_eq!(num(0.5).to_count(), 0);
    assert_eq!(num(0.999999).to_count(), 0);
    assert_eq!(num(1.5).to_count(), 1);
    assert_eq!(num(2.9999999).to_count(), 2);
    assert_eq!(num(3.7).to_count(), 3);
    assert_eq!(num(1e-300).to_count(), 0);
    assert_eq!(num(5e-324).to_count(), 0);
}

#[test]
fn count_of_negative_numbers_is_zero() {
    assert_eq!(num(-0.0).to_count(), 0);
    assert_eq!(num(-0.5).to_count(), 0);
    assert_eq!(num(-1.0).to_count(), 0);
    assert_eq!(num(-4000.0).to_count(), 0);
    assert_eq!(num(f64::NEG_INFINITY).to_count(), 0);
}

#[test]
fn count_of_what_is_not_a_number_is_zero() {
    assert_eq!(num(f64::NAN).to_count(), 0);
    assert_eq!(Real::from_bits(0x7ff0_0000_0000_0001).to_count(), 0);
    assert_eq!(Real::from_bits(0xfff8_0000_0000_0000).to_count(), 0);
}

#[test]
fn count_is_held_within_usize() {
    assert_eq!(num(f64::INFINITY).to_count(), usize::MAX);
    assert_eq!(num(1e30).to_count(), usize::MAX);
    assert_eq!(num(f64::MAX).to_count(), usize::MAX);
    assert_eq!(num(18446744073709551616.0).to_count(), usize::MAX);
}

#[test]
fn count_of_large_numbers_is_exact() {
    assert_eq!(num(9007199254740992.0).to_count() as u64, 9007199254740992);
    assert_eq!(num(9007199254740993.0).to_count() as u64, 9007199254740992);
    assert_eq!(num(4503599627370496.0).to_count() as u64, 4503599627370496);
    assert_eq!(num(4503599627370497.0).to_count() as u64, 4503599627370497);
    let below_top = f64::from_bits(0x43ef_ffff_ffff_ffff);
    assert_eq!(num(below_top).to_count() as u64, 0xffff_ffff_ffff_f800);
}

#[test]
fn count_agrees_with_the_cast_of_the_language() {
    let samples = [
        0.0, 0.1, 0.9, 1.0, 1.1, 2.5, 7.0, 255.99, 256.0, 65535.5, 1e6, 1e9, 4294967295.0,
        4294967296.0, 4294967296.5, 1e12, 1e18, 1.8e19, 1.9e19, 1e100, -1e100, -3.5, 3.5e-5,
        2.2250738585072014e-308, 123456789.123456789,
    ];
    for x in samples {
        assert_eq!(num(x).to_count(), x as usize);
    }
    let mut bits: u64 = 0x3fe0_0000_0000_0000;
    while bits < 0x4500_0000_0000_0000 {
        let x = f64::from_bits(bits);
        assert_eq!(Real::from_bits(bits).to_count(), x as usize);
        bits += 0x0000_7a31_9d5b_c0f7;
    }
}
