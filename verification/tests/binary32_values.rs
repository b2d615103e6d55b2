use hw_monitor::binary32::{pow2_of, Binary32};

fn of(value: f32) -> Binary32 {
    Binary32::from_bits(value.to_bits())
}

fn next(state: &mut u64) -> u32 {
    *state ^= *state << 13;
    *state ^= *state >> 7;
    *state ^= *state << 17;
    (*state >> 16) as u32
}

#[test]
fn fields_of_seventy() {
    let seventy = of(70.0);
    assert_eq!(seventy.bits, 0x428C_0000);
    assert!(!seventy.has_sign());
    assert_eq!(seventy.exponent_field(), 133);
    assert_eq!(seventy.fraction_field(), 0x0C_0000);
    assert!(of(-1.5).has_sign());
}

#[test]
fn decoded_parts() {
    assert_eq!(of(70.0).significand_value(), 0x8C_0000);
    assert_eq!(of(70.0).exponent_value(), -17);
    assert_eq!(of(1.0).significand_value(), 0x80_0000);
    assert_eq!(of(1.0).exponent_value(), -23);
    assert_eq!(of(0.0).significand_value(), 0);
    assert_eq!(of(0.0).exponent_value(), -149);
    assert_eq!(Binary32::from_bits(1).significand_value(), 1);
    assert_eq!(Binary32::from_bits(1).exponent_value(), -149);
    assert_eq!(of(f32::MAX).significand_value(), 0xFF_FFFF);
    assert_eq!(of(f32::MAX).exponent_value(), 104);
    assert!(of(f32::NAN).not_a_number());
    assert!(!of(f32::INFINITY).not_a_number());
    assert!(!of(1.0).not_a_number());
    assert!(of(f32::INFINITY).infinite());
    assert!(of(f32::NEG_INFINITY).infinite());
    assert!(!of(f32::NAN).infinite());
    assert!(!of(f32::MAX).infinite());
    let mut state: u64 = 0x5555_AAAA_1234_9876;
    let mut round = 0;
    while round < 20_000 {
        let bits = next(&mut state);
        let value = f32::from_bits(bits);
        let pattern = Binary32::from_bits(bits);
        if value.is_finite() {
            let magnitude = pattern.significand_value() as f64
                * 2.0f64.powi(pattern.exponent_value());
            assert_eq!(magnitude, value.abs() as f64, "bits {:#x}", bits);
        }
        assert_eq!(pattern.has_sign(), value.is_sign_negative());
        assert_eq!(pattern.not_a_number(), value.is_nan());
        assert_eq!(pattern.infinite(), value.is_infinite());
        round += 1;
    }
}

#[test]
fn comparison_with_a_limit() {
    assert!(!of(70.0).exceeds(70));
    assert!(of(70.00001).exceeds(70));
    assert!(of(75.0).exceeds(70));
    assert!(!of(65.0).exceeds(70));
    assert!(!of(69.99999).exceeds(70));
    assert!(!of(-80.0).exceeds(70));
    assert!(!of(0.0).exceeds(0));
    assert!(!of(-0.0).exceeds(0));
    assert!(of(f32::MIN_POSITIVE).exceeds(0));
    assert!(of(f32::from_bits(1)).exceeds(0));
    assert!(!of(f32::from_bits(1)).exceeds(1));
    assert!(of(f32::INFINITY).exceeds(u32::MAX));
    assert!(!of(f32::NEG_INFINITY).exceeds(0));
    assert!(!of(f32::NAN).exceeds(0));
    assert!(of(f32::MAX).exceeds(u32::MAX));
    assert!(of(4294967296.0).exceeds(u32::MAX));
    assert!(!of(4294967040.0).exceeds(u32::MAX));
}

#[test]
fn comparison_agrees_with_single_precision() {
    let mut state: u64 = 0x1234_5678_9ABC_DEF1;
    let limits: [u32; 8] = [0, 1, 2, 70, 71, 1000, 16_777_217, u32::MAX];
    let mut round = 0;
    while round < 50_000 {
        let bits = next(&mut state);
        let value = f32::from_bits(bits);
        for limit in limits {
            let expected = (value as f64) > (limit as f64);
            assert_eq!(Binary32::from_bits(bits).exceeds(limit), expected, "bits {:#x} limit {}", bits, limit);
        }
        round += 1;
    }
}

#[test]
fn comparison_agrees_around_seventy() {
    let mut bits: u32 = 0x428C_0000 - 5000;
    while bits < 0x428C_0000 + 5000 {
        let value = f32::from_bits(bits);
        assert_eq!(Binary32::from_bits(bits).exceeds(70), value > 70.0, "bits {:#x}", bits);
        bits += 1;
    }
}

#[test]
fn text_with_fixed_places() {
    assert_eq!(of(65.0).to_fixed_string(1), "65.0");
    assert_eq!(of(75.0).to_fixed_string(1), "75.0");
    assert_eq!(of(10.0).to_fixed_string(0), "10");
    assert_eq!(of(90.0).to_fixed_string(0), "90");
    assert_eq!(of(0.0).to_fixed_string(1), "0.0");
    assert_eq!(of(-0.0).to_fixed_string(1), "-0.0");
    assert_eq!(of(-0.01).to_fixed_string(1), "-0.0");
    assert_eq!(of(0.5).to_fixed_string(0), "0");
    assert_eq!(of(1.5).to_fixed_string(0), "2");
    assert_eq!(of(2.5).to_fixed_string(0), "2");
    assert_eq!(of(0.25).to_fixed_string(1), "0.2");
    assert_eq!(of(0.75).to_fixed_string(1), "0.8");
    assert_eq!(of(99.96).to_fixed_string(1), "100.0");
    assert_eq!(of(99.94).to_fixed_string(1), "99.9");
    assert_eq!(of(f32::NAN).to_fixed_string(1), "NaN");
    assert_eq!(of(-f32::NAN).to_fixed_string(1), "NaN");
    assert_eq!(of(f32::INFINITY).to_fixed_string(1), "inf");
    assert_eq!(of(f32::NEG_INFINITY).to_fixed_string(0), "-inf");
    assert_eq!(of(f32::MAX).to_fixed_string(1), "340282346638528859811704183484516925440.0");
    assert_eq!(of(f32::MAX).to_fixed_string(0), "340282346638528859811704183484516925440");
    assert_eq!(of(0.1).to_fixed_string(30), "0.100000001490116119384765625000");
}

#[test]
fn text_agrees_with_single_precision_formatting() {
    let mut state: u64 = 0x0F1E_2D3C_4B5A_6978;
    let mut round = 0;
    while round < 30_000 {
        let bits = next(&mut state);
        let value = f32::from_bits(bits);
        let pattern = Binary32::from_bits(bits);
        assert_eq!(pattern.to_fixed_string(0), format!("{:.0}", value), "bits {:#x}", bits);
        assert_eq!(pattern.to_fixed_string(1), format!("{:.1}", value), "bits {:#x}", bits);
        assert_eq!(pattern.to_fixed_string(2), format!("{:.2}", value), "bits {:#x}", bits);
        assert_eq!(pattern.to_fixed_string(7), format!("{:.7}", value), "bits {:#x}", bits);
        round += 1;
    }
}

#[test]
fn text_agrees_on_everyday_readings() {
    let mut hundredths: i32 = -5000;
    while hundredths <= 15000 {
        let value = hundredths as f32 / 100.0;
        let pattern = of(value);
        assert_eq!(pattern.to_fixed_string(0), format!("{:.0}", value), "value {}", value);
        assert_eq!(pattern.to_fixed_string(1), format!("{:.1}", value), "value {}", value);
        hundredths += 1;
    }
    let mut eighths: i32 = 0;
    while eighths <= 8000 {
        let value = eighths as f32 / 16.0;
        let pattern = of(value);
        assert_eq!(pattern.to_fixed_string(0), format!("{:.0}", value), "value {}", value);
        assert_eq!(pattern.to_fixed_string(1), format!("{:.1}", value), "value {}", value);
        eighths += 1;
    }
}

#[test]
fn text_agrees_on_every_exponent() {
    let mut field: u32 = 0;
    while field < 256 {
        for fraction in [0u32, 1, 2, 0x40_0000, 0x7F_FFFF, 0x12_3456] {
            for sign in [0u32, 0x8000_0000] {
                let bits = sign | (field << 23) | fraction;
                let value = f32::from_bits(bits);
                let pattern = Binary32::from_bits(bits);
                assert_eq!(pattern.to_fixed_string(0), format!("{:.0}", value), "bits {:#x}", bits);
                assert_eq!(pattern.to_fixed_string(1), format!("{:.1}", value), "bits {:#x}", bits);
                assert_eq!(pattern.to_fixed_string(30), format!("{:.30}", value), "bits {:#x}", bits);
            }
        }
        field += 1;
    }
}

#[test]
fn powers_of_two() {
    assert_eq!(pow2_of(0), 1);
    assert_eq!(pow2_of(10), 1024);
    assert_eq!(pow2_of(127), 1u128 << 127);
}
