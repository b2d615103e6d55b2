use hw_monitor::memory::{format_memory, nearest_double_of};

fn reference(value: u64) -> String {
    let kb: u64 = 1024;
    let mb: u64 = kb * 1024;
    let gb: u64 = mb * 1024;
    if value >= gb {
        format!("{:.2}GB", value as f64 / gb as f64)
    } else if value >= mb {
        format!("{:.2}MB", value as f64 / mb as f64)
    } else if value >= kb {
        format!("{:.2}KB", value as f64 / kb as f64)
    } else {
        format!("{} bytes", value)
    }
}

#[test]
fn plain_bytes_below_one_kilobyte() {
    assert_eq!(format_memory(512), "512 bytes");
    assert_eq!(format_memory(0), "0 bytes");
    assert_eq!(format_memory(1023), "1023 bytes");
}

#[test]
fn scaled_units() {
    assert_eq!(format_memory(2048), "2.00KB");
    assert_eq!(format_memory(5_242_880), "5.00MB");
    assert_eq!(format_memory(3_221_225_472), "3.00GB");
}

#[test]
fn unit_boundaries_take_the_larger_unit() {
    assert_eq!(format_memory(1024), "1.00KB");
    assert_eq!(format_memory(1_048_575), "1024.00KB");
    assert_eq!(format_memory(1_048_576), "1.00MB");
    assert_eq!(format_memory(1_073_741_823), "1024.00MB");
    assert_eq!(format_memory(1_073_741_824), "1.00GB");
}

#[test]
fn halves_round_to_even() {
    // 1152 / 1024 = 1.125 and 1408 / 1024 = 1.375, both exact.
    assert_eq!(format_memory(1152), "1.12KB");
    assert_eq!(format_memory(1408), "1.38KB");
    assert_eq!(format_memory(1536), "1.50KB");
}

#[test]
fn largest_quantity() {
    assert_eq!(format_memory(u64::MAX), "17179869184.00GB");
}

#[test]
fn agrees_with_double_precision_formatting_on_small_quantities() {
    let mut value: u64 = 0;
    while value < 200_000 {
        assert_eq!(format_memory(value), reference(value), "value {}", value);
        value += 1;
    }
}

#[test]
fn agrees_with_double_precision_formatting_around_the_units() {
    for unit in [1024u64, 1_048_576, 1_073_741_824] {
        let mut value = unit - 3000;
        while value < unit + 3000 {
            assert_eq!(format_memory(value), reference(value), "value {}", value);
            value += 1;
        }
    }
    let mut value = (1u64 << 53) - 3000;
    while value < (1u64 << 53) + 3000 {
        assert_eq!(format_memory(value), reference(value), "value {}", value);
        value += 1;
    }
    let mut value = u64::MAX - 5000;
    while value < u64::MAX {
        value += 1;
        assert_eq!(format_memory(value), reference(value), "value {}", value);
    }
}

#[test]
fn agrees_with_double_precision_formatting_across_the_range() {
    let mut state: u64 = 0x9E37_79B9_7F4A_7C15;
    let mut round = 0;
    while round < 50_000 {
        state ^= state << 13;
        state ^= state >> 7;
        state ^= state << 17;
        let value = state >> (round % 64);
        assert_eq!(format_memory(value), reference(value), "value {}", value);
        round += 1;
    }
}

#[test]
fn agrees_with_double_precision_formatting_near_ties() {
    let mut shift = 0;
    while shift < 64 {
        let base: u64 = 1 << shift;
        let mut odd: u64 = 1;
        while odd < 400 {
            let centre = base.wrapping_mul(odd);
            let mut delta: u64 = 0;
            while delta < 3 {
                let low = centre.wrapping_sub(delta);
                let high = centre.wrapping_add(delta);
                assert_eq!(format_memory(low), reference(low), "value {}", low);
                assert_eq!(format_memory(high), reference(high), "value {}", high);
                delta += 1;
            }
            odd += 2;
        }
        shift += 1;
    }
}

#[test]
fn rounding_to_double_precision() {
    assert_eq!(nearest_double_of(0), 0);
    assert_eq!(nearest_double_of(9_007_199_254_740_991), 9_007_199_254_740_991);
    assert_eq!(nearest_double_of(9_007_199_254_740_993), 9_007_199_254_740_992);
    assert_eq!(nearest_double_of(9_007_199_254_740_995), 9_007_199_254_740_996);
    assert_eq!(nearest_double_of(u64::MAX), 18_446_744_073_709_551_616);
    let mut state: u64 = 0x2545_F491_4F6C_DD1D;
    let mut round = 0;
    while round < 50_000 {
        state ^= state << 13;
        state ^= state >> 7;
        state ^= state << 17;
        assert_eq!(nearest_double_of(state) as f64, state as f64);
        assert_eq!(nearest_double_of(state), (state as f64) as u128);
        round += 1;
    }
}
