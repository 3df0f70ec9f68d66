use tcp_sender::bbr::gain::{
    growth_target, pacing_gain_of, scale, DRAIN_GAIN, GAIN_CYCLE_LEN, GAIN_ONE, HIGH_GAIN,
    PROBE_BW_CWND_GAIN, PROBE_RTT_GAIN, STARTUP_GROWTH,
};

const UNIT: f64 = 33_554_432.0;

/// Numbers of all magnitudes, from a fixed seed.
fn numbers() -> Vec<u64> {
    let mut all = vec![0, 1, 2, 999_999, 1_000_000, u64::MAX, u64::MAX - 1];
    let mut state: u64 = 0x9E37_79B9_7F4A_7C15;
    for i in 0..4000u32 {
        state = state.wrapping_mul(6_364_136_223_846_793_005).wrapping_add(1_442_695_040_888_963_407);
        all.push(state >> (i % 64));
    }
    for shift in 0..64u32 {
        all.push(1u64 << shift);
        all.push((1u64 << shift) - 1);
        all.push((1u64 << shift) | 1);
    }
    all
}

#[test]
fn gains_are_the_single_precision_ones() {
    let high: f32 = 2.885;
    assert_eq!(HIGH_GAIN as f64 / UNIT, high as f64);
    assert_eq!(DRAIN_GAIN as f64 / UNIT, (1.0 / high) as f64);
    assert_eq!(GAIN_ONE as f64 / UNIT, 1.0);
    assert_eq!(PROBE_BW_CWND_GAIN as f64 / UNIT, 2.0);
    assert_eq!(PROBE_RTT_GAIN as f64 / UNIT, 0.75);
    assert_eq!(STARTUP_GROWTH as f64 / UNIT, 1.25);
}

#[test]
fn gain_cycle_raises_then_lowers() {
    let gains: Vec<f64> = (0..GAIN_CYCLE_LEN).map(|p| pacing_gain_of(p) as f64 / UNIT).collect();
    assert_eq!(gains, vec![1.25, 0.75, 1.0, 1.0, 1.0, 1.0, 1.0, 1.0]);
}

#[test]
fn scaling_is_double_precision() {
    let gains = [HIGH_GAIN, DRAIN_GAIN, GAIN_ONE, PROBE_BW_CWND_GAIN, PROBE_RTT_GAIN, STARTUP_GROWTH];
    for gain in gains {
        for bdp in numbers() {
            let expected = ((gain as f64 / UNIT) * bdp as f64 / 1_000_000f64) as u64;
            assert_eq!(scale(gain, bdp), expected, "gain {gain}, bdp {bdp}");
        }
    }
}

#[test]
fn any_gain_can_be_scaled_by() {
    for gain in [0, 1, 0x800_0000, 0x8000_0001, 0xFFFF_FF00, u32::MAX] {
        for bdp in numbers() {
            let expected = ((gain as f64 / UNIT) * bdp as f64 / 1_000_000f64) as u64;
            assert_eq!(scale(gain, bdp), expected, "gain {gain}, bdp {bdp}");
        }
    }
}

#[test]
fn scaling_is_off_by_at_most_a_byte() {
    for gain in [HIGH_GAIN, DRAIN_GAIN, PROBE_RTT_GAIN, u32::MAX] {
        for bdp in numbers() {
            let exact = (gain as u128 * bdp as u128 / 33_554_432_000_000) as u64;
            let scaled = scale(gain, bdp);
            assert!(scaled <= exact + 1 && exact <= scaled + 1, "gain {gain}, bdp {bdp}");
        }
    }
}

#[test]
fn growth_target_is_double_precision() {
    let growth: f32 = 1.25;
    for bw in numbers() {
        assert_eq!(growth_target(bw), (bw as f64 * growth as f64) as u64, "bw {bw}");
    }
}

#[test]
fn scaling_of_ordinary_values() {
    // 14 MB/s over 10 ms are 140 kB.
    assert_eq!(scale(GAIN_ONE, 10_000 * 14_000_000), 140_000);
    assert_eq!(scale(PROBE_BW_CWND_GAIN, 10_000 * 14_000_000), 280_000);
    assert_eq!(scale(PROBE_RTT_GAIN, 10_000 * 14_000_000), 105_000);
    assert_eq!(scale(HIGH_GAIN, 0), 0);
    assert_eq!(growth_target(2_800_000), 3_500_000);
}
