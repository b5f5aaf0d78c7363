//! Levels of a call.

use asl_dmr_bridge::levels::LevelAccumulator;

const FULL_SCALE: f64 = 32768.0;

fn rms_dbfs(power: (u64, u64)) -> f64 {
    if power.0 == 0 || power.1 == 0 {
        return f64::NEG_INFINITY;
    }
    20.0 * ((power.0 as f64 / power.1 as f64).sqrt() / FULL_SCALE).log10()
}

/// Peak, level and voiced level in dBFS.
fn summary(acc: &LevelAccumulator) -> (f64, f64, f64) {
    let peak = if acc.peak_abs() > 0 {
        20.0 * (f64::from(acc.peak_abs()) / FULL_SCALE).log10()
    } else {
        f64::NEG_INFINITY
    };
    (peak, rms_dbfs(acc.power()), rms_dbfs(acc.voiced_power()))
}

fn approx(actual: f64, expected: f64, tol: f64) {
    assert!(
        (actual - expected).abs() < tol,
        "got {actual}, expected {expected} +- {tol}"
    );
}

#[test]
fn empty_summary_is_neg_inf() {
    let acc = LevelAccumulator::default();
    let (peak, rms, voiced_rms) = summary(&acc);
    assert_eq!(peak, f64::NEG_INFINITY);
    assert_eq!(rms, f64::NEG_INFINITY);
    assert_eq!(voiced_rms, f64::NEG_INFINITY);
}

#[test]
fn empty_frame_is_no_op() {
    let mut acc = LevelAccumulator::default();
    acc.add_frame(&[]);
    let (peak, rms, voiced_rms) = summary(&acc);
    assert_eq!(peak, f64::NEG_INFINITY);
    assert_eq!(rms, f64::NEG_INFINITY);
    assert_eq!(voiced_rms, f64::NEG_INFINITY);
}

#[test]
fn all_zero_frame_keeps_summary_at_neg_inf() {
    let mut acc = LevelAccumulator::default();
    acc.add_frame(&[0i16; 160]);
    let (peak, rms, voiced_rms) = summary(&acc);
    assert_eq!(peak, f64::NEG_INFINITY);
    assert_eq!(rms, f64::NEG_INFINITY);
    assert_eq!(voiced_rms, f64::NEG_INFINITY);
    assert_eq!(acc.power(), (0, 160));
}

#[test]
fn full_scale_frame_peaks_at_zero_dbfs() {
    let mut acc = LevelAccumulator::default();
    acc.add_frame(&[i16::MIN; 4]);
    let (peak, _, _) = summary(&acc);
    approx(peak, 0.0, 1e-9);
}

#[test]
fn voiced_gate_excludes_quiet_frames() {
    let amplitude = (FULL_SCALE * 10f64.powf(-50.0 / 20.0)) as i16;
    let mut acc = LevelAccumulator::default();
    acc.add_frame(&[amplitude; 160]);
    let (_, rms, voiced_rms) = summary(&acc);
    assert!(rms.is_finite(), "rms should not be -inf");
    assert_eq!(voiced_rms, f64::NEG_INFINITY);
}

#[test]
fn voiced_gate_includes_loud_frames() {
    let amplitude = (FULL_SCALE * 10f64.powf(-20.0 / 20.0)) as i16;
    let mut acc = LevelAccumulator::default();
    acc.add_frame(&[amplitude; 160]);
    let (_, rms, voiced_rms) = summary(&acc);
    approx(rms, -20.0, 0.05);
    approx(voiced_rms, -20.0, 0.05);
}

#[test]
fn voiced_gate_just_above_threshold_included() {
    let mut acc = LevelAccumulator::default();
    acc.add_frame(&[332i16; 160]);
    let (_, rms, voiced_rms) = summary(&acc);
    assert!(rms.is_finite() && rms > -40.0);
    assert!(voiced_rms.is_finite() && voiced_rms > -40.0);
}

#[test]
fn voiced_gate_just_below_threshold_excluded() {
    let mut acc = LevelAccumulator::default();
    acc.add_frame(&[324i16; 160]);
    let (_, rms, voiced_rms) = summary(&acc);
    assert!(rms.is_finite() && rms < -40.0);
    assert_eq!(voiced_rms, f64::NEG_INFINITY);
}

#[test]
fn saturating_accumulators_dont_panic_on_huge_input() {
    let mut acc = LevelAccumulator::default();
    let frame = vec![i16::MAX; 65536];
    for _ in 0..256 {
        acc.add_frame(&frame);
    }
    let (peak, rms, voiced_rms) = summary(&acc);
    approx(peak, -0.0003, 0.001);
    approx(rms, -0.0003, 0.001);
    approx(voiced_rms, -0.0003, 0.001);
}

#[test]
fn the_gate_is_a_power_ratio() {
    // -40 dBFS is one ten-thousandth of full-scale power: a level between 327
    // and 328.
    for (amplitude, voiced) in [(327i16, false), (328, true), (-328, true), (-327, false)] {
        let mut acc = LevelAccumulator::default();
        acc.add_frame(&[amplitude; 160]);
        assert_eq!(acc.voiced_power().1 == 160, voiced, "{amplitude}");
    }
    let mut acc = LevelAccumulator::default();
    acc.add_frame(&[3, -4]);
    acc.add_frame(&[1000; 2]);
    assert_eq!(acc.peak_abs(), 1000);
    assert_eq!(acc.power(), (2_000_025, 4));
    assert_eq!(acc.voiced_power(), (2_000_000, 2));
}
