use maratui::binary32::Binary32;
use maratui::scale::cells::{OutOfRange, WeightReport};
use maratui::scale::filter::WINDOW_SAMPLES;
use maratui::scale::{
    CalibrationRecord, CalibrationTask, DualScaleCalibration, RawSignalSmoother, ScaleCalibration,
    ScaleReadingFilter, Side, WeightTotals, Weighing, CALIBRATION_REFERENCE_G,
};
use maratui::screens::CalibrationStep;

fn single(x: f32) -> Binary32 {
    Binary32::from_bits(x.to_bits())
}

fn native(x: Binary32) -> f32 {
    f32::from_bits(x.to_bits())
}

fn reference() -> Binary32 {
    Binary32::from_i32(CALIBRATION_REFERENCE_G)
}

fn cal(offset: i32, scale: f32) -> ScaleCalibration {
    ScaleCalibration { offset, scale: single(scale) }
}

struct Random(u64);

impl Random {
    fn next(&mut self) -> u64 {
        self.0 ^= self.0 << 13;
        self.0 ^= self.0 >> 7;
        self.0 ^= self.0 << 17;
        self.0
    }

    fn below(&mut self, n: u64) -> u64 {
        self.next() % n
    }
}

#[test]
fn default_is_uncalibrated() {
    let cal = ScaleCalibration::default();
    assert_eq!(cal.offset, 0);
    assert_eq!(cal.scale, single(0.0));
}

#[test]
fn raw_to_decigrams_applies_offset_and_scale() {
    let cal = ScaleCalibration {
        offset: 1000,
        scale: single(20.0),
    };
    // (3000 - 1000) / 20.0 = 100.0g -> 1000 decigrams
    assert_eq!(cal.raw_to_decigrams(3000), 1000);
    // at the zero point, weight is 0
    assert_eq!(cal.raw_to_decigrams(1000), 0);
}

#[test]
fn calibrate_computes_scale_from_reference_weight() {
    let offset = 1000;
    let raw_with_500g = 11000; // 10000 counts above offset for 500g
    let cal = ScaleCalibration::calibrate(offset, raw_with_500g, reference());
    assert_eq!(cal.offset, offset);
    assert_eq!(cal.scale, single(20.0));
    assert_eq!(cal.raw_to_decigrams(11000), 5000);
}

#[test]
fn calibrate_avoids_division_by_zero() {
    let cal = ScaleCalibration::calibrate(1000, 1000, reference());
    assert_eq!(cal.scale, single(0.0));
}

#[test]
fn bytes_roundtrip() {
    let cal = ScaleCalibration {
        offset: -12345,
        scale: single(420.5),
    };
    assert_eq!(ScaleCalibration::from_bytes(cal.to_bytes()), cal);
}

#[test]
fn dual_scale_calibration_sums_left_and_right_weights() {
    let cal = DualScaleCalibration {
        left: ScaleCalibration {
            offset: 1000,
            scale: single(20.0),
        },
        right: ScaleCalibration {
            offset: 2000,
            scale: single(25.0),
        },
    };
    assert_eq!(cal.raw_to_decigrams(3000, 4500), 1000 + 1000);
}

#[test]
fn dual_scale_bytes_roundtrip() {
    let cal = DualScaleCalibration {
        left: ScaleCalibration {
            offset: -12345,
            scale: single(420.5),
        },
        right: ScaleCalibration {
            offset: 9876,
            scale: single(77.5),
        },
    };
    assert_eq!(DualScaleCalibration::from_bytes(cal.to_bytes()), cal);
}

#[test]
fn filter_ignores_invalid_calibration_and_out_of_range_values() {
    let mut filter = ScaleReadingFilter::default();
    assert_eq!(filter.accept(1000, ScaleCalibration::default()), None);
    let calibration = ScaleCalibration {
        offset: 1000,
        scale: single(20.0),
    };
    assert_eq!(filter.accept(1000, calibration), Some(0));
    assert_eq!(filter.accept(1000 + 20 * 4000, calibration), None);
}

/// A single spike (e.g. one bad HX711 sample) is trimmed out of the window and barely
/// moves the result.
#[test]
fn filter_trims_a_single_spike() {
    let mut filter = ScaleReadingFilter::default();
    let calibration = ScaleCalibration {
        offset: 1000,
        scale: single(20.0),
    };
    for _ in 0..5 {
        filter.accept(1000, calibration);
    }
    // One wild outlier: gets trimmed as the window's single highest sample, so it has no
    // effect on the output at all.
    assert_eq!(filter.accept(1000 + 20 * 300, calibration), Some(0));
}

/// A sustained real change (e.g. lifting the cup off the scale) must fully take over the
/// window.
#[test]
fn filter_converges_on_a_sustained_change() {
    let mut filter = ScaleReadingFilter::default();
    let calibration = ScaleCalibration {
        offset: 1000,
        scale: single(20.0),
    };
    for _ in 0..WINDOW_SAMPLES {
        filter.accept(1000, calibration);
    }

    let new_raw = 1000 + 20 * 300; // a large, real change
    let mut last = None;
    for _ in 0..WINDOW_SAMPLES {
        last = filter.accept(new_raw, calibration);
    }
    // Once the old samples have fully aged out of the window, the reading matches the new
    // value exactly — it's not stuck at the old one.
    assert_eq!(last, Some(calibration.raw_to_decigrams(new_raw)));
}

/// Noise bouncing symmetrically around a steady weight averages back out, rather than
/// drifting the reading away from the true value.
#[test]
fn filter_smooths_symmetric_noise() {
    let mut filter = ScaleReadingFilter::default();
    let calibration = ScaleCalibration {
        offset: 1000,
        scale: single(20.0),
    };
    let mut last = None;
    for i in 0..WINDOW_SAMPLES {
        let jitter = if i % 2 == 0 { 5 } else { -5 };
        last = filter.accept(1000 + jitter, calibration);
    }
    assert_eq!(last, Some(0));
}

#[test]
fn smoother_first_sample_passes_through() {
    let mut smoother = RawSignalSmoother::default();
    assert_eq!(smoother.smooth(1000, single(0.2)), 1000);
}

#[test]
fn smoother_damps_a_sudden_jump() {
    let mut smoother = RawSignalSmoother::default();
    smoother.smooth(1000, single(0.2));
    // A big jump only moves the smoothed value by `alpha` of the way there.
    let smoothed = smoother.smooth(2000, single(0.2));
    assert_eq!(smoothed, 1200);
    assert!(smoothed < 2000);
}

#[test]
fn smoother_converges_on_a_steady_input() {
    let mut smoother = RawSignalSmoother::default();
    let mut last = 0;
    for _ in 0..200 {
        last = smoother.smooth(5000, single(0.2));
    }
    assert_eq!(last, 5000);
}

#[test]
fn validity_needs_a_finite_factor_above_epsilon() {
    assert!(cal(0, 1.0).is_valid());
    assert!(cal(0, 2.0 * f32::EPSILON).is_valid());
    for scale in [f32::EPSILON, 0.0, -0.0, -20.0, f32::INFINITY, f32::NEG_INFINITY, f32::NAN] {
        assert!(!cal(0, scale).is_valid());
    }
    assert!(!DualScaleCalibration::default().left.is_valid());
    assert!(!DualScaleCalibration::default().right.is_valid());
}

#[test]
fn weights_agree_with_native_arithmetic() {
    let mut random = Random(0x1234_5678_9abc_def1);
    for _ in 0..200_000 {
        let raw = (random.below(1 << 24) as i32) - (1 << 23);
        let offset = (random.below(1 << 24) as i32) - (1 << 23);
        let scale = match random.below(3) {
            0 => f32::from_bits(random.next() as u32),
            1 => random.below(1_000_000) as f32 / 1000.0,
            _ => (random.below(2_000) as f32) - 1000.0,
        };
        let expected = (((raw - offset) as f32 / scale) * 10.0).round() as i32;
        assert_eq!(cal(offset, scale).raw_to_decigrams(raw), expected, "{} {} {}", raw, offset, scale);
    }
}

#[test]
fn factors_agree_with_native_arithmetic() {
    let mut random = Random(0x0dd_ba11_5eed);
    for _ in 0..100_000 {
        let raw = (random.below(1 << 24) as i32) - (1 << 23);
        let offset = raw - (random.below(2_000) as i32) + 1000;
        let reference_g = match random.below(2) {
            0 => f32::from_bits(random.next() as u32),
            _ => random.below(100_000) as f32 / 100.0,
        };
        let delta = (raw - offset) as f32;
        let expected = if delta.abs() > f32::EPSILON && reference_g > f32::EPSILON {
            delta / reference_g
        } else {
            0.0
        };
        let got = ScaleCalibration::calibrate(offset, raw, single(reference_g));
        assert_eq!(got.offset, offset);
        assert_eq!(native(got.scale).to_bits(), expected.to_bits());
    }
}

#[test]
fn stored_bytes_are_little_endian() {
    let bytes = cal(-206_400, 400.0).to_bytes();
    assert_eq!(bytes[0..4], (-206_400i32).to_le_bytes());
    assert_eq!(bytes[4..8], 400.0f32.to_le_bytes());
    let pair = DualScaleCalibration { left: cal(1, 2.0), right: cal(-3, -4.5) };
    let bytes = pair.to_bytes();
    assert_eq!(bytes[0..8], pair.left.to_bytes());
    assert_eq!(bytes[8..16], pair.right.to_bytes());
}

#[test]
fn any_stored_bytes_survive_reading() {
    let mut random = Random(77);
    for _ in 0..10_000 {
        let mut bytes = [0u8; 16];
        for byte in bytes.iter_mut() {
            *byte = random.next() as u8;
        }
        assert_eq!(DualScaleCalibration::from_bytes(bytes).to_bytes(), bytes);
    }
}

#[test]
fn equality_goes_by_value() {
    assert_eq!(cal(1, 0.0), cal(1, -0.0));
    assert_ne!(cal(1, f32::NAN), cal(1, f32::NAN));
    assert_ne!(cal(1, 2.0), cal(2, 2.0));
    assert_ne!(cal(1, 2.0), cal(1, 3.0));
}

#[test]
fn calibrated_scale_reads_its_reference() {
    for (offset, raw) in [(0, 1), (-431_000, -231_000), (8_000_000, 8_000_123), (-8_388_608, 8_388_607)] {
        let cal = ScaleCalibration::calibrate(offset, raw, reference());
        assert!(cal.is_valid());
        assert_eq!(cal.raw_to_decigrams(raw), 5000);
        assert_eq!(cal.raw_to_decigrams(offset), 0);
    }
    let upside_down = ScaleCalibration::calibrate(1000, 0, reference());
    assert!(!upside_down.is_valid());
}

#[test]
fn heavier_never_reads_lighter() {
    let cal = cal(-206_400, 397.3);
    let mut last = i32::MIN;
    let mut raw = -8_388_608;
    while raw < 8_388_000 {
        let weight = cal.raw_to_decigrams(raw);
        assert!(weight >= last);
        last = weight;
        raw += 101;
    }
}

/// The filter written with native arithmetic.
fn native_accept(window: &mut Vec<i32>, raw: i32, offset: i32, scale: f32) -> Option<i32> {
    let weigh = |raw: i32| (((raw - offset) as f32 / scale) * 10.0).round() as i32;
    if !(-8_388_608..=8_388_607).contains(&raw) || !(scale.is_finite() && scale > f32::EPSILON) {
        return None;
    }
    if !(-500..=30_000).contains(&weigh(raw)) {
        return None;
    }
    window.push(raw);
    if window.len() > 32 {
        window.remove(0);
    }
    let mut sorted = window.clone();
    sorted.sort_unstable();
    let kept = if sorted.len() > 2 { &sorted[1..sorted.len() - 1] } else { &sorted[..] };
    let sum: i64 = kept.iter().map(|&v| i64::from(v)).sum();
    let mean = (sum as f64 / kept.len() as f64).round() as i32;
    Some(weigh(mean))
}

#[test]
fn filter_agrees_with_native_arithmetic() {
    let mut random = Random(0xfeed_beef_cafe);
    for round in 0..200 {
        let offset = (random.below(2_000_000) as i32) - 1_000_000;
        let scale = [400.0, 20.0, 0.37, 5000.5, 1.0e-6, 33.3][(round % 6) as usize];
        let mut filter = ScaleReadingFilter::default();
        let mut window: Vec<i32> = Vec::new();
        for _ in 0..100 {
            let spread = [9, 100, 10_000, 2_000_000][random.below(4) as usize];
            let raw = offset + (random.below(2 * spread) as i32) - (spread as i32) / 3;
            let expected = native_accept(&mut window, raw, offset, scale);
            assert!(filter.can_accept(raw, cal(offset, scale)));
            assert_eq!(filter.accept(raw, cal(offset, scale)), expected);
        }
    }
}

#[test]
fn filter_ignores_samples_beyond_24_bits() {
    let mut filter = ScaleReadingFilter::default();
    let wide = cal(8_388_607, 5000.0);
    assert_eq!(filter.accept(8_388_607, wide), Some(0));
    assert_eq!(filter.accept(8_388_608, wide), None);
    let low = cal(-8_388_608, 5000.0);
    let mut filter = ScaleReadingFilter::default();
    assert_eq!(filter.accept(-8_388_609, low), None);
    assert_eq!(filter.accept(-8_388_608, low), Some(0));
}

#[test]
fn filter_bounds_are_inclusive() {
    let unit = cal(0, 10.0);
    for (raw, expected) in [(-500, Some(-500)), (-501, None), (30_000, Some(30_000)), (30_001, None)] {
        let mut filter = ScaleReadingFilter::default();
        assert_eq!(filter.accept(raw, unit), expected);
    }
}

#[test]
fn filter_rounds_halves_away_from_zero() {
    // A factor of ten makes a count a tenth of a gram.
    let unit = cal(0, 10.0);
    let mut filter = ScaleReadingFilter::default();
    filter.accept(2, unit);
    assert_eq!(filter.accept(3, unit), Some(3));
    let mut filter = ScaleReadingFilter::default();
    filter.accept(-2, unit);
    assert_eq!(filter.accept(-3, unit), Some(-3));
}

#[test]
fn filter_reports_what_it_cannot_compute() {
    let mut filter = ScaleReadingFilter::default();
    assert!(!filter.can_accept(8_388_607, cal(i32::MIN, 400.0)));
    assert!(filter.can_accept(8_388_608, cal(i32::MIN, 400.0)));
    assert!(filter.can_accept(8_388_607, cal(i32::MIN, 0.0)));
    assert_eq!(filter.accept(8_388_607, cal(i32::MIN, 0.0)), None);
}

#[test]
fn smoother_agrees_with_native_arithmetic() {
    let mut random = Random(0xabcd_ef01);
    for _ in 0..200 {
        let alpha = [0.2f32, 1.0, 0.5, 0.01, 0.999][random.below(5) as usize];
        let mut smoother = RawSignalSmoother::default();
        let mut smoothed: Option<f32> = None;
        for _ in 0..50 {
            let raw = (random.below(1 << 24) as i32) - (1 << 23);
            let next = match smoothed {
                Some(prev) => prev + alpha * (raw as f32 - prev),
                None => raw as f32,
            };
            smoothed = Some(next);
            assert_eq!(smoother.smooth(raw, single(alpha)), next.round() as i32);
        }
    }
}

#[test]
fn smoother_holds_a_steady_input() {
    let mut smoother = RawSignalSmoother::default();
    for _ in 0..50 {
        assert_eq!(smoother.smooth(-431_000, single(0.2)), -431_000);
    }
}

#[test]
fn only_transient_steps_have_tasks() {
    let tasks = [
        (CalibrationStep::TaringLeft, CalibrationTask::Tare(Side::Left)),
        (CalibrationStep::CalibratingLeft, CalibrationTask::Calibrate(Side::Left)),
        (CalibrationStep::TaringRight, CalibrationTask::Tare(Side::Right)),
        (CalibrationStep::CalibratingRight, CalibrationTask::Calibrate(Side::Right)),
    ];
    for (step, task) in tasks {
        assert_eq!(CalibrationTask::for_step(Some(step)), Some(task));
    }
    for step in [
        CalibrationStep::ConfirmEmptyLeft,
        CalibrationStep::ConfirmReferenceLeft,
        CalibrationStep::ConfirmEmptyRight,
        CalibrationStep::ConfirmReferenceRight,
        CalibrationStep::Done { success: true },
        CalibrationStep::Done { success: false },
    ] {
        assert_eq!(CalibrationTask::for_step(Some(step)), None);
    }
    assert_eq!(CalibrationTask::for_step(None), None);
    assert_eq!(CalibrationTask::Tare(Side::Left).side(), Side::Left);
    assert_eq!(CalibrationTask::Calibrate(Side::Right).side(), Side::Right);
}

#[test]
fn wizard_run_calibrates_and_stores_both_cells() {
    let assumed = DualScaleCalibration { left: cal(-206_400, 400.0), right: cal(-431_000, 400.0) };
    let mut record = CalibrationRecord::new(assumed);

    let outcome = record.finish(CalibrationTask::Tare(Side::Left), Some(-200_000));
    assert!(outcome.success && outcome.save.is_none());
    assert_eq!(record.current.left, cal(-200_000, 400.0));
    assert_eq!(record.stored, assumed);

    let outcome = record.finish(CalibrationTask::Calibrate(Side::Left), Some(10_000));
    assert!(outcome.success);
    assert_eq!(record.current.left, cal(-200_000, 420.0));
    assert_eq!(outcome.save, Some(record.stored.to_bytes()));
    assert_eq!(record.stored, DualScaleCalibration { left: cal(-200_000, 420.0), ..assumed });
    assert_eq!(record.current.left.raw_to_decigrams(10_000), 5000);

    assert!(record.finish(CalibrationTask::Tare(Side::Right), Some(-430_000)).success);
    let outcome = record.finish(CalibrationTask::Calibrate(Side::Right), Some(-220_000));
    assert!(outcome.success);
    let both = DualScaleCalibration { left: cal(-200_000, 420.0), right: cal(-430_000, 420.0) };
    assert_eq!(record.current, both);
    assert_eq!(DualScaleCalibration::from_bytes(outcome.save.unwrap()), both);
}

#[test]
fn failed_tasks_change_nothing() {
    let before = DualScaleCalibration { left: cal(10, 2.0), right: cal(20, 3.0) };
    let mut record = CalibrationRecord::new(before);
    for (task, reading) in [
        (CalibrationTask::Tare(Side::Left), None),
        (CalibrationTask::Calibrate(Side::Left), None),
        (CalibrationTask::Tare(Side::Right), None),
        (CalibrationTask::Calibrate(Side::Right), None),
        (CalibrationTask::Calibrate(Side::Left), Some(10)),
        (CalibrationTask::Calibrate(Side::Right), Some(-500)),
    ] {
        let outcome = record.finish(task, reading);
        assert!(!outcome.success && outcome.save.is_none());
        assert_eq!(record.current, before);
        assert_eq!(record.stored, before);
    }
}

#[test]
fn leaving_the_wizard_early_stores_nothing_of_the_tare() {
    let before = DualScaleCalibration { left: cal(10, 2.0), right: cal(20, 3.0) };
    let mut record = CalibrationRecord::new(before);
    record.finish(CalibrationTask::Tare(Side::Left), Some(77));
    // The left wizard was left; the right cell is calibrated later on.
    record.finish(CalibrationTask::Tare(Side::Right), Some(100));
    let outcome = record.finish(CalibrationTask::Calibrate(Side::Right), Some(600));
    let expected = DualScaleCalibration { left: cal(10, 2.0), right: cal(100, 1.0) };
    assert_eq!(DualScaleCalibration::from_bytes(outcome.save.unwrap()), expected);
    assert_eq!(record.current.left, cal(77, 2.0));
}

#[test]
fn tasks_report_what_they_cannot_compute() {
    let record = CalibrationRecord::new(DualScaleCalibration {
        left: cal(i32::MIN, 1.0),
        right: cal(0, 1.0),
    });
    assert!(!record.can_finish(CalibrationTask::Calibrate(Side::Left), Some(0)));
    assert!(record.can_finish(CalibrationTask::Calibrate(Side::Left), Some(-1)));
    assert!(record.can_finish(CalibrationTask::Calibrate(Side::Left), None));
    assert!(record.can_finish(CalibrationTask::Calibrate(Side::Right), Some(i32::MAX)));
    assert!(record.can_finish(CalibrationTask::Tare(Side::Left), Some(i32::MAX)));
}

#[test]
fn totals_keep_the_cell_that_is_not_ready() {
    let mut totals = WeightTotals::new();
    assert_eq!(totals.note(None, None), None);
    assert_eq!(totals.note(Some(100), None), Some(WeightReport { weight_dg: 100, log: true }));
    assert_eq!(totals.note(None, Some(50)), Some(WeightReport { weight_dg: 150, log: true }));
    assert_eq!(totals.note(None, None), None);
    assert_eq!(totals.note(Some(100), None), Some(WeightReport { weight_dg: 150, log: false }));
    assert_eq!(totals.note(Some(-20), Some(5)), Some(WeightReport { weight_dg: -15, log: true }));
    assert!(totals.can_note(Some(i32::MAX), None) == (i32::MAX.checked_add(5).is_some()));
    assert!(totals.can_note(Some(i32::MAX - 5), None));
}

#[test]
fn weighing_sums_both_filters() {
    let pair = DualScaleCalibration { left: cal(1000, 20.0), right: cal(2000, 25.0) };
    let mut weighing = Weighing::new();
    assert_eq!(weighing.sample(None, None, pair), Ok(None));
    assert_eq!(
        weighing.sample(Some(3000), None, pair),
        Ok(Some(WeightReport { weight_dg: 1000, log: true }))
    );
    assert_eq!(
        weighing.sample(None, Some(4500), pair),
        Ok(Some(WeightReport { weight_dg: 2000, log: true }))
    );
    // An implausible sample is no news.
    assert_eq!(weighing.sample(Some(8_000_000), None, pair), Ok(None));
    assert_eq!(
        weighing.sample(Some(3000), Some(4500), pair),
        Ok(Some(WeightReport { weight_dg: 2000, log: false }))
    );
}

#[test]
fn weighing_refuses_to_overflow() {
    let far = DualScaleCalibration { left: cal(i32::MIN, 20.0), right: cal(2000, 25.0) };
    let mut weighing = Weighing::new();
    assert_eq!(weighing.sample(Some(100), None, far), Err(OutOfRange));
    assert_eq!(
        weighing.sample(None, Some(4500), far),
        Ok(Some(WeightReport { weight_dg: 1000, log: true }))
    );
}

#[test]
fn totals_out_of_range_are_refused() {
    let coarse = DualScaleCalibration { left: cal(0, 1.0), right: cal(0, 1.0) };
    let fine = DualScaleCalibration { left: cal(0, 1.0e-6), right: cal(0, 1.0e-6) };
    let mut weighing = Weighing::new();
    for _ in 0..2 {
        weighing.sample(Some(1000), Some(1000), coarse).unwrap();
    }
    let before = weighing.totals;
    assert_eq!(weighing.sample(Some(0), Some(0), fine), Err(OutOfRange));
    assert_eq!(weighing.totals, before);
    assert_eq!(before.left, Some(10_000));
    assert_eq!(before.right, Some(10_000));
}

#[test]
fn smaller_weights_damp_harder() {
    let shown = |alpha: f32, raw: i32| {
        let mut smoother = RawSignalSmoother::default();
        smoother.smooth(1000, single(alpha));
        smoother.smooth(raw, single(alpha))
    };
    assert_eq!(shown(0.1, 2000), 1100);
    assert_eq!(shown(0.5, 2000), 1500);
    assert_eq!(shown(1.0, 2000), 2000);
    let mut last = 1000;
    for percent in 1..=100 {
        let up = shown(percent as f32 / 100.0, 2000);
        assert!(last <= up && up <= 2000);
        last = up;
    }
    let mut last = 1000;
    for percent in 1..=100 {
        let down = shown(percent as f32 / 100.0, -2000);
        assert!(-2000 <= down && down <= last);
        last = down;
    }
}

#[test]
fn shown_values_stay_between_the_last_one_and_the_sample() {
    let mut random = Random(0xc0ff_ee00_1234);
    for _ in 0..500 {
        let mut smoother = RawSignalSmoother::default();
        let mut shown: Option<i32> = None;
        for _ in 0..60 {
            let raw = (random.below(2 * 4_194_304 + 1) as i32) - 4_194_304;
            let alpha = [1.0f32, 0.2, 0.5, 0.999_999_9, 1.0e-30][random.below(5) as usize];
            let next = smoother.smooth(raw, single(alpha));
            if let Some(last) = shown {
                assert!(last.min(raw) <= next && next <= last.max(raw));
            }
            if alpha == 1.0 {
                assert_eq!(next, raw);
            }
            shown = Some(next);
        }
    }
}
