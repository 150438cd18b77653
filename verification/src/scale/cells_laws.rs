//! What holds of calibrating the cells and of their total weight.

use vstd::prelude::*;

use crate::scale::calibration::{
    DualScaleCalibration, ScaleCalibration, CALIBRATION_REFERENCE_G,
};
use crate::scale::cells::{
    filtered, newer, or_zero, window_after, CalibrationRecord, CalibrationTask, Side, WeightTotals,
    Weighing,
};
use crate::scale::filter::{
    acceptable, lemma_mean_within, plausible, slid, trimmed_mean, within,
};
use crate::scale::laws::{
    law_calibrated_scale_reads_its_reference, law_uncalibrated_is_invalid,
    law_zero_point_reads_zero,
};

verus! {

/// A task that fails leaves everything as it was.
pub proof fn law_failed_task_changes_nothing(
    record: CalibrationRecord,
    task: CalibrationTask,
    reading: Option<i32>,
)
    requires
        !record.succeeds(task, reading),
    ensures
        record.after(task, reading) == record,
{
}

/// Without a reading no task succeeds.
pub proof fn law_no_reading_fails(record: CalibrationRecord, task: CalibrationTask)
    ensures
        !record.succeeds(task, None),
{
}

/// Calibrating a cell leaves the other one alone, in use and in storage.
pub proof fn law_other_cell_is_untouched(
    record: CalibrationRecord,
    task: CalibrationTask,
    reading: Option<i32>,
    other: Side,
)
    requires
        other != task.cell(),
    ensures
        record.after(task, reading).current.of_cell(other) == record.current.of_cell(other),
        record.after(task, reading).stored.of_cell(other) == record.stored.of_cell(other),
{
}

/// Taring keeps the factor, and changes nothing in storage.
pub proof fn law_taring_is_not_stored(record: CalibrationRecord, side: Side, reading: Option<i32>)
    ensures
        ({
            let after = record.after(CalibrationTask::Tare(side), reading);
            &&& after.stored == record.stored
            &&& after.current.of_cell(side).scale == record.current.of_cell(side).scale
        }),
{
}

/// The tasks of a wizard run, each with its reading.
pub open spec fn after_tasks(
    record: CalibrationRecord,
    tasks: Seq<(CalibrationTask, Option<i32>)>,
) -> CalibrationRecord
    decreases tasks.len(),
{
    if tasks.len() == 0 {
        record
    } else {
        after_tasks(record, tasks.drop_last()).after(tasks.last().0, tasks.last().1)
    }
}

/// Leaving the wizard before a cell's reference weight has been read leaves the stored
/// calibration of that cell as it was, whatever happened before.
pub proof fn law_leaving_early_stores_nothing(
    record: CalibrationRecord,
    tasks: Seq<(CalibrationTask, Option<i32>)>,
    side: Side,
)
    requires
        forall|i: int|
            0 <= i < tasks.len() ==> (#[trigger] tasks[i]).0 != CalibrationTask::Calibrate(side),
    ensures
        after_tasks(record, tasks).stored.of_cell(side) == record.stored.of_cell(side),
    decreases tasks.len(),
{
    if tasks.len() > 0 {
        let before = tasks.drop_last();
        assert forall|i: int| 0 <= i < before.len() implies (#[trigger] before[i]).0
            != CalibrationTask::Calibrate(side) by {
            assert(before[i] == tasks[i]);
        }
        law_leaving_early_stores_nothing(record, before, side);
        assert(tasks[tasks.len() - 1].0 != CalibrationTask::Calibrate(side));
    }
}

/// A cell that has been tared and then calibrated reads zero where it was tared and the
/// reference weight where it was calibrated. The calibration is accepted just where the
/// reference weight pushed the reading up, and is then both in use and stored.
pub proof fn law_calibrated_cell_reads_its_reference(
    record: CalibrationRecord,
    side: Side,
    empty: i32,
    loaded: i32,
)
    requires
        i32::MIN <= loaded - empty <= i32::MAX,
    ensures
        ({
            let tared = record.after(CalibrationTask::Tare(side), Some(empty));
            let done = tared.after(CalibrationTask::Calibrate(side), Some(loaded));
            let cell = done.current.of_cell(side);
            &&& tared.succeeds(CalibrationTask::Calibrate(side), Some(loaded)) <==> loaded > empty
            &&& loaded > empty ==> {
                &&& cell.valid()
                &&& done.stored.of_cell(side) == cell
                &&& cell.decigrams(empty as int) == 0
                &&& cell.decigrams(loaded as int) == 10 * CALIBRATION_REFERENCE_G
            }
        }),
{
    let tared = record.after(CalibrationTask::Tare(side), Some(empty));
    let candidate = tared.candidate(side, loaded);
    assert(tared.current.of_cell(side).offset == empty);
    law_zero_point_reads_zero(candidate);
    if loaded != empty {
        law_calibrated_scale_reads_its_reference(empty, loaded, CALIBRATION_REFERENCE_G as int);
    } else {
        law_uncalibrated_is_invalid(empty);
    }
}

/// A cell that was not ready counts with its latest weight, not with zero.
pub proof fn law_unready_cell_keeps_its_weight(totals: WeightTotals, left: i32, right: i32)
    ensures
        totals.total_with(Some(left), None) == left + or_zero(totals.right),
        totals.total_with(None, Some(right)) == or_zero(totals.left) + right,
        totals.total_with(Some(left), Some(right)) == left + right,
        totals.total_with(None, None) == or_zero(totals.left) + or_zero(totals.right),
{
}

/// Which of the two cells is heard first makes no difference to the total.
pub proof fn law_order_of_readings_does_not_matter(totals: WeightTotals, left: i32, right: i32)
    ensures
        ({
            let left_first = WeightTotals { left: newer(totals.left, Some(left)), ..totals };
            let right_first = WeightTotals { right: newer(totals.right, Some(right)), ..totals };
            &&& left_first.total_with(None, Some(right)) == totals.total_with(Some(left), Some(right))
            &&& right_first.total_with(Some(left), None) == totals.total_with(Some(left), Some(right))
        }),
{
}

/// The total is the sum of the latest weights of both cells, each zero until there is one. Adding
/// to a cell's weight adds the same to the total.
pub proof fn law_total_sums_the_latest_weights(
    totals: WeightTotals,
    left: Option<i32>,
    right: Option<i32>,
    left_latest: i32,
    right_latest: i32,
)
    requires
        left == Some(left_latest) || left is None && totals.left == Some(left_latest) || left is None
            && totals.left is None && left_latest == 0,
        right == Some(right_latest) || right is None && totals.right == Some(right_latest)
            || right is None && totals.right is None && right_latest == 0,
    ensures
        totals.total_with(left, right) == left_latest + right_latest,
        newer(totals.left, left) is Some ==> newer(totals.left, left) == Some(left_latest),
        newer(totals.right, right) is Some ==> newer(totals.right, right) == Some(right_latest),
        newer(totals.left, left) is None <==> left is None && totals.left is None,
        newer(totals.right, right) is None <==> right is None && totals.right is None,
{
}

/// Every reading tares its cell: the reading is the new zero point, in use at once, and nothing
/// else of what is in use or in storage changes.
pub proof fn law_taring_takes_the_reading_for_zero(record: CalibrationRecord, side: Side, raw: i32)
    ensures
        ({
            let task = CalibrationTask::Tare(side);
            let after = record.after(task, Some(raw));
            let (cell, other) = match side {
                Side::Left => (after.current.left, after.current.right),
                Side::Right => (after.current.right, after.current.left),
            };
            let (old_cell, old_other) = match side {
                Side::Left => (record.current.left, record.current.right),
                Side::Right => (record.current.right, record.current.left),
            };
            &&& record.succeeds(task, Some(raw))
            &&& cell.offset == raw
            &&& cell.scale == old_cell.scale
            &&& other == old_other
            &&& after.stored == record.stored
            &&& cell.decigrams(raw as int) == 0
        }),
{
    let after = record.after(CalibrationTask::Tare(side), Some(raw));
    law_zero_point_reads_zero(after.current.left);
    law_zero_point_reads_zero(after.current.right);
}

/// A reading of the reference weight calibrates its cell just where it lies above the zero point
/// in use. The cell then keeps that zero point and reads 500 g at the reading, in use and in
/// storage alike; the other cell is left alone in both. A reading that does not changes nothing.
pub proof fn law_reference_reading_calibrates(record: CalibrationRecord, side: Side, raw: i32)
    requires
        record.can_do(CalibrationTask::Calibrate(side), Some(raw)),
    ensures
        ({
            let task = CalibrationTask::Calibrate(side);
            let after = record.after(task, Some(raw));
            let (cell, other) = match side {
                Side::Left => (after.current.left, after.current.right),
                Side::Right => (after.current.right, after.current.left),
            };
            let (kept, kept_other) = match side {
                Side::Left => (after.stored.left, after.stored.right),
                Side::Right => (after.stored.right, after.stored.left),
            };
            let (old_cell, old_other, old_kept_other) = match side {
                Side::Left => (record.current.left, record.current.right, record.stored.right),
                Side::Right => (record.current.right, record.current.left, record.stored.left),
            };
            &&& record.succeeds(task, Some(raw)) <==> raw > old_cell.offset
            &&& raw <= old_cell.offset ==> after == record
            &&& raw > old_cell.offset ==> {
                &&& cell.offset == old_cell.offset
                &&& cell.valid()
                &&& cell.decigrams(raw as int) == 5000
                &&& cell.decigrams(cell.offset as int) == 0
                &&& kept == cell
                &&& other == old_other
                &&& kept_other == old_kept_other
            }
        }),
{
    let offset = match side {
        Side::Left => record.current.left.offset,
        Side::Right => record.current.right.offset,
    };
    assert(record.current.of_cell(side).offset == offset);
    law_zero_point_reads_zero(record.candidate(side, raw));
    if raw != offset {
        law_calibrated_scale_reads_its_reference(offset, raw, CALIBRATION_REFERENCE_G as int);
    } else {
        law_uncalibrated_is_invalid(offset);
    }
}

/// A cell without a sample gives no weight and keeps its window, and so does one whose sample is
/// not plausible. A plausible sample enters the window, whose mean is then weighed.
pub proof fn law_filter_takes_plausible_samples(window: Seq<i32>, raw: i32, calibration: ScaleCalibration)
    ensures
        filtered(window, None, calibration) is None,
        window_after(window, None, calibration) == window,
        !plausible(raw, calibration) ==> {
            &&& filtered(window, Some(raw), calibration) is None
            &&& window_after(window, Some(raw), calibration) == window
        },
        plausible(raw, calibration) ==> {
            let longer = window_after(window, Some(raw), calibration);
            &&& longer.len() > 0 && longer.last() == raw
            &&& filtered(window, Some(raw), calibration) == Some(
                calibration.decigrams(trimmed_mean(longer)) as i32,
            )
        },
{
}

/// Each cell is weighed by its own filter and calibration: what the other one reads makes no
/// difference to it, and a cell without a sample weighs nothing new.
pub proof fn law_cells_are_weighed_apart(
    weighing: &Weighing,
    left: Option<i32>,
    right: Option<i32>,
    calibration: DualScaleCalibration,
)
    ensures
        ({
            let weights = weighing.weights(left, right, calibration);
            &&& weights.0 == filtered(weighing.left_filter@, left, calibration.left)
            &&& weights.1 == filtered(weighing.right_filter@, right, calibration.right)
            &&& left is None ==> weights.0 is None
            &&& right is None ==> weights.1 is None
        }),
{
}

/// With zero points anywhere near the range of samples, no step ever leaves the range of `i32`:
/// every sample can be filtered, and every 24-bit reading can calibrate.
pub proof fn law_ordinary_readings_stay_in_range(
    window: Seq<i32>,
    raw: i32,
    record: CalibrationRecord,
    side: Side,
    reading: Option<i32>,
)
    requires
        window.len() <= 32,
        within(window, -8_388_608, 8_388_607),
        -1_000_000_000 <= record.current.left.offset <= 1_000_000_000,
        -1_000_000_000 <= record.current.right.offset <= 1_000_000_000,
        reading matches Some(value) ==> -8_388_608 <= value < 8_388_608,
    ensures
        acceptable(window, raw, record.current.left),
        acceptable(window, raw, record.current.right),
        record.can_do(CalibrationTask::Tare(side), Some(raw)),
        record.can_do(CalibrationTask::Calibrate(side), reading),
{
    if -8_388_608 <= raw < 8_388_608 {
        lemma_mean_within(slid(window, raw), -8_388_608, 8_388_607);
    }
}

/// Counts are in the span of a calibration just where their distance to the zero point is an
/// `i32`.
pub proof fn law_span_is_the_range_of_distances(calibration: ScaleCalibration, raw: int)
    ensures
        calibration.in_span(raw) <==> -2_147_483_648 <= raw - calibration.offset <= 2_147_483_647,
{
}

} // verus!
