//! Both load cells together: the total weight, and carrying out the calibration wizard's steps.

use vstd::prelude::*;

use crate::binary32::model::Binary32;
use crate::binary32::ops::of_int;
use crate::scale::calibration::{DualScaleCalibration, ScaleCalibration, CALIBRATION_REFERENCE_G};
use crate::scale::filter::{acceptable, plausible, slid, trimmed_mean, ScaleReadingFilter};
use crate::screens::calibration::CalibrationStep;

verus! {

/// Number of samples averaged for a calibration step.
pub const TASK_SAMPLES: usize = 10;

/// How long a calibration step waits for its samples, in nanoseconds.
pub const TASK_TIMEOUT_NS: u128 = 3_000_000_000;

/// One of the two load cells.
#[derive(Debug, Clone, Copy, PartialEq, Eq, Structural)]
pub enum Side {
    Left,
    Right,
}

/// What a wizard step asks of a load cell.
#[derive(Debug, Clone, Copy, PartialEq, Eq, Structural)]
pub enum CalibrationTask {
    /// Take the reading of the empty scale for the zero point.
    Tare(Side),
    /// Derive the factor from the reading of the reference weight.
    Calibrate(Side),
}

impl CalibrationTask {
    /// The task of a wizard step. Only the transient steps have one.
    pub open spec fn of_step(step: Option<CalibrationStep>) -> Option<CalibrationTask> {
        match step {
            Some(CalibrationStep::TaringLeft) => Some(CalibrationTask::Tare(Side::Left)),
            Some(CalibrationStep::CalibratingLeft) => Some(CalibrationTask::Calibrate(Side::Left)),
            Some(CalibrationStep::TaringRight) => Some(CalibrationTask::Tare(Side::Right)),
            Some(CalibrationStep::CalibratingRight) => Some(CalibrationTask::Calibrate(Side::Right)),
            _ => None,
        }
    }

    /// The cell concerned.
    pub open spec fn cell(self) -> Side {
        match self {
            CalibrationTask::Tare(side) => side,
            CalibrationTask::Calibrate(side) => side,
        }
    }

    /// The task of a wizard step.
    pub fn for_step(step: Option<CalibrationStep>) -> (res: Option<CalibrationTask>)
        ensures
            res == CalibrationTask::of_step(step),
    {
        match step {
            Some(CalibrationStep::TaringLeft) => Some(CalibrationTask::Tare(Side::Left)),
            Some(CalibrationStep::CalibratingLeft) => Some(CalibrationTask::Calibrate(Side::Left)),
            Some(CalibrationStep::TaringRight) => Some(CalibrationTask::Tare(Side::Right)),
            Some(CalibrationStep::CalibratingRight) => Some(CalibrationTask::Calibrate(Side::Right)),
            _ => None,
        }
    }

    /// The cell whose reading is wanted.
    pub fn side(self) -> (res: Side)
        ensures
            res == self.cell(),
    {
        match self {
            CalibrationTask::Tare(side) => side,
            CalibrationTask::Calibrate(side) => side,
        }
    }
}

impl DualScaleCalibration {
    /// The calibration of one cell.
    pub open spec fn of_cell(self, side: Side) -> ScaleCalibration {
        match side {
            Side::Left => self.left,
            Side::Right => self.right,
        }
    }

    /// The pair with the calibration of one cell replaced.
    pub open spec fn with_cell(self, side: Side, cell: ScaleCalibration) -> DualScaleCalibration {
        match side {
            Side::Left => DualScaleCalibration { left: cell, ..self },
            Side::Right => DualScaleCalibration { right: cell, ..self },
        }
    }

    /// The calibration of one cell.
    pub fn cell(&self, side: Side) -> (res: ScaleCalibration)
        ensures
            res == self.of_cell(side),
    {
        match side {
            Side::Left => self.left,
            Side::Right => self.right,
        }
    }

    /// Replace the calibration of one cell.
    pub fn set_cell(&mut self, side: Side, cell: ScaleCalibration)
        ensures
            *final(self) == old(self).with_cell(side, cell),
    {
        match side {
            Side::Left => {
                self.left = cell;
            },
            Side::Right => {
                self.right = cell;
            },
        }
    }
}

/// The calibration in use and the one kept in storage.
#[derive(Debug, Clone, Copy)]
pub struct CalibrationRecord {
    pub current: DualScaleCalibration,
    pub stored: DualScaleCalibration,
}

/// What became of a calibration task.
#[derive(Debug, Clone, Copy)]
pub struct TaskOutcome {
    pub success: bool,
    /// What to write to storage, where anything is.
    pub save: Option<[u8; 16]>,
}

impl CalibrationRecord {
    /// The calibration that a reading of the reference weight gives a cell.
    pub open spec fn candidate(self, side: Side, raw: i32) -> ScaleCalibration {
        ScaleCalibration::calibrated(
            self.current.of_cell(side).offset,
            raw,
            of_int(CALIBRATION_REFERENCE_G as int),
        )
    }

    /// Whether a task succeeds with a reading: there has to be one, and a factor derived from it
    /// has to be valid.
    pub open spec fn succeeds(self, task: CalibrationTask, reading: Option<i32>) -> bool {
        match (task, reading) {
            (_, None) => false,
            (CalibrationTask::Tare(_), Some(_)) => true,
            (CalibrationTask::Calibrate(side), Some(raw)) => self.candidate(side, raw).valid(),
        }
    }

    /// The record after a task. A new zero point is in use at once, but is stored only together
    /// with a factor derived from it, so that a wizard that is left early stores nothing of the
    /// cell whose reference weight was not read.
    pub open spec fn after(self, task: CalibrationTask, reading: Option<i32>) -> CalibrationRecord {
        if !self.succeeds(task, reading) {
            self
        } else {
            let raw = reading->0;
            match task {
                CalibrationTask::Tare(side) => CalibrationRecord {
                    current: self.current.with_cell(
                        side,
                        ScaleCalibration { offset: raw, ..self.current.of_cell(side) },
                    ),
                    stored: self.stored,
                },
                CalibrationTask::Calibrate(side) => CalibrationRecord {
                    current: self.current.with_cell(side, self.candidate(side, raw)),
                    stored: self.stored.with_cell(side, self.candidate(side, raw)),
                },
            }
        }
    }

    /// Whether the arithmetic of a task stays within `i32`.
    pub open spec fn can_do(self, task: CalibrationTask, reading: Option<i32>) -> bool {
        match (task, reading) {
            (CalibrationTask::Calibrate(side), Some(raw)) => self.current.of_cell(side).in_span(
                raw as int,
            ),
            _ => true,
        }
    }

    /// A record of what was loaded from storage.
    pub fn new(loaded: DualScaleCalibration) -> (res: CalibrationRecord)
        ensures
            res.current == loaded,
            res.stored == loaded,
    {
        CalibrationRecord { current: loaded, stored: loaded }
    }

    /// Whether [`Self::finish`] stays within the range of `i32` for this reading.
    pub fn can_finish(&self, task: CalibrationTask, reading: Option<i32>) -> (res: bool)
        ensures
            res == self.can_do(task, reading),
    {
        match (task, reading) {
            (CalibrationTask::Calibrate(side), Some(raw)) => {
                let distance: i64 = raw as i64 - self.current.cell(side).offset as i64;
                distance >= i32::MIN as i64 && distance <= i32::MAX as i64
            },
            _ => true,
        }
    }

    /// Finish a task with the averaged reading of its cell, if there was one.
    pub fn finish(&mut self, task: CalibrationTask, reading: Option<i32>) -> (res: TaskOutcome)
        requires
            old(self).can_do(task, reading),
        ensures
            *final(self) == old(self).after(task, reading),
            res.success == old(self).succeeds(task, reading),
            res.save is Some <==> res.success && task is Calibrate,
            res.save matches Some(bytes) ==> bytes@ == final(self).stored.stored(),
    {
        let raw: i32 = match reading {
            Some(raw) => raw,
            None => {
                return TaskOutcome { success: false, save: None };
            },
        };
        match task {
            CalibrationTask::Tare(side) => {
                let cell: ScaleCalibration = self.current.cell(side);
                self.current.set_cell(side, ScaleCalibration { offset: raw, scale: cell.scale });
                TaskOutcome { success: true, save: None }
            },
            CalibrationTask::Calibrate(side) => {
                let candidate: ScaleCalibration = ScaleCalibration::calibrate(
                    self.current.cell(side).offset,
                    raw,
                    Binary32::from_i32(CALIBRATION_REFERENCE_G),
                );
                if candidate.is_valid() {
                    self.current.set_cell(side, candidate);
                    self.stored.set_cell(side, candidate);
                    TaskOutcome { success: true, save: Some(self.stored.to_bytes()) }
                } else {
                    TaskOutcome { success: false, save: None }
                }
            },
        }
    }
}

/// The latest known weight of each cell, in tenths of a gram.
///
/// The two ADCs run on independent conversion cycles and are almost never ready at the same
/// time, so each cell's latest reading is kept and the total always reflects both.
#[derive(Debug, Clone, Copy, PartialEq, Eq, Structural)]
pub struct WeightTotals {
    pub left: Option<i32>,
    pub right: Option<i32>,
    /// The total last written to the log.
    pub logged: Option<i32>,
}

/// A new total weight.
#[derive(Debug, Clone, Copy, PartialEq, Eq, Structural)]
pub struct WeightReport {
    /// The total, in tenths of a gram.
    pub weight_dg: i32,
    /// Whether it differs from the total last written to the log.
    pub log: bool,
}

/// A weight, zero where none is known yet.
pub open spec fn or_zero(weight: Option<i32>) -> int {
    match weight {
        Some(w) => w as int,
        None => 0,
    }
}

/// The newer of two readings of a cell.
pub open spec fn newer(known: Option<i32>, new: Option<i32>) -> Option<i32> {
    if new is Some {
        new
    } else {
        known
    }
}

impl WeightTotals {
    /// The total once new readings have come in.
    pub open spec fn total_with(self, left: Option<i32>, right: Option<i32>) -> int {
        or_zero(newer(self.left, left)) + or_zero(newer(self.right, right))
    }

    /// No reading yet.
    pub fn new() -> (res: WeightTotals)
        ensures
            res == (WeightTotals { left: None, right: None, logged: None }),
    {
        WeightTotals { left: None, right: None, logged: None }
    }

    /// Whether the total stays within the range of `i32` with these readings.
    pub fn can_note(&self, left: Option<i32>, right: Option<i32>) -> (res: bool)
        ensures
            res <==> i32::MIN <= self.total_with(left, right) <= i32::MAX,
    {
        let left_known: Option<i32> = if left.is_some() { left } else { self.left };
        let right_known: Option<i32> = if right.is_some() { right } else { self.right };
        let left_dg: i32 = match left_known {
            Some(w) => w,
            None => 0,
        };
        let right_dg: i32 = match right_known {
            Some(w) => w,
            None => 0,
        };
        left_dg.checked_add(right_dg).is_some()
    }

    /// Take note of the readings that came in, and report the total if there were any.
    pub fn note(&mut self, left: Option<i32>, right: Option<i32>) -> (res: Option<WeightReport>)
        requires
            i32::MIN <= old(self).total_with(left, right) <= i32::MAX,
        ensures
            final(self).left == newer(old(self).left, left),
            final(self).right == newer(old(self).right, right),
            res is Some <==> left is Some || right is Some,
            match res {
                Some(report) => {
                    &&& report.weight_dg == old(self).total_with(left, right)
                    &&& report.log <==> old(self).logged != Some(report.weight_dg)
                    &&& final(self).logged == Some(report.weight_dg)
                },
                None => final(self).logged == old(self).logged,
            },
    {
        if left.is_some() {
            self.left = left;
        }
        if right.is_some() {
            self.right = right;
        }
        if left.is_none() && right.is_none() {
            return None;
        }
        let left_dg: i32 = match self.left {
            Some(w) => w,
            None => 0,
        };
        let right_dg: i32 = match self.right {
            Some(w) => w,
            None => 0,
        };
        let weight_dg: i32 = left_dg + right_dg;
        let log: bool = match self.logged {
            Some(logged) => logged != weight_dg,
            None => true,
        };
        self.logged = Some(weight_dg);
        Some(WeightReport { weight_dg, log })
    }
}

/// The weight that a filter with the given window makes of a sample, if any.
pub open spec fn filtered(window: Seq<i32>, raw: Option<i32>, calibration: ScaleCalibration) -> Option<i32> {
    match raw {
        Some(raw) if plausible(raw, calibration) => Some(
            calibration.decigrams(trimmed_mean(slid(window, raw))) as i32,
        ),
        _ => None,
    }
}

/// The window of a filter after a sample, or after there was none.
pub open spec fn window_after(window: Seq<i32>, raw: Option<i32>, calibration: ScaleCalibration) -> Seq<i32> {
    match raw {
        Some(raw) if plausible(raw, calibration) => slid(window, raw),
        _ => window,
    }
}

/// Whether the arithmetic of filtering stays within `i32`.
pub open spec fn filterable(window: Seq<i32>, raw: Option<i32>, calibration: ScaleCalibration) -> bool {
    raw matches Some(raw) ==> acceptable(window, raw, calibration)
}

/// The filters of both cells and the weights they have given.
pub struct Weighing {
    pub left_filter: ScaleReadingFilter,
    pub right_filter: ScaleReadingFilter,
    pub totals: WeightTotals,
}

impl Weighing {
    pub open spec fn wf(&self) -> bool {
        self.left_filter.wf() && self.right_filter.wf()
    }

    /// The weights that the filters make of a pair of samples.
    pub open spec fn weights(
        &self,
        left_raw: Option<i32>,
        right_raw: Option<i32>,
        calibration: DualScaleCalibration,
    ) -> (Option<i32>, Option<i32>) {
        (
            filtered(self.left_filter@, left_raw, calibration.left),
            filtered(self.right_filter@, right_raw, calibration.right),
        )
    }

    /// No sample yet.
    pub fn new() -> (res: Weighing)
        ensures
            res.wf(),
            res.left_filter@ == Seq::<i32>::empty(),
            res.right_filter@ == Seq::<i32>::empty(),
            res.totals == (WeightTotals { left: None, right: None, logged: None }),
    {
        Weighing {
            left_filter: ScaleReadingFilter::default(),
            right_filter: ScaleReadingFilter::default(),
            totals: WeightTotals::new(),
        }
    }

    /// Feed the samples that were ready, and report the total of both cells if there is a new
    /// weight.
    ///
    /// Fails, with the totals unchanged, where a number leaves the range of `i32`. If that number
    /// is the total, the samples have entered their windows.
    pub fn sample(
        &mut self,
        left_raw: Option<i32>,
        right_raw: Option<i32>,
        calibration: DualScaleCalibration,
    ) -> (res: Result<Option<WeightReport>, OutOfRange>)
        requires
            old(self).wf(),
        ensures
            final(self).wf(),
            ({
                let (left, right) = old(self).weights(left_raw, right_raw, calibration);
                let can_filter = {
                    &&& filterable(old(self).left_filter@, left_raw, calibration.left)
                    &&& filterable(old(self).right_filter@, right_raw, calibration.right)
                };
                let can_total = i32::MIN <= old(self).totals.total_with(left, right) <= i32::MAX;
                &&& res is Ok <==> can_filter && can_total
                &&& if can_filter {
                    &&& final(self).left_filter@ == window_after(old(self).left_filter@, left_raw, calibration.left)
                    &&& final(self).right_filter@ == window_after(old(self).right_filter@, right_raw, calibration.right)
                } else {
                    &&& final(self).left_filter@ == old(self).left_filter@
                    &&& final(self).right_filter@ == old(self).right_filter@
                }
                &&& match res {
                    Ok(news) => {
                        &&& final(self).totals.left == newer(old(self).totals.left, left)
                        &&& final(self).totals.right == newer(old(self).totals.right, right)
                        &&& news is Some <==> left is Some || right is Some
                        &&& match news {
                            Some(report) => {
                                &&& report.weight_dg == old(self).totals.total_with(left, right)
                                &&& report.log <==> old(self).totals.logged != Some(report.weight_dg)
                                &&& final(self).totals.logged == Some(report.weight_dg)
                            },
                            None => final(self).totals.logged == old(self).totals.logged,
                        }
                    },
                    Err(_) => final(self).totals == old(self).totals,
                }
            }),
    {
        if let Some(raw) = left_raw {
            if !self.left_filter.can_accept(raw, calibration.left) {
                return Err(OutOfRange);
            }
        }
        if let Some(raw) = right_raw {
            if !self.right_filter.can_accept(raw, calibration.right) {
                return Err(OutOfRange);
            }
        }
        let left: Option<i32> = match left_raw {
            Some(raw) => self.left_filter.accept(raw, calibration.left),
            None => None,
        };
        let right: Option<i32> = match right_raw {
            Some(raw) => self.right_filter.accept(raw, calibration.right),
            None => None,
        };
        if !self.totals.can_note(left, right) {
            return Err(OutOfRange);
        }
        Ok(self.totals.note(left, right))
    }
}

/// A number left the range of `i32`.
#[derive(Debug, Clone, Copy, PartialEq, Eq, Structural)]
pub struct OutOfRange;

} // verus!
