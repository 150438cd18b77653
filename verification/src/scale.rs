//! Calibration arithmetic and filtering for the HX711 load-cell amplifier.
//!
//! Nothing here touches pins or flash, so the same code serves the device and the host.

pub mod average_laws;
pub mod calibration;
pub mod cells;
pub mod cells_laws;
pub mod filter;
pub mod filter_laws;
pub mod laws;
pub mod order;
pub mod smoother;
pub mod smoother_laws;
pub mod weight_laws;

pub use calibration::{DualScaleCalibration, ScaleCalibration, CALIBRATION_REFERENCE_G};
pub use cells::{CalibrationRecord, CalibrationTask, Side, Weighing, WeightTotals};
pub use filter::ScaleReadingFilter;
pub use smoother::RawSignalSmoother;
