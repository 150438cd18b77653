//! What the screens show.

pub mod calibration;
pub mod laws;
pub mod sides;

pub use calibration::{Area, CalibrationStep, CalibrationWizard, WizardColor, WizardContent, WizardScreen};
