//! The protocol of the HX711 24-bit ADC (load-cell amplifier), without its pins.
//!
//! `SCK` idles low. Once `DOUT` goes low a conversion is ready; 24 clock pulses shift out the
//! result, most significant bit first, and one extra pulse selects gain 128 on channel A for the
//! next conversion. [`SampleRead`] says which pin operation comes next and takes note of its
//! outcome; [`AverageRead`] collects several samples against a deadline.

pub mod average;
pub mod laws;
pub mod sample;

pub use average::{AverageAction, AverageRead};
pub use sample::{PinAction, PinEvent, SampleRead};
