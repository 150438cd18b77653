//! The logic of a display and scale unit for an espresso machine.
//!
//! Nothing here touches hardware: what depends on pins, clocks, flash or the network takes plain
//! values and says what to do.

pub mod binary32;
pub mod button;
pub mod hx711;
pub mod mqtt;
pub mod scale;
pub mod screens;
pub mod setup;
