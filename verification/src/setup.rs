//! The decisions around the device's main loop: booting, timers, and watching the Wi-Fi.
//!
//! Times are in nanoseconds on one monotonic clock.

pub mod boot;
pub mod laws;
pub mod timers;
pub mod wifi;

pub use boot::{load_calibration, min_stage_delay, BootStage, StoredBytes};
pub use timers::{device_info, DeviceInfo, OfflineGate, RawReadout, StatusTimer};
pub use wifi::{wifi_auth, wifi_rssi, WifiAuth, WifiMonitor, WifiReport};
