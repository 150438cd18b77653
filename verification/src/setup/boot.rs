//! Starting up: the loading screen, and the calibration to begin with.

use vstd::prelude::*;

use crate::binary32::model::Binary32;
use crate::binary32::ops::of_int;
use crate::scale::calibration::{DualScaleCalibration, ScaleCalibration};

verus! {

/// How long each stage of the loading screen stays up at least, in nanoseconds.
pub const MIN_STAGE_NS: u128 = 800_000_000;

/// The stages of starting up.
#[derive(Debug, Clone, Copy, PartialEq, Eq, Structural)]
pub enum BootStage {
    Wifi,
    Mqtt,
    Uart,
}

impl BootStage {
    /// What the loading screen says.
    pub open spec fn text(self) -> Seq<char> {
        match self {
            BootStage::Wifi => "connecting wifi..."@,
            BootStage::Mqtt => "putting on hat..."@,
            BootStage::Uart => "heating up the machine..."@,
        }
    }

    /// How full the bar is, in percent.
    pub open spec fn percent(self) -> u8 {
        match self {
            BootStage::Wifi => 20,
            BootStage::Mqtt => 55,
            BootStage::Uart => 85,
        }
    }

    /// The stage that follows, once MQTT is known to be enabled or not.
    pub open spec fn following(self, mqtt_enabled: bool) -> Option<BootStage> {
        match self {
            BootStage::Wifi => if mqtt_enabled {
                Some(BootStage::Mqtt)
            } else {
                Some(BootStage::Uart)
            },
            BootStage::Mqtt => Some(BootStage::Uart),
            BootStage::Uart => None,
        }
    }

    /// What the loading screen says.
    pub fn message(self) -> (res: &'static str)
        ensures
            res@ == self.text(),
    {
        match self {
            BootStage::Wifi => "connecting wifi...",
            BootStage::Mqtt => "putting on hat...",
            BootStage::Uart => "heating up the machine...",
        }
    }

    /// How full the bar is, in percent.
    pub fn progress(self) -> (res: u8)
        ensures
            res == self.percent(),
    {
        match self {
            BootStage::Wifi => 20,
            BootStage::Mqtt => 55,
            BootStage::Uart => 85,
        }
    }

    /// The stage that follows.
    pub fn next(self, mqtt_enabled: bool) -> (res: Option<BootStage>)
        ensures
            res == self.following(mqtt_enabled),
    {
        match self {
            BootStage::Wifi => if mqtt_enabled {
                Some(BootStage::Mqtt)
            } else {
                Some(BootStage::Uart)
            },
            BootStage::Mqtt => Some(BootStage::Uart),
            BootStage::Uart => None,
        }
    }
}

/// How many milliseconds to wait, once `elapsed` nanoseconds of a stage are over, so that it
/// stays up long enough: the whole milliseconds that are missing, or `None` if none is owed.
pub fn min_stage_delay(elapsed: u128) -> (res: Option<u32>)
    ensures
        res is Some <==> elapsed < MIN_STAGE_NS,
        res matches Some(ms) ==> ms == (MIN_STAGE_NS - elapsed) / 1_000_000,
{
    if elapsed < MIN_STAGE_NS {
        Some(((MIN_STAGE_NS - elapsed) / 1_000_000) as u32)
    } else {
        None
    }
}

/// What storage says of the calibration.
#[derive(Debug, Clone, Copy)]
pub enum StoredBytes {
    /// There is no storage.
    Unavailable,
    /// Nothing was ever stored.
    Missing,
    /// Storage could not be read.
    Failed,
    Found([u8; 16]),
}

/// Counts per gram taken for granted until the scale is calibrated.
pub const ASSUMED_SCALE: i32 = 400;

/// The left cell's reading when empty, taken for granted until the scale is calibrated.
pub const ASSUMED_OFFSET_LEFT: i32 = -206_400;

/// The right cell's reading when empty, taken for granted until the scale is calibrated.
pub const ASSUMED_OFFSET_RIGHT: i32 = -431_000;

/// The calibration to fall back on: right about empty cells, but only roughly about grams.
pub open spec fn assumed_calibration() -> DualScaleCalibration {
    DualScaleCalibration {
        left: ScaleCalibration { offset: ASSUMED_OFFSET_LEFT, scale: of_int(ASSUMED_SCALE as int) },
        right: ScaleCalibration { offset: ASSUMED_OFFSET_RIGHT, scale: of_int(ASSUMED_SCALE as int) },
    }
}

/// The calibration to begin with.
pub open spec fn loaded(stored: StoredBytes) -> DualScaleCalibration {
    match stored {
        StoredBytes::Found(bytes) => DualScaleCalibration::restored(bytes@),
        _ => assumed_calibration(),
    }
}

/// The calibration to begin with: the stored one, or a fallback if none was ever saved or
/// storage is unavailable.
pub fn load_calibration(stored: StoredBytes) -> (res: DualScaleCalibration)
    ensures
        res == loaded(stored),
{
    match stored {
        StoredBytes::Found(bytes) => DualScaleCalibration::from_bytes(bytes),
        _ => DualScaleCalibration {
            left: ScaleCalibration {
                offset: ASSUMED_OFFSET_LEFT,
                scale: Binary32::from_i32(ASSUMED_SCALE),
            },
            right: ScaleCalibration {
                offset: ASSUMED_OFFSET_RIGHT,
                scale: Binary32::from_i32(ASSUMED_SCALE),
            },
        },
    }
}

} // verus!
