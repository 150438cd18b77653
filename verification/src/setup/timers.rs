//! What the main loop does by the clock.

use vstd::prelude::*;

use crate::binary32::model::Binary32;
use crate::binary32::ops::whole;
use crate::button::nanos_between;
use crate::scale::smoother::{blended, RawSignalSmoother};

verus! {

/// How long Button1 must be held to start the scale calibration wizard.
pub const CALIBRATION_HOLD_NS: u128 = 3_000_000_000;

/// How often the device reports on itself.
pub const STATUS_INTERVAL_NS: u128 = 30_000_000_000;

/// How long to wait for the machine's first word before going on without it.
pub const STANDALONE_AFTER_NS: u128 = 5_000_000_000;

/// The bit pattern of the weight, one fifth, that a new raw sample has in the raw readout.
pub const RAW_SMOOTHING_ALPHA_BITS: u32 = 0x3e4c_cccd;

/// Whether something last done at `last`, if ever, is to be done again.
pub open spec fn due(last: Option<u128>, now: u128, interval: u128) -> bool {
    match last {
        Some(then) => nanos_between(then, now) >= interval,
        None => true,
    }
}

/// Whether something last done at `last`, if ever, is to be done again.
pub fn is_due(last: Option<u128>, now: u128, interval: u128) -> (res: bool)
    ensures
        res == due(last, now, interval),
{
    match last {
        Some(then) => {
            let elapsed: u128 = if now > then {
                now - then
            } else {
                0
            };
            elapsed >= interval
        },
        None => true,
    }
}

/// When the device last reported on itself.
#[derive(Debug, Clone, Copy, PartialEq, Eq, Structural)]
pub struct StatusTimer {
    pub last: Option<u128>,
}

impl StatusTimer {
    /// No report yet.
    pub fn new() -> (res: StatusTimer)
        ensures
            res.last is None,
    {
        StatusTimer { last: None }
    }

    /// Whether to report now.
    pub fn poll(&mut self, now: u128) -> (res: bool)
        ensures
            res == due(old(self).last, now, STATUS_INTERVAL_NS),
            final(self).last == if res {
                Some(now)
            } else {
                old(self).last
            },
    {
        if is_due(self.last, now, STATUS_INTERVAL_NS) {
            self.last = Some(now);
            true
        } else {
            false
        }
    }
}

/// Whole seconds from `then` to `now`.
pub open spec fn secs_between(then: u128, now: u128) -> nat {
    nanos_between(then, now) / 1_000_000_000
}

fn elapsed_secs(then: u128, now: u128) -> (res: u64)
    requires
        now / 1_000_000_000 <= u64::MAX,
    ensures
        res == secs_between(then, now),
{
    if now > then {
        ((now - then) / 1_000_000_000) as u64
    } else {
        0
    }
}

/// What the device reports on itself.
#[derive(Debug)]
pub struct DeviceInfo {
    pub wifi_ssid: String,
    pub wifi_rssi: Option<i32>,
    pub ip: Option<String>,
    pub uptime_s: u64,
    pub free_heap_b: Option<u32>,
    pub last_telemetry_age_s: Option<u64>,
}

/// Put together a report. The name of the network is empty where none is configured.
pub fn device_info(
    ssid: Option<&String>,
    wifi_rssi: Option<i32>,
    ip: Option<String>,
    free_heap_b: u32,
    boot_time: u128,
    last_frame_at: Option<u128>,
    now: u128,
) -> (res: DeviceInfo)
    requires
        now / 1_000_000_000 <= u64::MAX,
    ensures
        res.wifi_ssid@ == match ssid {
            Some(name) => name@,
            None => Seq::<char>::empty(),
        },
        res.wifi_rssi == wifi_rssi,
        res.ip == ip,
        res.free_heap_b == Some(free_heap_b),
        res.uptime_s == secs_between(boot_time, now),
        match last_frame_at {
            Some(then) => res.last_telemetry_age_s is Some && res.last_telemetry_age_s->0
                == secs_between(then, now),
            None => res.last_telemetry_age_s is None,
        },
{
    DeviceInfo {
        wifi_ssid: match ssid {
            Some(name) => name.clone(),
            None => String::new(),
        },
        wifi_rssi,
        ip,
        uptime_s: elapsed_secs(boot_time, now),
        free_heap_b: Some(free_heap_b),
        last_telemetry_age_s: match last_frame_at {
            Some(then) => Some(elapsed_secs(then, now)),
            None => None,
        },
    }
}

/// Whether and when the device goes on without the machine.
#[derive(Debug, Clone, Copy, PartialEq, Eq, Structural)]
pub struct OfflineGate {
    pub opens_at: u128,
    pub entered: bool,
}

impl OfflineGate {
    /// Whether offline mode is entered now.
    pub open spec fn enters(self, frame_seen: bool, now: u128) -> bool {
        !self.entered && !frame_seen && now >= self.opens_at
    }

    /// Start waiting for the machine.
    pub fn new(now: u128) -> (res: OfflineGate)
        requires
            now + STANDALONE_AFTER_NS <= u128::MAX,
        ensures
            res == (OfflineGate { opens_at: (now + STANDALONE_AFTER_NS) as u128, entered: false }),
    {
        OfflineGate { opens_at: now + STANDALONE_AFTER_NS, entered: false }
    }

    /// Whether to enter offline mode now.
    pub fn poll(&mut self, frame_seen: bool, now: u128) -> (res: bool)
        ensures
            res == old(self).enters(frame_seen, now),
            final(self).opens_at == old(self).opens_at,
            final(self).entered == (old(self).entered || res),
    {
        if !self.entered && !frame_seen && now >= self.opens_at {
            self.entered = true;
            true
        } else {
            false
        }
    }
}

/// The damped raw counts of both cells, for checking the wiring before any calibration.
pub struct RawReadout {
    pub left: RawSignalSmoother,
    pub right: RawSignalSmoother,
}

/// The running average after a sample, or after there was none.
pub open spec fn readout_after(running: Option<Binary32>, raw: Option<i32>) -> Option<Binary32> {
    match raw {
        Some(raw) => Some(
            blended(running, raw as int, Binary32 { bits: RAW_SMOOTHING_ALPHA_BITS }),
        ),
        None => running,
    }
}

/// What is shown of a cell: its running average if there was a sample.
pub open spec fn readout_of(running: Option<Binary32>, raw: Option<i32>) -> Option<int> {
    match raw {
        Some(_) => Some(whole(readout_after(running, raw)->0)),
        None => None,
    }
}

/// Whether a shown value is the given number, or both are missing.
pub open spec fn shows(shown: Option<i32>, value: Option<int>) -> bool {
    match value {
        Some(v) => shown is Some && shown->0 == v,
        None => shown is None,
    }
}

fn damp(smoother: &mut RawSignalSmoother, raw: Option<i32>) -> (res: Option<i32>)
    ensures
        final(smoother)@ == readout_after(old(smoother)@, raw),
        shows(res, readout_of(old(smoother)@, raw)),
{
    match raw {
        Some(raw) => Some(smoother.smooth(raw, Binary32::from_bits(RAW_SMOOTHING_ALPHA_BITS))),
        None => None,
    }
}

impl RawReadout {
    /// No sample yet.
    pub fn new() -> (res: RawReadout)
        ensures
            res.left@ is None,
            res.right@ is None,
    {
        RawReadout { left: RawSignalSmoother::default(), right: RawSignalSmoother::default() }
    }

    /// Blend in the samples that were ready. Reports what to show, left and right, if there were
    /// any.
    pub fn sample(&mut self, left_raw: Option<i32>, right_raw: Option<i32>) -> (res: Option<
        (Option<i32>, Option<i32>),
    >)
        ensures
            final(self).left@ == readout_after(old(self).left@, left_raw),
            final(self).right@ == readout_after(old(self).right@, right_raw),
            res is Some <==> left_raw is Some || right_raw is Some,
            res matches Some((left, right)) ==> {
                &&& shows(left, readout_of(old(self).left@, left_raw))
                &&& shows(right, readout_of(old(self).right@, right_raw))
            },
    {
        if left_raw.is_none() && right_raw.is_none() {
            return None;
        }
        let left: Option<i32> = damp(&mut self.left, left_raw);
        let right: Option<i32> = damp(&mut self.right, right_raw);
        Some((left, right))
    }
}

} // verus!
