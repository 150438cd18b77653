//! Watching the Wi-Fi connection and bringing it back.

use vstd::prelude::*;

use crate::mqtt::messages::ConnectionStatus;
use crate::setup::timers::{due, is_due};

verus! {

/// How often the connection is looked at, in nanoseconds.
pub const WIFI_CHECK_INTERVAL_NS: u128 = 10_000_000_000;

/// How long to leave a broken connection alone between attempts, in nanoseconds.
pub const WIFI_RECONNECT_INTERVAL_NS: u128 = 15_000_000_000;

/// How to join a network.
#[derive(Debug, Clone, Copy, PartialEq, Eq, Structural)]
pub enum WifiAuth {
    /// Without encryption.
    Open,
    Wpa2Personal,
}

/// How to join a network, going by its password: one without is open.
pub fn wifi_auth(password: &str) -> (res: WifiAuth)
    ensures
        res == WifiAuth::Open <==> password@.len() == 0,
{
    if password.is_empty() {
        WifiAuth::Open
    } else {
        WifiAuth::Wpa2Personal
    }
}

/// The signal strength, given the driver's result code and what it filled in. Any code but zero
/// means that there is no connection.
pub fn wifi_rssi(code: i32, rssi: i8) -> (res: Option<i32>)
    ensures
        res is Some <==> code == 0,
        res matches Some(strength) ==> strength == rssi,
{
    if code == 0 {
        Some(rssi as i32)
    } else {
        None
    }
}

/// What is known of the Wi-Fi connection.
#[derive(Debug, Clone, Copy, PartialEq, Eq, Structural)]
pub struct WifiMonitor {
    pub last_check_at: Option<u128>,
    /// When bringing back the connection was last attempted, since it was last up.
    pub reconnect_at: Option<u128>,
    pub was_connected: bool,
}

/// What to do after a look at the connection.
#[derive(Debug, Clone, Copy, PartialEq, Eq, Structural)]
pub struct WifiReport {
    /// The status to announce, where it has changed.
    pub status: Option<ConnectionStatus>,
    /// Whether to attempt to bring the connection back.
    pub reconnect: bool,
}

impl WifiMonitor {
    /// What a look at the connection amounts to.
    pub open spec fn report(self, now: u128, is_connected: bool) -> WifiReport {
        WifiReport {
            status: if is_connected == self.was_connected {
                None
            } else if is_connected {
                Some(ConnectionStatus::Connected)
            } else {
                Some(ConnectionStatus::Disconnected)
            },
            reconnect: !is_connected && due(self.reconnect_at, now, WIFI_RECONNECT_INTERVAL_NS),
        }
    }

    /// What is known after a look at the connection.
    pub open spec fn after(self, now: u128, is_connected: bool) -> WifiMonitor {
        WifiMonitor {
            last_check_at: Some(now),
            reconnect_at: if is_connected {
                None
            } else if self.report(now, is_connected).reconnect {
                Some(now)
            } else {
                self.reconnect_at
            },
            was_connected: is_connected,
        }
    }

    /// A connection that has just come up.
    pub fn new() -> (res: WifiMonitor)
        ensures
            res == (WifiMonitor { last_check_at: None, reconnect_at: None, was_connected: true }),
    {
        WifiMonitor { last_check_at: None, reconnect_at: None, was_connected: true }
    }

    /// Whether to look at the connection now.
    pub fn check_is_due(&self, now: u128) -> (res: bool)
        ensures
            res == due(self.last_check_at, now, WIFI_CHECK_INTERVAL_NS),
    {
        is_due(self.last_check_at, now, WIFI_CHECK_INTERVAL_NS)
    }

    /// Take note of whether the connection is up.
    pub fn note(&mut self, now: u128, is_connected: bool) -> (res: WifiReport)
        ensures
            res == old(self).report(now, is_connected),
            *final(self) == old(self).after(now, is_connected),
    {
        self.last_check_at = Some(now);
        let status: Option<ConnectionStatus> = if is_connected == self.was_connected {
            None
        } else if is_connected {
            Some(ConnectionStatus::Connected)
        } else {
            Some(ConnectionStatus::Disconnected)
        };
        self.was_connected = is_connected;
        let mut reconnect: bool = false;
        if is_connected {
            self.reconnect_at = None;
        } else if is_due(self.reconnect_at, now, WIFI_RECONNECT_INTERVAL_NS) {
            self.reconnect_at = Some(now);
            reconnect = true;
        }
        WifiReport { status, reconnect }
    }
}

} // verus!
