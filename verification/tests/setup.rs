use maratui::binary32::Binary32;
use maratui::mqtt::ConnectionStatus;
use maratui::scale::{DualScaleCalibration, ScaleCalibration};
use maratui::setup::timers::{
    is_due, CALIBRATION_HOLD_NS, RAW_SMOOTHING_ALPHA_BITS, STANDALONE_AFTER_NS, STATUS_INTERVAL_NS,
};
use maratui::setup::{
    device_info, load_calibration, min_stage_delay, wifi_auth, wifi_rssi, BootStage, OfflineGate,
    RawReadout, StatusTimer, StoredBytes, WifiAuth, WifiMonitor, WifiReport,
};

const S: u128 = 1_000_000_000;
const MS: u128 = 1_000_000;

fn cal(offset: i32, scale: f32) -> ScaleCalibration {
    ScaleCalibration { offset, scale: Binary32::from_bits(scale.to_bits()) }
}

#[test]
fn intervals_are_in_seconds() {
    assert_eq!(CALIBRATION_HOLD_NS, 3 * S);
    assert_eq!(STATUS_INTERVAL_NS, 30 * S);
    assert_eq!(STANDALONE_AFTER_NS, 5 * S);
    assert_eq!(RAW_SMOOTHING_ALPHA_BITS, 0.2f32.to_bits());
}

#[test]
fn something_is_due_when_its_interval_is_over() {
    assert!(is_due(None, 0, 10));
    assert!(!is_due(Some(5), 14, 10));
    assert!(is_due(Some(5), 15, 10));
    assert!(!is_due(Some(50), 15, 10));
    assert!(is_due(Some(50), 15, 0));
}

#[test]
fn status_is_reported_every_half_minute() {
    let mut timer = StatusTimer::new();
    assert!(timer.poll(7 * S));
    assert!(!timer.poll(37 * S - 1));
    assert!(timer.poll(37 * S));
    assert!(!timer.poll(66 * S));
    assert!(timer.poll(68 * S));
}

#[test]
fn offline_mode_is_entered_once_after_five_seconds_of_silence() {
    let mut gate = OfflineGate::new(2 * S);
    assert!(!gate.poll(false, 7 * S - 1));
    assert!(!gate.poll(true, 8 * S));
    assert!(gate.poll(false, 8 * S));
    assert!(!gate.poll(false, 9 * S));
    assert!(!gate.poll(true, 90 * S));
}

#[test]
fn stages_stay_up_for_800_milliseconds() {
    assert_eq!(min_stage_delay(0), Some(800));
    assert_eq!(min_stage_delay(1), Some(799));
    assert_eq!(min_stage_delay(300 * MS), Some(500));
    assert_eq!(min_stage_delay(800 * MS - 1), Some(0));
    assert_eq!(min_stage_delay(800 * MS), None);
    assert_eq!(min_stage_delay(5 * S), None);
}

#[test]
fn boot_stages_follow_each_other() {
    let stage = BootStage::Wifi;
    assert_eq!((stage.message(), stage.progress()), ("connecting wifi...", 20));
    assert_eq!(stage.next(false), Some(BootStage::Uart));
    let stage = stage.next(true).unwrap();
    assert_eq!((stage.message(), stage.progress()), ("putting on hat...", 55));
    let stage = stage.next(true).unwrap();
    assert_eq!((stage.message(), stage.progress()), ("heating up the machine...", 85));
    assert_eq!(stage.next(true), None);
}

#[test]
fn calibration_falls_back_where_nothing_is_stored() {
    let assumed = DualScaleCalibration { left: cal(-206_400, 400.0), right: cal(-431_000, 400.0) };
    for stored in [StoredBytes::Unavailable, StoredBytes::Missing, StoredBytes::Failed] {
        assert_eq!(load_calibration(stored), assumed);
    }
    assert!(assumed.left.is_valid() && assumed.right.is_valid());
    assert_eq!(assumed.left.raw_to_decigrams(-206_400), 0);
    assert_eq!(assumed.right.raw_to_decigrams(-431_000), 0);
}

#[test]
fn stored_calibration_is_loaded() {
    let saved = DualScaleCalibration { left: cal(-12345, 420.5), right: cal(9876, 77.5) };
    assert_eq!(load_calibration(StoredBytes::Found(saved.to_bytes())), saved);
    assert_eq!(load_calibration(StoredBytes::Found([0; 16])), DualScaleCalibration::default());
}

#[test]
fn a_network_without_a_password_is_open() {
    assert_eq!(wifi_auth(""), WifiAuth::Open);
    assert_eq!(wifi_auth(" "), WifiAuth::Wpa2Personal);
    assert_eq!(wifi_auth("espresso"), WifiAuth::Wpa2Personal);
}

#[test]
fn signal_strength_needs_a_connection() {
    assert_eq!(wifi_rssi(0, -61), Some(-61));
    assert_eq!(wifi_rssi(0x300f, -61), None);
    assert_eq!(wifi_rssi(-1, 0), None);
}

#[test]
fn wifi_is_watched_every_ten_seconds() {
    let mut monitor = WifiMonitor::new();
    assert!(monitor.check_is_due(0));
    assert_eq!(monitor.note(0, true), WifiReport { status: None, reconnect: false });
    assert!(!monitor.check_is_due(10 * S - 1));
    assert!(monitor.check_is_due(10 * S));
}

#[test]
fn a_broken_connection_is_brought_back() {
    let mut monitor = WifiMonitor::new();
    let down = Some(ConnectionStatus::Disconnected);
    assert_eq!(monitor.note(0, false), WifiReport { status: down, reconnect: true });
    assert_eq!(monitor.note(10 * S, false), WifiReport { status: None, reconnect: false });
    assert_eq!(monitor.note(15 * S - 1, false), WifiReport { status: None, reconnect: false });
    assert_eq!(monitor.note(15 * S, false), WifiReport { status: None, reconnect: true });
    assert_eq!(monitor.note(25 * S, false), WifiReport { status: None, reconnect: false });
    let up = Some(ConnectionStatus::Connected);
    assert_eq!(monitor.note(26 * S, true), WifiReport { status: up, reconnect: false });
    assert_eq!(monitor.note(27 * S, false), WifiReport { status: down, reconnect: true });
}

#[test]
fn reports_count_whole_seconds() {
    let name = "home".to_owned();
    let info = device_info(
        Some(&name),
        Some(-50),
        Some("10.0.0.7".to_owned()),
        123_456,
        2 * S,
        Some(10 * S + 1),
        13 * S,
    );
    assert_eq!(info.wifi_ssid, "home");
    assert_eq!(info.wifi_rssi, Some(-50));
    assert_eq!(info.ip.as_deref(), Some("10.0.0.7"));
    assert_eq!(info.free_heap_b, Some(123_456));
    assert_eq!(info.uptime_s, 11);
    assert_eq!(info.last_telemetry_age_s, Some(2));
    let info = device_info(None, None, None, 0, 9 * S, None, 3 * S);
    assert_eq!(info.wifi_ssid, "");
    assert_eq!(info.uptime_s, 0);
    assert_eq!(info.last_telemetry_age_s, None);
}

#[test]
fn raw_readout_damps_each_cell() {
    let mut readout = RawReadout::new();
    assert_eq!(readout.sample(None, None), None);
    assert_eq!(readout.sample(Some(1000), None), Some((Some(1000), None)));
    assert_eq!(readout.sample(Some(2000), Some(-50)), Some((Some(1200), Some(-50))));
    assert_eq!(readout.sample(None, Some(-150)), Some((None, Some(-70))));
}
