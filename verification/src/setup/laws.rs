//! What holds of booting, timers and the Wi-Fi watch over time.

use vstd::prelude::*;

use crate::binary32::laws::{lemma_of_int, lemma_of_int_exact};
use crate::binary32::model::{lemma_units_grid, rounds_to, Binary32};
use crate::binary32::ops::{of_int, whole};
use crate::mqtt::messages::ConnectionStatus;
use crate::scale::calibration::DualScaleCalibration;
use crate::scale::cells::CalibrationRecord;
use crate::scale::laws::{
    law_dual_calibration_survives_storage, law_dual_stored_bytes_survive_reading,
    law_zero_point_reads_zero,
};
use crate::scale::smoother::blended;
use crate::setup::boot::{
    assumed_calibration, loaded, BootStage, StoredBytes, ASSUMED_OFFSET_LEFT, ASSUMED_OFFSET_RIGHT,
    MIN_STAGE_NS,
};
use crate::setup::timers::{
    due, readout_after, readout_of, secs_between, OfflineGate, RAW_SMOOTHING_ALPHA_BITS,
    STANDALONE_AFTER_NS, STATUS_INTERVAL_NS,
};
use crate::setup::wifi::{WifiMonitor, WIFI_CHECK_INTERVAL_NS, WIFI_RECONNECT_INTERVAL_NS};

verus! {

/// The loading bar only ever moves forward, and stops short of full.
pub proof fn law_progress_moves_forward(stage: BootStage, mqtt_enabled: bool)
    ensures
        stage.percent() < 100,
        stage.following(mqtt_enabled) matches Some(next) ==> stage.percent() < next.percent(),
        stage.following(mqtt_enabled) is None <==> stage == BootStage::Uart,
{
}

/// The fallback is a valid calibration, and reads zero on empty cells.
pub proof fn law_fallback_reads_zero_when_empty()
    ensures
        assumed_calibration().left.valid(),
        assumed_calibration().right.valid(),
        assumed_calibration().left.decigrams(ASSUMED_OFFSET_LEFT as int) == 0,
        assumed_calibration().right.decigrams(ASSUMED_OFFSET_RIGHT as int) == 0,
{
    law_zero_point_reads_zero(assumed_calibration().left);
    law_zero_point_reads_zero(assumed_calibration().right);
    lemma_of_int(400);
    vstd::arithmetic::power2::lemma_pow2_pos(126);
    vstd::arithmetic::power2::lemma_pow2_strictly_increases(126, 149);
}

/// Something that has just been done is not due again before its interval is over, and is due
/// from then on.
pub proof fn law_interval_is_kept(then: u128, now: u128, interval: u128)
    requires
        interval > 0,
    ensures
        due(Some(then), now, interval) <==> now >= then + interval,
{
}

/// Offline mode is entered once at most.
pub proof fn law_offline_mode_is_entered_once(gate: OfflineGate, frame_seen: bool, now: u128)
    requires
        gate.entered,
    ensures
        !gate.enters(frame_seen, now),
{
}

/// A machine that has been heard from keeps the device out of offline mode.
pub proof fn law_telemetry_keeps_the_device_online(gate: OfflineGate, now: u128)
    ensures
        !gate.enters(true, now),
{
}

/// One look at the connection.
pub struct WifiLook {
    pub now: u128,
    pub is_connected: bool,
}

/// What is known after a number of looks.
pub open spec fn after_looks(monitor: WifiMonitor, looks: Seq<WifiLook>) -> WifiMonitor
    decreases looks.len(),
{
    if looks.len() == 0 {
        monitor
    } else {
        after_looks(monitor, looks.drop_last()).after(looks.last().now, looks.last().is_connected)
    }
}

/// Whether the last of a number of looks asks for an attempt to reconnect.
pub open spec fn asks_at_last(monitor: WifiMonitor, looks: Seq<WifiLook>) -> bool {
    looks.len() > 0 && after_looks(monitor, looks.drop_last()).report(
        looks.last().now,
        looks.last().is_connected,
    ).reconnect
}

/// A status is announced just where it differs from the one before, so that the announcements
/// alternate.
pub proof fn law_status_is_announced_on_change(monitor: WifiMonitor, looks: Seq<WifiLook>, next: WifiLook)
    requires
        looks.len() > 0,
    ensures
        ({
            let status = after_looks(monitor, looks).report(next.now, next.is_connected).status;
            &&& status is Some <==> next.is_connected != looks.last().is_connected
            &&& status matches Some(s) ==> {
                &&& s == ConnectionStatus::Connected <==> next.is_connected
                &&& s == ConnectionStatus::Disconnected <==> !next.is_connected
            }
        }),
{
}

/// A connection that breaks is brought back at once, and one that is up is left alone.
pub proof fn law_new_break_is_answered_at_once(monitor: WifiMonitor, now: u128, later: u128)
    ensures
        !monitor.report(now, true).reconnect,
        monitor.after(now, true).report(later, false).reconnect,
{
}

/// Between two attempts while the connection stays down there is at least the interval. The
/// looks are in order of time.
pub proof fn law_attempts_keep_their_distance(monitor: WifiMonitor, looks: Seq<WifiLook>, i: int, j: int)
    requires
        0 <= i < j < looks.len(),
        forall|k: int, l: int|
            0 <= k <= l < looks.len() ==> (#[trigger] looks[k]).now <= (#[trigger] looks[l]).now,
        forall|k: int| i <= k <= j ==> !(#[trigger] looks[k]).is_connected,
        asks_at_last(monitor, looks.take(i + 1)),
        asks_at_last(monitor, looks.take(j + 1)),
    ensures
        looks[j].now >= looks[i].now + WIFI_RECONNECT_INTERVAL_NS,
{
    lemma_attempt_is_remembered(monitor, looks, i, j);
    assert(looks.take(j + 1).drop_last() =~= looks.take(j));
}

/// While the connection stays down, an attempt made at look `i` is remembered before look `j`,
/// or a later one is.
proof fn lemma_attempt_is_remembered(monitor: WifiMonitor, looks: Seq<WifiLook>, i: int, j: int)
    requires
        0 <= i < j <= looks.len(),
        forall|k: int, l: int|
            0 <= k <= l < looks.len() ==> (#[trigger] looks[k]).now <= (#[trigger] looks[l]).now,
        forall|k: int| i <= k < j ==> !(#[trigger] looks[k]).is_connected,
        asks_at_last(monitor, looks.take(i + 1)),
    ensures
        after_looks(monitor, looks.take(j)).reconnect_at is Some,
        after_looks(monitor, looks.take(j)).reconnect_at->0 >= looks[i].now,
    decreases j,
{
    let so_far = looks.take(j);
    assert(so_far.last() == looks[j - 1]);
    if j == i + 1 {
    } else {
        lemma_attempt_is_remembered(monitor, looks, i, j - 1);
        assert(so_far.drop_last() =~= looks.take(j - 1));
        assert(!looks[j - 1].is_connected);
        assert(looks[i].now <= looks[j - 1].now);
    }
}

/// A stage of the loading screen that is waited for stays up for its time, short of a
/// millisecond.
pub proof fn law_stage_stays_up(elapsed: u128)
    requires
        elapsed < MIN_STAGE_NS,
    ensures
        MIN_STAGE_NS - 1_000_000 < elapsed + (MIN_STAGE_NS - elapsed) / 1_000_000 * 1_000_000
            <= MIN_STAGE_NS,
{
}

/// What a finished calibration has stored is what the device begins with when it comes back.
pub proof fn law_stored_calibration_is_loaded(record: CalibrationRecord, bytes: [u8; 16])
    requires
        bytes@ == record.stored.stored(),
    ensures
        loaded(StoredBytes::Found(bytes)) == record.stored,
{
    law_dual_calibration_survives_storage(record.stored);
}

/// While the connection is down, an attempt is made at every look 15 s or more after the last
/// one, and at none sooner.
pub proof fn law_attempts_are_made_again(monitor: WifiMonitor, attempt: u128, now: u128)
    requires
        monitor.reconnect_at == Some(attempt),
    ensures
        monitor.report(now, false).reconnect <==> now >= attempt + 15_000_000_000,
{
}

/// The last attempt to reconnect that a number of looks has asked for since the connection was
/// last seen up.
pub open spec fn last_attempt(looks: Seq<WifiLook>) -> Option<u128>
    decreases looks.len(),
{
    if looks.len() == 0 {
        None
    } else if looks.last().is_connected {
        None
    } else if asks_at_last(just_up(), looks) {
        Some(looks.last().now)
    } else {
        last_attempt(looks.drop_last())
    }
}

/// A connection that has just come up.
pub open spec fn just_up() -> WifiMonitor {
    WifiMonitor { last_check_at: None, reconnect_at: None, was_connected: true }
}

proof fn lemma_looks(looks: Seq<WifiLook>)
    ensures
        ({
            let monitor = after_looks(just_up(), looks);
            &&& monitor.reconnect_at == last_attempt(looks)
            &&& monitor.was_connected == (looks.len() == 0 || looks.last().is_connected)
            &&& monitor.last_check_at == if looks.len() == 0 {
                None
            } else {
                Some(looks.last().now)
            }
        }),
    decreases looks.len(),
{
    if looks.len() > 0 {
        lemma_looks(looks.drop_last());
    }
}

/// After any number of looks, the next one asks for an attempt just where it finds the
/// connection down and none has been made since it was last up, or the last one was 15 s ago or
/// more. It announces a status just where it differs from what the look before found, or, at the
/// first look, from a connection that is up. Looks are due from the start and every 10 s.
pub proof fn law_look_is_answered_by_what_went_before(looks: Seq<WifiLook>, next: WifiLook)
    ensures
        ({
            let monitor = after_looks(just_up(), looks);
            let report = monitor.report(next.now, next.is_connected);
            let was_up = looks.len() == 0 || looks.last().is_connected;
            &&& report.reconnect <==> !next.is_connected && match last_attempt(looks) {
                Some(then) => next.now >= then + 15_000_000_000,
                None => true,
            }
            &&& report.status == Some(ConnectionStatus::Connected) <==> next.is_connected && !was_up
            &&& report.status == Some(ConnectionStatus::Disconnected) <==> !next.is_connected
                && was_up
            &&& report.status is None <==> next.is_connected == was_up
            &&& due(monitor.last_check_at, next.now, WIFI_CHECK_INTERVAL_NS) <==> looks.len() == 0
                || next.now >= looks.last().now + 10_000_000_000
        }),
{
    lemma_looks(looks);
}

/// What was never done is due, and what was done later than now is not, unless at once.
pub proof fn law_first_time_is_due(then: u128, now: u128, interval: u128)
    ensures
        due(None, now, interval),
        due(Some(then), now, 0),
        now < then && interval > 0 ==> !due(Some(then), now, interval),
        due(Some(then), now, STATUS_INTERVAL_NS) <==> now >= then + 30_000_000_000,
{
}

/// Whole seconds are those that have passed in full; there are none before the start.
pub proof fn law_seconds_are_whole(then: u128, now: u128)
    ensures
        now >= then ==> secs_between(then, now) * 1_000_000_000 <= now - then < (secs_between(
            then,
            now,
        ) + 1) * 1_000_000_000,
        now < then ==> secs_between(then, now) == 0,
{
}

/// The device goes on alone at the first poll 5 s or more after it began to wait, if nothing has
/// been heard by then, and not again.
pub proof fn law_device_goes_on_alone_after_five_seconds(started: u128, frame_seen: bool, now: u128)
    requires
        started + STANDALONE_AFTER_NS <= u128::MAX,
    ensures
        ({
            let opens_at = (started + STANDALONE_AFTER_NS) as u128;
            &&& (OfflineGate { opens_at, entered: false }).enters(frame_seen, now) <==> !frame_seen
                && now >= started + 5_000_000_000
            &&& !(OfflineGate { opens_at, entered: true }).enters(frame_seen, now)
        }),
{
}

/// Without a stored calibration both cells take 400 counts for a gram, the left one from
/// -206,400 and the right one from -431,000 counts; what is stored is taken as it is.
pub proof fn law_fallback_is_taken_only_without_storage(bytes: [u8; 16], saved: DualScaleCalibration)
    ensures
        loaded(StoredBytes::Unavailable) == loaded(StoredBytes::Missing),
        loaded(StoredBytes::Failed) == loaded(StoredBytes::Missing),
        ({
            let fallback = loaded(StoredBytes::Missing);
            let factor = 400 * vstd::arithmetic::power2::pow2(149);
            &&& fallback.left.offset == -206_400
            &&& fallback.right.offset == -431_000
            &&& fallback.left.scale.value() == factor
            &&& fallback.right.scale.value() == factor
        }),
        bytes@ == saved.stored() ==> loaded(StoredBytes::Found(bytes)) == saved,
        loaded(StoredBytes::Found(bytes)).stored() == bytes@,
{
    lemma_of_int(400);
    lemma_of_int_exact(400);
    law_dual_calibration_survives_storage(saved);
    law_dual_stored_bytes_survive_reading(bytes@);
}

/// A cell without a new sample shows nothing and keeps its average; one with a sample shows its
/// average. The weight of a new sample is the number nearest to one fifth.
pub proof fn law_readout_follows_its_samples(running: Option<Binary32>, raw: i32)
    ensures
        readout_after(running, None) == running,
        readout_of(running, None) is None,
        readout_after(None, Some(raw)) == Some(of_int(raw as int)),
        readout_after(running, Some(raw)) == Some(
            blended(running, raw as int, Binary32 { bits: RAW_SMOOTHING_ALPHA_BITS }),
        ),
        readout_of(running, Some(raw)) == Some(whole(readout_after(running, Some(raw))->0)),
        rounds_to(vstd::arithmetic::power2::pow2(149), 5, RAW_SMOOTHING_ALPHA_BITS as nat),
{
    vstd::arithmetic::power2::lemma2_to64();
    vstd::arithmetic::power2::lemma_pow2_adds(123, 26);
    lemma_units_grid(123, 0xcc_cccc);
    lemma_units_grid(123, 0xcc_cccd);
    lemma_units_grid(123, 0xcc_ccce);
    vstd::arithmetic::power2::lemma_pow2_pos(123);
}

} // verus!
