use std::time::{Duration, Instant};

use maratui::button::{Button, ButtonPressType, ButtonState, PressTracker, DOUBLE_PRESS_WINDOW_MS};

const MS: u128 = 1_000_000;

fn wait(duration: Duration) {
    let start = Instant::now();
    while start.elapsed() < duration {}
}

#[test]
fn test_button_press_type_display() {
    assert_eq!(ButtonPressType::Short.to_string(), "Short Press");
    assert_eq!(ButtonPressType::Long.to_string(), "Long Press");
}

#[test]
fn test_button_display() {
    assert_eq!(
        Button::Button1(ButtonPressType::Short).to_string(),
        "Button 1 (Short Press)"
    );
    assert_eq!(
        Button::Button1(ButtonPressType::Long).to_string(),
        "Button 1 (Long Press)"
    );
}

#[test]
fn test_double_press_display() {
    assert_eq!(ButtonPressType::Double.to_string(), "Double Press");
    assert_eq!(
        Button::Button1(ButtonPressType::Double).to_string(),
        "Button 1 (Double Press)"
    );
}

#[test]
fn test_button_is_short_press() {
    assert!(Button::Button1(ButtonPressType::Short).is_short_press());
    assert!(!Button::Button1(ButtonPressType::Long).is_short_press());
}

#[test]
fn test_button_is_long_press() {
    assert!(Button::Button1(ButtonPressType::Long).is_long_press());
    assert!(!Button::Button1(ButtonPressType::Short).is_long_press());
}

#[test]
fn test_button_state_short_press() {
    let mut state = ButtonState::default();
    let mut received: Option<ButtonPressType> = None;

    // Press
    state.update(true, |_| {});
    // Release immediately → short press
    state.update(false, |t| received = Some(t));

    assert_eq!(received, Some(ButtonPressType::Short));
}

#[test]
fn test_button_is_double_press() {
    assert!(Button::Button1(ButtonPressType::Double).is_double_press());
    assert!(!Button::Button1(ButtonPressType::Short).is_double_press());
}

#[test]
fn test_button_state_fast_second_short_press_is_a_double() {
    let mut state = ButtonState::default();
    let mut received: Vec<ButtonPressType> = Vec::new();

    // First short press.
    state.update(true, |_| {});
    state.update(false, |t| received.push(t));
    // Second short press, immediately after (well within the double-press window).
    state.update(true, |_| {});
    state.update(false, |t| received.push(t));

    assert_eq!(
        received,
        vec![ButtonPressType::Short, ButtonPressType::Double]
    );
}

#[test]
fn test_button_state_a_third_fast_press_starts_a_new_double_press_pair() {
    let mut state = ButtonState::default();
    let mut received: Vec<ButtonPressType> = Vec::new();

    for _ in 0..3 {
        state.update(true, |_| {});
        state.update(false, |t| received.push(t));
    }

    // Press 1+2 pair up into a Double; press 3 has nothing left to pair with, so it starts
    // a fresh pair and is a Short on its own.
    assert_eq!(
        received,
        vec![
            ButtonPressType::Short,
            ButtonPressType::Double,
            ButtonPressType::Short
        ]
    );
}

#[test]
fn test_button_state_slow_second_short_press_stays_two_shorts() {
    let mut state = ButtonState::default();
    let mut received: Vec<ButtonPressType> = Vec::new();

    state.update(true, |_| {});
    state.update(false, |t| received.push(t));
    wait(Duration::from_millis(DOUBLE_PRESS_WINDOW_MS + 100));
    state.update(true, |_| {});
    state.update(false, |t| received.push(t));

    assert_eq!(
        received,
        vec![ButtonPressType::Short, ButtonPressType::Short]
    );
}

#[test]
fn test_button_state_no_callback_when_not_pressed() {
    let mut state = ButtonState::default();
    let mut called = false;

    state.update(false, |_| called = true);

    assert!(!called);
}

#[test]
fn test_button_state_held_does_not_fire() {
    let mut state = ButtonState::default();
    let mut count = 0;

    // Multiple held-down ticks without release
    state.update(true, |_| count += 1);
    state.update(true, |_| count += 1);
    state.update(true, |_| count += 1);

    assert_eq!(count, 0);
}

#[test]
fn test_button_state_long_press() {
    let mut state = ButtonState::default();
    let mut received: Option<ButtonPressType> = None;

    state.update(true, |_| {});
    wait(Duration::from_millis(600));
    state.update(false, |t| received = Some(t));

    assert_eq!(received, Some(ButtonPressType::Long));
}

#[test]
fn test_held_for_false_before_threshold() {
    let mut state = ButtonState::default();
    state.update(true, |_| {});
    assert!(!state.held_for(true, Duration::from_secs(3).as_nanos()));
}

#[test]
fn test_held_for_false_when_not_pressed() {
    let mut state = ButtonState::default();
    assert!(!state.held_for(false, Duration::from_millis(0).as_nanos()));
}

#[test]
fn test_held_for_fires_once_then_suppresses_release_classification() {
    let mut state = ButtonState::default();
    let mut released: Option<ButtonPressType> = None;

    state.update(true, |_| {});
    wait(Duration::from_millis(50));
    assert!(state.held_for(true, Duration::from_millis(20).as_nanos()));
    // Fires only once even if still held and threshold keeps being exceeded.
    assert!(!state.held_for(true, Duration::from_millis(20).as_nanos()));

    state.update(false, |t| released = Some(t));
    // The hold already consumed this press, so release must not also fire Short/Long.
    assert_eq!(released, None);
}

#[test]
fn a_press_turns_long_at_half_a_second() {
    let mut tracker = PressTracker::new();
    assert_eq!(tracker.observe(true, 0), None);
    assert_eq!(tracker.observe(false, 500 * MS - 1), Some(ButtonPressType::Short));
    let mut tracker = PressTracker::new();
    assert_eq!(tracker.observe(true, 0), None);
    assert_eq!(tracker.observe(false, 500 * MS), Some(ButtonPressType::Long));
}

#[test]
fn a_pair_is_double_up_to_the_window() {
    for (release, expected) in [
        (500 * MS, ButtonPressType::Double),
        (501 * MS - 1, ButtonPressType::Double),
        (501 * MS, ButtonPressType::Short),
    ] {
        let mut tracker = PressTracker::new();
        tracker.observe(true, 0);
        assert_eq!(tracker.observe(false, 100 * MS), Some(ButtonPressType::Short));
        tracker.observe(true, 300 * MS);
        assert_eq!(tracker.observe(false, release), Some(expected));
    }
}

#[test]
fn a_long_press_between_two_shorts_breaks_the_pair() {
    let mut tracker = PressTracker::new();
    tracker.observe(true, 0);
    assert_eq!(tracker.observe(false, 10 * MS), Some(ButtonPressType::Short));
    tracker.observe(true, 20 * MS);
    assert_eq!(tracker.observe(false, 520 * MS), Some(ButtonPressType::Long));
    tracker.observe(true, 530 * MS);
    assert_eq!(tracker.observe(false, 540 * MS), Some(ButtonPressType::Short));
}

#[test]
fn a_held_press_is_silent_and_keeps_the_earlier_short() {
    let mut tracker = PressTracker::new();
    tracker.observe(true, 0);
    assert_eq!(tracker.observe(false, 10 * MS), Some(ButtonPressType::Short));
    tracker.observe(true, 20 * MS);
    assert!(!tracker.observe_hold(true, 49 * MS, 30 * MS));
    assert!(tracker.observe_hold(true, 50 * MS, 30 * MS));
    assert!(!tracker.observe_hold(true, 60 * MS, 30 * MS));
    assert_eq!(tracker.observe(false, 70 * MS), None);
    tracker.observe(true, 80 * MS);
    assert_eq!(tracker.observe(false, 90 * MS), Some(ButtonPressType::Double));
}

#[test]
fn a_zero_threshold_fires_at_once_but_only_while_down() {
    let mut tracker = PressTracker::new();
    assert!(!tracker.observe_hold(true, 5, 0));
    tracker.observe(true, 5);
    assert!(!tracker.observe_hold(false, 5, 0));
    assert!(tracker.observe_hold(true, 5, 0));
}

#[test]
fn an_idle_button_reports_nothing() {
    let mut tracker = PressTracker::new();
    for now in [0, 1, 1_000 * MS] {
        assert_eq!(tracker.observe(false, now), None);
        assert!(!tracker.observe_hold(false, now, 0));
        assert_eq!(tracker, PressTracker::new());
    }
}

#[test]
fn time_is_taken_from_the_clock() {
    let mut state = ButtonState::default();
    state.update(true, |_| {});
    assert!(!state.held_for(true, Duration::from_secs(30).as_nanos()));
    wait(Duration::from_millis(30));
    assert!(!state.held_for(true, Duration::from_secs(30).as_nanos()));
    assert!(state.held_for(true, Duration::from_millis(30).as_nanos()));
}

#[test]
fn doubles_come_directly_after_shorts() {
    let mut seed: u64 = 0x5eed_1234;
    let mut tracker = PressTracker::new();
    let mut now = 0;
    let mut down = false;
    let mut releases = 0;
    let mut presses: Vec<ButtonPressType> = Vec::new();
    for _ in 0..20_000 {
        seed = seed.wrapping_mul(6_364_136_223_846_793_005).wrapping_add(1_442_695_040_888_963_407);
        now += u128::from((seed >> 33) % 250) * MS;
        if (seed >> 50) % 4 == 0 {
            tracker.observe_hold((seed >> 52) % 2 == 0, now, 300 * MS);
        } else {
            let is_pressed = (seed >> 53) % 2 == 0;
            if down && !is_pressed {
                releases += 1;
            }
            down = is_pressed;
            presses.extend(tracker.observe(is_pressed, now));
        }
    }
    assert!(presses.contains(&ButtonPressType::Double));
    assert!(presses.contains(&ButtonPressType::Long));
    assert!(presses.len() < releases);
    for i in 0..presses.len() {
        if presses[i] == ButtonPressType::Double {
            assert!(i > 0 && presses[i - 1] == ButtonPressType::Short);
        }
    }
}
