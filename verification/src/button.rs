//! Push-button handling: telling short, long and double presses apart.
//!
//! [`PressTracker`] is the state machine, driven by explicit times. [`ButtonState`] drives it
//! from the monotonic clock.

pub mod laws;

use std::time::Instant;

use vstd::prelude::*;

verus! {

/// Type of button press: short, long, or a fast double short-press.
#[derive(Debug, Clone, Copy, PartialEq, Eq, Structural)]
pub enum ButtonPressType {
    Short,
    Long,
    /// Two short presses released in quick succession (see [`DOUBLE_PRESS_WINDOW_MS`]).
    Double,
}

impl ButtonPressType {
    /// The text shown for a press.
    pub open spec fn text(self) -> Seq<char> {
        match self {
            ButtonPressType::Short => "Short Press"@,
            ButtonPressType::Long => "Long Press"@,
            ButtonPressType::Double => "Double Press"@,
        }
    }

    /// The text shown for a press.
    pub fn to_string(&self) -> (res: String)
        ensures
            res@ == self.text(),
    {
        match self {
            ButtonPressType::Short => "Short Press".to_owned(),
            ButtonPressType::Long => "Long Press".to_owned(),
            ButtonPressType::Double => "Double Press".to_owned(),
        }
    }
}

/// A button together with what happened to it.
#[derive(Debug, Clone, Copy, PartialEq, Eq, Structural)]
pub enum Button {
    Button1(ButtonPressType),
}

impl Button {
    /// The text shown for a button action.
    pub open spec fn text(self) -> Seq<char> {
        match self {
            Button::Button1(press_type) => "Button 1 ("@ + press_type.text() + ")"@,
        }
    }

    /// The text shown for a button action.
    pub fn to_string(&self) -> (res: String)
        ensures
            res@ == self.text(),
    {
        match self {
            Button::Button1(press_type) => {
                let mut text: String = "Button 1 (".to_owned();
                let press: String = press_type.to_string();
                text.append(press.as_str());
                text.append(")");
                text
            },
        }
    }

    /// Check if a short press was detected.
    pub fn is_short_press(&self) -> (res: bool)
        ensures
            res <==> *self == Button::Button1(ButtonPressType::Short),
    {
        matches!(self, Button::Button1(ButtonPressType::Short))
    }

    /// Check if a long press was detected.
    pub fn is_long_press(&self) -> (res: bool)
        ensures
            res <==> *self == Button::Button1(ButtonPressType::Long),
    {
        matches!(self, Button::Button1(ButtonPressType::Long))
    }

    /// Check if a fast double press was detected.
    pub fn is_double_press(&self) -> (res: bool)
        ensures
            res <==> *self == Button::Button1(ButtonPressType::Double),
    {
        matches!(self, Button::Button1(ButtonPressType::Double))
    }
}

/// Maximum gap between the release of one short press and the release of the next for the pair
/// to be a single [`ButtonPressType::Double`].
pub const DOUBLE_PRESS_WINDOW_MS: u64 = 400;

/// A press held for this long or longer is a long press.
pub const LONG_PRESS_MS: u64 = 500;

/// Nanoseconds from `then` to `now`, none if `now` is earlier.
pub open spec fn nanos_between(then: u128, now: u128) -> nat {
    if now > then {
        (now - then) as nat
    } else {
        0
    }
}

/// Whole milliseconds from `then` to `now`, as a 64-bit count.
pub open spec fn millis_between(then: u128, now: u128) -> nat {
    nanos_between(then, now) / 1_000_000 % 0x1_0000_0000_0000_0000
}

/// The milliseconds from `then` to `now`.
fn elapsed_millis(then: u128, now: u128) -> (res: u64)
    ensures
        res == millis_between(then, now),
{
    let nanos: u128 = if now > then {
        now - then
    } else {
        0
    };
    (nanos / 1_000_000 % 0x1_0000_0000_0000_0000) as u64
}

/// What is known of a button's presses. Times are in nanoseconds on one monotonic clock.
#[derive(Debug, Clone, Copy, PartialEq, Eq, Structural)]
pub struct PressTracker {
    /// When the current press began.
    pub pressed_at: Option<u128>,
    /// Whether the current press has been reported as held, so that its release is silent.
    pub hold_consumed: bool,
    /// When the last short press was released, if it can still become half of a double press.
    pub last_short_release_at: Option<u128>,
}

impl PressTracker {
    /// A button that has not been touched.
    pub open spec fn untouched() -> PressTracker {
        PressTracker { pressed_at: None, hold_consumed: false, last_short_release_at: None }
    }

    /// Whether a short press released at `now` completes a double press.
    pub open spec fn completes_double(self, now: u128) -> bool {
        match self.last_short_release_at {
            Some(last) => millis_between(last, now) <= DOUBLE_PRESS_WINDOW_MS,
            None => false,
        }
    }

    /// The press that a release at `now` of a press begun at `pressed_at` amounts to.
    pub open spec fn press_type(self, pressed_at: u128, now: u128) -> ButtonPressType {
        if millis_between(pressed_at, now) >= LONG_PRESS_MS {
            ButtonPressType::Long
        } else if self.completes_double(now) {
            ButtonPressType::Double
        } else {
            ButtonPressType::Short
        }
    }

    /// The press reported when the button is seen up or down at `now`.
    pub open spec fn reported(self, is_pressed: bool, now: u128) -> Option<ButtonPressType> {
        match self.pressed_at {
            Some(pressed_at) if !is_pressed && !self.hold_consumed => Some(
                self.press_type(pressed_at, now),
            ),
            _ => None,
        }
    }

    /// What is known after the button is seen up or down at `now`.
    pub open spec fn after(self, is_pressed: bool, now: u128) -> PressTracker {
        if is_pressed {
            if self.pressed_at is None {
                PressTracker { pressed_at: Some(now), hold_consumed: false, ..self }
            } else {
                self
            }
        } else {
            match self.pressed_at {
                None => self,
                Some(_) => PressTracker {
                    pressed_at: None,
                    hold_consumed: false,
                    last_short_release_at: match self.reported(false, now) {
                        None => self.last_short_release_at,
                        Some(ButtonPressType::Short) => Some(now),
                        Some(_) => None,
                    },
                },
            }
        }
    }

    /// Whether a press still down at `now` is reported as held for `threshold` nanoseconds.
    pub open spec fn hold_fires(self, is_pressed: bool, now: u128, threshold: u128) -> bool {
        match self.pressed_at {
            Some(pressed_at) => is_pressed && !self.hold_consumed && nanos_between(
                pressed_at,
                now,
            ) >= threshold,
            None => false,
        }
    }

    /// What is known after asking whether the press is held.
    pub open spec fn after_hold(self, is_pressed: bool, now: u128, threshold: u128) -> PressTracker {
        PressTracker {
            hold_consumed: self.hold_consumed || self.hold_fires(is_pressed, now, threshold),
            ..self
        }
    }

    /// A button that has not been touched.
    pub fn new() -> (res: PressTracker)
        ensures
            res == PressTracker::untouched(),
    {
        PressTracker { pressed_at: None, hold_consumed: false, last_short_release_at: None }
    }

    /// Take note of whether the button is down at `now`, and report the press that a release
    /// completes.
    pub fn observe(&mut self, is_pressed: bool, now: u128) -> (res: Option<ButtonPressType>)
        ensures
            res == old(self).reported(is_pressed, now),
            *final(self) == old(self).after(is_pressed, now),
    {
        if is_pressed {
            if self.pressed_at.is_none() {
                self.pressed_at = Some(now);
                self.hold_consumed = false;
            }
            return None;
        }
        match self.pressed_at {
            None => None,
            Some(pressed_at) => {
                let consumed: bool = self.hold_consumed;
                self.pressed_at = None;
                self.hold_consumed = false;
                if consumed {
                    return None;
                }
                if elapsed_millis(pressed_at, now) < LONG_PRESS_MS {
                    let is_double: bool = match self.last_short_release_at {
                        Some(last) => elapsed_millis(last, now) <= DOUBLE_PRESS_WINDOW_MS,
                        None => false,
                    };
                    if is_double {
                        self.last_short_release_at = None;
                        Some(ButtonPressType::Double)
                    } else {
                        self.last_short_release_at = Some(now);
                        Some(ButtonPressType::Short)
                    }
                } else {
                    self.last_short_release_at = None;
                    Some(ButtonPressType::Long)
                }
            },
        }
    }

    /// Report, once per press, that the button has been down for `threshold` nanoseconds.
    pub fn observe_hold(&mut self, is_pressed: bool, now: u128, threshold: u128) -> (res: bool)
        ensures
            res == old(self).hold_fires(is_pressed, now, threshold),
            *final(self) == old(self).after_hold(is_pressed, now, threshold),
    {
        if !is_pressed {
            return false;
        }
        match self.pressed_at {
            None => false,
            Some(pressed_at) => {
                let held: u128 = if now > pressed_at {
                    now - pressed_at
                } else {
                    0
                };
                if !self.hold_consumed && held >= threshold {
                    self.hold_consumed = true;
                    return true;
                }
                false
            },
        }
    }
}

/// A reading of the system's monotonic clock.
#[verifier::external_type_specification]
#[verifier::external_body]
pub struct ExInstant(Instant);

/// Calls `Instant::now`. Which reading it gives depends on the time, so nothing is claimed of it.
#[verifier::external_body]
fn clock_now() -> (res: Instant) {
    Instant::now()
}

/// Calls `Instant::elapsed` and gives the result in nanoseconds. It depends on the time, so
/// nothing is claimed of it.
#[verifier::external_body]
fn clock_nanos(start: &Instant) -> (res: u128) {
    start.elapsed().as_nanos()
}

/// State of a button, tracking press duration on the monotonic clock.
pub struct ButtonState {
    /// Where this button's time begins.
    start: Instant,
    tracker: PressTracker,
}

impl View for ButtonState {
    type V = PressTracker;

    closed spec fn view(&self) -> PressTracker {
        self.tracker
    }
}

impl Default for ButtonState {
    fn default() -> (res: ButtonState)
        ensures
            res@ == PressTracker::untouched(),
    {
        ButtonState { start: clock_now(), tracker: PressTracker::new() }
    }
}

impl ButtonState {
    /// The clock reading from which this button's times are counted.
    pub closed spec fn origin(&self) -> Instant {
        self.start
    }

    /// Update the button state based on whether it is currently pressed.
    ///
    /// If the button was just released, `on_press` is called with the type of press detected,
    /// unless [`Self::held_for`] has already reported this press. It is not called otherwise: all
    /// that is asked of it is to accept the presses that can be reported now.
    pub fn update<F>(&mut self, is_pressed: bool, on_press: F) where F: FnOnce(ButtonPressType)
        requires
            forall|now: u128|
                #[trigger] old(self)@.reported(is_pressed, now) matches Some(press_type)
                    ==> on_press.requires((press_type,)),
        ensures
            final(self).origin() == old(self).origin(),
            exists|now: u128|
                {
                    &&& final(self)@ == #[trigger] old(self)@.after(is_pressed, now)
                    &&& old(self)@.reported(is_pressed, now) matches Some(press_type)
                        ==> on_press.ensures((press_type,), ())
                },
    {
        let now: u128 = clock_nanos(&self.start);
        let reported: Option<ButtonPressType> = self.tracker.observe(is_pressed, now);
        if let Some(press_type) = reported {
            on_press(press_type);
        }
        assert(self@ == old(self)@.after(is_pressed, now));
    }

    /// Returns `true` exactly once per press, the moment `threshold` nanoseconds have elapsed
    /// while the button is still held down. Once fired, the eventual release no longer triggers
    /// a press through [`Self::update`].
    pub fn held_for(&mut self, is_pressed: bool, threshold: u128) -> (res: bool)
        ensures
            final(self).origin() == old(self).origin(),
            exists|now: u128|
                {
                    &&& final(self)@ == #[trigger] old(self)@.after_hold(is_pressed, now, threshold)
                    &&& res == old(self)@.hold_fires(is_pressed, now, threshold)
                },
    {
        let now: u128 = clock_nanos(&self.start);
        let res: bool = self.tracker.observe_hold(is_pressed, now, threshold);
        assert(self@ == old(self)@.after_hold(is_pressed, now, threshold));
        res
    }
}

} // verus!
