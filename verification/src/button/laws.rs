//! What holds of presses across several observations.

use vstd::prelude::*;

use crate::button::{
    millis_between, nanos_between, ButtonPressType, PressTracker, DOUBLE_PRESS_WINDOW_MS, LONG_PRESS_MS,
};

verus! {

/// One call that a button gets: noting whether it is down, or asking whether it has been held.
pub enum ButtonCall {
    Update { is_pressed: bool, now: u128 },
    HeldFor { is_pressed: bool, now: u128, threshold: u128 },
}

/// What is known after a call.
pub open spec fn after_call(tracker: PressTracker, call: ButtonCall) -> PressTracker {
    match call {
        ButtonCall::Update { is_pressed, now } => tracker.after(is_pressed, now),
        ButtonCall::HeldFor { is_pressed, now, threshold } => tracker.after_hold(
            is_pressed,
            now,
            threshold,
        ),
    }
}

/// The press that a call reports, if any.
pub open spec fn press_of(tracker: PressTracker, call: ButtonCall) -> Option<ButtonPressType> {
    match call {
        ButtonCall::Update { is_pressed, now } => tracker.reported(is_pressed, now),
        ButtonCall::HeldFor { .. } => None,
    }
}

/// Whether a call reports the button as held.
pub open spec fn hold_of(tracker: PressTracker, call: ButtonCall) -> bool {
    match call {
        ButtonCall::Update { .. } => false,
        ButtonCall::HeldFor { is_pressed, now, threshold } => tracker.hold_fires(
            is_pressed,
            now,
            threshold,
        ),
    }
}

/// What is known after a run of calls.
pub open spec fn after_calls(tracker: PressTracker, calls: Seq<ButtonCall>) -> PressTracker
    decreases calls.len(),
{
    if calls.len() == 0 {
        tracker
    } else {
        after_call(after_calls(tracker, calls.drop_last()), calls.last())
    }
}

/// The presses that a run of calls reports, in order.
pub open spec fn presses(tracker: PressTracker, calls: Seq<ButtonCall>) -> Seq<ButtonPressType>
    decreases calls.len(),
{
    if calls.len() == 0 {
        Seq::empty()
    } else {
        let earlier = presses(tracker, calls.drop_last());
        match press_of(after_calls(tracker, calls.drop_last()), calls.last()) {
            Some(press_type) => earlier.push(press_type),
            None => earlier,
        }
    }
}

/// How many of a run of calls report the button as held.
pub open spec fn holds(tracker: PressTracker, calls: Seq<ButtonCall>) -> nat
    decreases calls.len(),
{
    if calls.len() == 0 {
        0
    } else {
        holds(tracker, calls.drop_last()) + if hold_of(
            after_calls(tracker, calls.drop_last()),
            calls.last(),
        ) {
            1nat
        } else {
            0
        }
    }
}

/// Whether a run of calls never sees the button released.
pub open spec fn stays_down(calls: Seq<ButtonCall>) -> bool {
    forall|i: int| 0 <= i < calls.len() ==> !(#[trigger] calls[i] matches ButtonCall::Update { is_pressed: false, .. })
}

/// Whether the last update of a run of calls has seen the button down.
pub open spec fn is_down(calls: Seq<ButtonCall>) -> bool
    decreases calls.len(),
{
    if calls.len() == 0 {
        false
    } else {
        match calls.last() {
            ButtonCall::Update { is_pressed, .. } => is_pressed,
            ButtonCall::HeldFor { .. } => is_down(calls.drop_last()),
        }
    }
}

/// How often the updates of a run of calls have seen the button go from down to up.
pub open spec fn releases(calls: Seq<ButtonCall>) -> nat
    decreases calls.len(),
{
    if calls.len() == 0 {
        0
    } else {
        releases(calls.drop_last()) + match calls.last() {
            ButtonCall::Update { is_pressed: false, .. } if is_down(calls.drop_last()) => 1nat,
            _ => 0,
        }
    }
}

/// Whether the press at position `i`, if it is a double one, comes directly after a short one.
pub open spec fn paired_if_double(all: Seq<ButtonPressType>, i: int) -> bool {
    all[i] == ButtonPressType::Double ==> i > 0 && all[i - 1] == ButtonPressType::Short
}

/// Over any run of calls from an untouched button, a double press is reported only directly
/// after a short one: never first, never after a long or another double press. There are no more
/// presses than releases.
pub proof fn law_double_press_follows_a_short_one(calls: Seq<ButtonCall>)
    ensures
        ({
            let all = presses(PressTracker::untouched(), calls);
            &&& forall|i: int| 0 <= i < all.len() ==> #[trigger] paired_if_double(all, i)
            &&& all.len() <= releases(calls)
        }),
{
    lemma_run(calls);
}

/// What a run of calls from an untouched button leaves behind agrees with what it has reported.
proof fn lemma_run(calls: Seq<ButtonCall>)
    ensures
        ({
            let all = presses(PressTracker::untouched(), calls);
            let tracker = after_calls(PressTracker::untouched(), calls);
            &&& forall|i: int| 0 <= i < all.len() ==> #[trigger] paired_if_double(all, i)
            &&& all.len() <= releases(calls)
            &&& tracker.pressed_at is Some <==> is_down(calls)
            &&& tracker.last_short_release_at is Some ==> all.len() > 0 && all.last()
                == ButtonPressType::Short
        }),
    decreases calls.len(),
{
    if calls.len() > 0 {
        let before = calls.drop_last();
        lemma_run(before);
        let earlier = presses(PressTracker::untouched(), before);
        let all = presses(PressTracker::untouched(), calls);
        assert forall|i: int| 0 <= i < all.len() implies #[trigger] paired_if_double(all, i) by {
            if i < earlier.len() {
                assert(paired_if_double(earlier, i));
            }
        }
    }
}

/// While a button stays down nothing is reported as pressed, and it is reported as held at most
/// once; the press keeps the time at which it began.
pub proof fn law_hold_fires_at_most_once(tracker: PressTracker, calls: Seq<ButtonCall>)
    requires
        stays_down(calls),
    ensures
        presses(tracker, calls).len() == 0,
        holds(tracker, calls) <= 1,
        tracker.pressed_at is Some ==> {
            let after = after_calls(tracker, calls);
            &&& after.pressed_at == tracker.pressed_at
            &&& after.hold_consumed <==> tracker.hold_consumed || holds(tracker, calls) == 1
            &&& tracker.hold_consumed ==> holds(tracker, calls) == 0
        },
        tracker.pressed_at is None && calls.len() > 0 ==> (calls[0] matches ButtonCall::Update { now, .. }
            ==> {
            let after = after_calls(tracker, calls);
            &&& after.pressed_at == Some(now)
            &&& after.hold_consumed <==> holds(tracker, calls) == 1
        }),
        after_calls(tracker, calls).last_short_release_at == tracker.last_short_release_at,
{
    lemma_stays_down(tracker, calls);
}

proof fn lemma_stays_down(tracker: PressTracker, calls: Seq<ButtonCall>)
    requires
        stays_down(calls),
    ensures
        presses(tracker, calls).len() == 0,
        after_calls(tracker, calls).last_short_release_at == tracker.last_short_release_at,
        tracker.pressed_at is Some ==> {
            let after = after_calls(tracker, calls);
            &&& after.pressed_at == tracker.pressed_at
            &&& after.hold_consumed <==> tracker.hold_consumed || holds(tracker, calls) == 1
            &&& tracker.hold_consumed ==> holds(tracker, calls) == 0
            &&& holds(tracker, calls) <= 1
        },
        tracker.pressed_at is None ==> {
            let after = after_calls(tracker, calls);
            if after.pressed_at is Some {
                holds(tracker, calls) == if after.hold_consumed {
                    1nat
                } else {
                    0
                }
            } else {
                holds(tracker, calls) == 0
            }
        },
        tracker.pressed_at is None && calls.len() > 0 ==> (calls[0] matches ButtonCall::Update { now, .. }
            ==> after_calls(tracker, calls).pressed_at == Some(now)),
    decreases calls.len(),
{
    if calls.len() > 0 {
        let before = calls.drop_last();
        assert forall|i: int| 0 <= i < before.len() implies !(#[trigger] before[i] matches ButtonCall::Update {
            is_pressed: false,
            ..
        }) by {
            assert(before[i] == calls[i]);
        }
        lemma_stays_down(tracker, before);
        assert(calls.last() == calls[calls.len() - 1]);
        if before.len() > 0 {
            assert(before[0] == calls[0]);
        } else {
            assert(before =~= Seq::empty());
        }
    }
}

/// A press that was reported as held is released silently, and leaves a button ready for the
/// next press.
pub proof fn law_held_press_releases_silently(tracker: PressTracker, calls: Seq<ButtonCall>, now: u128)
    requires
        tracker.pressed_at is None,
        stays_down(calls),
        holds(tracker, calls) > 0,
    ensures
        ({
            let held = after_calls(tracker, calls);
            &&& held.reported(false, now) is None
            &&& held.after(false, now) == PressTracker {
                pressed_at: None,
                hold_consumed: false,
                last_short_release_at: tracker.last_short_release_at,
            }
        }),
{
    lemma_stays_down(tracker, calls);
}

/// A press that was not reported as held is reported once, on release: as long from half a
/// second on, otherwise as short, or as double where a short press was released no more than
/// [`DOUBLE_PRESS_WINDOW_MS`] before.
pub proof fn law_press_is_classified_on_release(
    tracker: PressTracker,
    pressed: u128,
    calls: Seq<ButtonCall>,
    now: u128,
)
    requires
        tracker.pressed_at is None,
        stays_down(calls),
        calls.len() > 0,
        calls[0] == (ButtonCall::Update { is_pressed: true, now: pressed }),
        holds(tracker, calls) == 0,
    ensures
        ({
            let down = after_calls(tracker, calls);
            let up = down.after(false, now);
            let held_ms = millis_between(pressed, now);
            let paired = match tracker.last_short_release_at {
                Some(last) => millis_between(last, now) <= DOUBLE_PRESS_WINDOW_MS,
                None => false,
            };
            &&& down.reported(false, now) == Some(
                if held_ms >= LONG_PRESS_MS {
                    ButtonPressType::Long
                } else if paired {
                    ButtonPressType::Double
                } else {
                    ButtonPressType::Short
                },
            )
            &&& up.pressed_at is None
            &&& up.reported(false, now) is None
        }),
{
    lemma_stays_down(tracker, calls);
}

/// A double press uses up both of its halves: the press that follows it is never double.
pub proof fn law_double_press_starts_afresh(
    tracker: PressTracker,
    released: u128,
    pressed: u128,
    released_again: u128,
)
    requires
        tracker.reported(false, released) == Some(ButtonPressType::Double),
    ensures
        ({
            let next = tracker.after(false, released).after(true, pressed);
            next.reported(false, released_again) == Some(
                if millis_between(pressed, released_again) >= LONG_PRESS_MS {
                    ButtonPressType::Long
                } else {
                    ButtonPressType::Short
                },
            )
        }),
{
}

/// A long press is never half of a double press.
pub proof fn law_long_press_breaks_a_pair(
    tracker: PressTracker,
    released: u128,
    pressed: u128,
    released_again: u128,
)
    requires
        tracker.reported(false, released) == Some(ButtonPressType::Long),
    ensures
        tracker.after(false, released).after(true, pressed).reported(false, released_again) != Some(
            ButtonPressType::Double,
        ),
{
}

/// A button that is up and not touched reports nothing and does not change.
pub proof fn law_idle_button_is_silent(tracker: PressTracker, now: u128, threshold: u128)
    requires
        tracker.pressed_at is None,
    ensures
        tracker.reported(false, now) is None,
        tracker.after(false, now) == tracker,
        !tracker.hold_fires(false, now, threshold),
        tracker.after_hold(false, now, threshold) == tracker,
{
}

/// A hold is reported as soon as the threshold has passed, and not before.
pub proof fn law_hold_waits_for_its_threshold(
    tracker: PressTracker,
    pressed: u128,
    now: u128,
    threshold: u128,
)
    requires
        tracker.pressed_at is None,
    ensures
        tracker.after(true, pressed).hold_fires(true, now, threshold) <==> nanos_between(
            pressed,
            now,
        ) >= threshold,
{
}

/// Times up to which a count of milliseconds fits in 64 bits, in nanoseconds.
pub const CLOCK_LIMIT_NS: u128 = 18_446_744_073_709_551_616_000_000;

/// A reported short press is what the next short press is paired with, whatever came before it:
/// a press of less than half a second that follows it is double just where it is released no
/// more than 400 whole milliseconds after it, and short otherwise.
pub proof fn law_short_press_opens_a_window(
    tracker: PressTracker,
    first_release: u128,
    pressed: u128,
    calls: Seq<ButtonCall>,
    released: u128,
)
    requires
        tracker.reported(false, first_release) == Some(ButtonPressType::Short),
        first_release <= pressed <= released < CLOCK_LIMIT_NS,
        released - pressed < 500_000_000,
        stays_down(calls),
        holds(tracker.after(false, first_release).after(true, pressed), calls) == 0,
    ensures
        ({
            let down = after_calls(tracker.after(false, first_release).after(true, pressed), calls);
            &&& released - first_release < 401_000_000 ==> down.reported(false, released) == Some(
                ButtonPressType::Double,
            )
            &&& released - first_release >= 401_000_000 ==> down.reported(false, released) == Some(
                ButtonPressType::Short,
            )
        }),
{
    lemma_stays_down(tracker.after(false, first_release).after(true, pressed), calls);
}

/// When the press that is down at the end of a run of calls began: at the first update that saw
/// the button down after the last one that saw it up.
pub open spec fn down_since(calls: Seq<ButtonCall>) -> Option<u128>
    decreases calls.len(),
{
    if calls.len() == 0 {
        None
    } else {
        let before = down_since(calls.drop_last());
        match calls.last() {
            ButtonCall::Update { is_pressed, now } => if !is_pressed {
                None
            } else if before is Some {
                before
            } else {
                Some(now)
            },
            ButtonCall::HeldFor { .. } => before,
        }
    }
}

/// Whether the press that is down at the end of a run of calls has been reported as held.
pub open spec fn held_since(calls: Seq<ButtonCall>) -> bool
    decreases calls.len(),
{
    if calls.len() == 0 {
        false
    } else {
        let before = calls.drop_last();
        match calls.last() {
            ButtonCall::Update { is_pressed, .. } => is_pressed && held_since(before),
            ButtonCall::HeldFor { .. } => held_since(before) || hold_of(
                after_calls(PressTracker::untouched(), before),
                calls.last(),
            ),
        }
    }
}

/// The last press that a run of calls has reported, and when.
pub open spec fn last_press(calls: Seq<ButtonCall>) -> Option<(ButtonPressType, u128)>
    decreases calls.len(),
{
    if calls.len() == 0 {
        None
    } else {
        let before = calls.drop_last();
        match (press_of(after_calls(PressTracker::untouched(), before), calls.last()), calls.last()) {
            (Some(press_type), ButtonCall::Update { now, .. }) => Some((press_type, now)),
            _ => last_press(before),
        }
    }
}

/// What a run of calls leaves behind is what there is to know of it.
proof fn lemma_history(calls: Seq<ButtonCall>)
    ensures
        ({
            let tracker = after_calls(PressTracker::untouched(), calls);
            &&& tracker.pressed_at == down_since(calls)
            &&& tracker.pressed_at is Some ==> (tracker.hold_consumed <==> held_since(calls))
            &&& tracker.pressed_at is None ==> !held_since(calls)
            &&& match last_press(calls) {
                Some((press_type, at)) => tracker.last_short_release_at == if press_type
                    == ButtonPressType::Short {
                    Some(at)
                } else {
                    None
                },
                None => tracker.last_short_release_at is None,
            }
        }),
    decreases calls.len(),
{
    if calls.len() > 0 {
        lemma_history(calls.drop_last());
    }
}

/// After any run of calls on an untouched button, seeing it up reports a press just where it was
/// down and has not been reported as held. The press is long where it began half a second or
/// more ago. Otherwise it is double where the last report was of a short press, no more than 400
/// whole milliseconds ago, and short in every other case. Seeing it down reports nothing.
pub proof fn law_release_is_told_by_what_went_before(calls: Seq<ButtonCall>, now: u128)
    requires
        now < CLOCK_LIMIT_NS,
    ensures
        ({
            let tracker = after_calls(PressTracker::untouched(), calls);
            let up = press_of(tracker, ButtonCall::Update { is_pressed: false, now });
            &&& press_of(tracker, ButtonCall::Update { is_pressed: true, now }) is None
            &&& up is Some <==> down_since(calls) is Some && !held_since(calls)
            &&& up matches Some(press_type) ==> {
                &&& press_type == ButtonPressType::Long <==> now >= down_since(calls)->0 + 500_000_000
                &&& press_type == ButtonPressType::Double <==> {
                    &&& now < down_since(calls)->0 + 500_000_000
                    &&& last_press(calls) matches Some((last, at))
                    &&& last == ButtonPressType::Short
                    &&& now < at + 401_000_000
                }
            }
        }),
{
    lemma_history(calls);
}

/// After any run of calls on an untouched button, it is reported as held just where it is still
/// down, has been for the threshold, and has not been reported as held since it went down.
pub proof fn law_hold_is_told_by_what_went_before(calls: Seq<ButtonCall>, now: u128, threshold: u128)
    ensures
        ({
            let tracker = after_calls(PressTracker::untouched(), calls);
            &&& hold_of(tracker, ButtonCall::HeldFor { is_pressed: true, now, threshold }) <==> {
                &&& down_since(calls) matches Some(since)
                &&& !held_since(calls)
                &&& threshold == 0 || now >= since + threshold
            }
            &&& !hold_of(tracker, ButtonCall::HeldFor { is_pressed: false, now, threshold })
        }),
{
    lemma_history(calls);
}

} // verus!
