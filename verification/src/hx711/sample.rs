//! Clocking one sample out of the ADC.

use vstd::prelude::*;

verus! {

/// Number of data bits of a sample.
pub const DATA_BITS: u32 = 24;

/// How long each level of the clock is held, in microseconds.
pub const CLOCK_HOLD_US: u32 = 1;

/// Pin operations for one data bit.
pub const STEPS_PER_BIT: u32 = 5;

/// The step at which the sample is complete: the ready check, the data bits, the extra pulse.
pub const LAST_STEP: u32 = 125;

/// What to do next with the pins of one ADC.
#[derive(Debug, Clone, Copy, PartialEq, Eq, Structural)]
pub enum PinAction {
    /// Read the level of `DOUT`.
    ReadData,
    /// Drive `SCK` high.
    ClockHigh,
    /// Drive `SCK` low.
    ClockLow,
    /// Busy-wait for this many microseconds.
    Wait(u32),
    /// Nothing is left to do: this is the sample, if there is one.
    Finish(Option<i32>),
}

/// What came of an action.
#[derive(Debug, Clone, Copy, PartialEq, Eq, Structural)]
pub enum PinEvent {
    /// The level of `DOUT`: `true` for high.
    Level(bool),
    /// `SCK` was driven, or could not be.
    Driven(bool),
    /// The wait is over.
    Waited,
}

/// The pin operation at each step.
pub open spec fn operation(step: nat) -> PinAction
    recommends
        step < LAST_STEP,
{
    if step == 0 {
        PinAction::ReadData
    } else if step <= 120 {
        if step % 5 == 1 {
            PinAction::ClockHigh
        } else if step % 5 == 3 {
            PinAction::ReadData
        } else if step % 5 == 4 {
            PinAction::ClockLow
        } else {
            PinAction::Wait(CLOCK_HOLD_US)
        }
    } else if step == 121 {
        PinAction::ClockHigh
    } else if step == 123 {
        PinAction::ClockLow
    } else {
        PinAction::Wait(CLOCK_HOLD_US)
    }
}

/// A 24-bit pattern read as a number in two's complement.
pub open spec fn signed_sample(value: nat) -> int {
    if value >= 0x80_0000 {
        value - 0x100_0000
    } else {
        value as int
    }
}

/// One sample on its way out of the ADC.
#[derive(Debug, Clone, Copy, PartialEq, Eq, Structural)]
pub struct SampleRead {
    /// How many pin operations are done.
    step: u32,
    /// The bits shifted out so far.
    value: u32,
    /// Whether the ADC was not ready or a pin could not be driven.
    abandoned: bool,
}

impl SampleRead {
    pub closed spec fn step(self) -> nat {
        self.step as nat
    }

    /// The bits shifted out so far, as a number.
    pub closed spec fn value(self) -> nat {
        self.value as nat
    }

    pub closed spec fn abandoned(self) -> bool {
        self.abandoned
    }

    /// How many data bits have been shifted out before a step.
    pub open spec fn bits_before(step: nat) -> nat {
        if step > 120 {
            24
        } else {
            (step + 1) / 5
        }
    }

    /// The value holds no more bits than have been shifted out.
    pub open spec fn wf(self) -> bool {
        &&& self.step() <= LAST_STEP
        &&& self.value() < vstd::arithmetic::power2::pow2(SampleRead::bits_before(self.step()))
    }

    /// What to do next.
    pub open spec fn next_action(self) -> PinAction {
        if self.abandoned() {
            PinAction::Finish(None)
        } else if self.step() == LAST_STEP {
            PinAction::Finish(Some(signed_sample(self.value()) as i32))
        } else {
            operation(self.step())
        }
    }

    /// Whether `event` is an outcome of what is to be done next.
    pub open spec fn expects(self, event: PinEvent) -> bool {
        match self.next_action() {
            PinAction::ReadData => event is Level,
            PinAction::ClockHigh | PinAction::ClockLow => event is Driven,
            PinAction::Wait(_) => event is Waited,
            PinAction::Finish(_) => false,
        }
    }

    /// Whether `event` ends the read without a sample: the ADC is not ready (`DOUT` is high at
    /// the first look), or a pin could not be driven.
    pub open spec fn gives_up_on(self, event: PinEvent) -> bool {
        match event {
            PinEvent::Level(high) => self.step() == 0 && high,
            PinEvent::Driven(ok) => !ok,
            PinEvent::Waited => false,
        }
    }

    /// The value once `event` has been noted: a level read while clocking is the next bit.
    pub open spec fn value_after(self, event: PinEvent) -> nat {
        match event {
            PinEvent::Level(high) if self.step() > 0 => 2 * self.value() + if high {
                1nat
            } else {
                0nat
            },
            _ => self.value(),
        }
    }

    /// How noting `event` takes a read from `before` to `after`.
    pub open spec fn noted(before: SampleRead, event: PinEvent, after: SampleRead) -> bool {
        &&& after.abandoned() == before.gives_up_on(event)
        &&& if before.gives_up_on(event) {
            after.step() == before.step() && after.value() == before.value()
        } else {
            after.step() == before.step() + 1 && after.value() == before.value_after(event)
        }
    }

    /// A read that has not begun.
    pub fn new() -> (res: SampleRead)
        ensures
            res.wf(),
            res.step() == 0,
            res.value() == 0,
            !res.abandoned(),
    {
        proof {
            vstd::arithmetic::power2::lemma2_to64();
        }
        SampleRead { step: 0, value: 0, abandoned: false }
    }

    /// What to do next.
    pub fn action(&self) -> (res: PinAction)
        requires
            self.wf(),
        ensures
            res == self.next_action(),
    {
        proof {
            vstd::arithmetic::power2::lemma2_to64();
        }
        if self.abandoned {
            PinAction::Finish(None)
        } else if self.step == LAST_STEP {
            if self.value >= 0x80_0000 {
                PinAction::Finish(Some(self.value as i32 - 0x100_0000))
            } else {
                PinAction::Finish(Some(self.value as i32))
            }
        } else if self.step == 0 {
            PinAction::ReadData
        } else if self.step <= DATA_BITS * STEPS_PER_BIT {
            let phase: u32 = self.step % STEPS_PER_BIT;
            if phase == 1 {
                PinAction::ClockHigh
            } else if phase == 3 {
                PinAction::ReadData
            } else if phase == 4 {
                PinAction::ClockLow
            } else {
                PinAction::Wait(CLOCK_HOLD_US)
            }
        } else if self.step == 121 {
            PinAction::ClockHigh
        } else if self.step == 123 {
            PinAction::ClockLow
        } else {
            PinAction::Wait(CLOCK_HOLD_US)
        }
    }

    /// Take note of what came of the action.
    pub fn note(&mut self, event: PinEvent)
        requires
            old(self).wf(),
            old(self).expects(event),
        ensures
            final(self).wf(),
            SampleRead::noted(*old(self), event, *final(self)),
    {
        proof {
            vstd::arithmetic::power2::lemma2_to64();
            let bits = SampleRead::bits_before(self.step());
            if bits < 24 {
                vstd::arithmetic::power2::lemma_pow2_strictly_increases(bits, 24);
            }
            if bits < 23 {
                vstd::arithmetic::power2::lemma_pow2_strictly_increases(bits, 23);
            }
            vstd::arithmetic::power2::lemma_pow2_unfold(bits + 1);
        }
        match event {
            PinEvent::Level(high) => {
                if self.step == 0 {
                    if high {
                        self.abandoned = true;
                        return;
                    }
                } else {
                    self.value = 2 * self.value + if high {
                        1
                    } else {
                        0
                    };
                }
            },
            PinEvent::Driven(ok) => {
                if !ok {
                    self.abandoned = true;
                    return;
                }
            },
            PinEvent::Waited => {},
        }
        self.step = self.step + 1;
    }
}

} // verus!
