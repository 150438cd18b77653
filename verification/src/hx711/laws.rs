//! What holds of a whole read.

use vstd::arithmetic::power2::*;
use vstd::prelude::*;

use crate::hx711::average::{lemma_mean_fits, truncated_mean, AverageAction, AverageRead};
use crate::hx711::sample::{
    operation, signed_sample, PinAction, PinEvent, SampleRead, LAST_STEP,
};
use crate::scale::filter::{lemma_total_within, total};

verus! {

/// How often an action occurs before a step.
pub open spec fn occurrences(action: PinAction, step: nat) -> nat
    decreases step,
{
    if step == 0 {
        0
    } else {
        occurrences(action, (step - 1) as nat) + if operation((step - 1) as nat) == action {
            1nat
        } else {
            0nat
        }
    }
}

/// The number that bits make up, most significant first.
pub open spec fn big_endian(bits: Seq<bool>) -> nat
    decreases bits.len(),
{
    if bits.len() == 0 {
        0
    } else {
        2 * big_endian(bits.drop_last()) + if bits.last() {
            1nat
        } else {
            0nat
        }
    }
}

/// Whether step `i` of a read was done and did not end it.
pub open spec fn step_done(states: Seq<SampleRead>, events: Seq<PinEvent>, i: int) -> bool {
    &&& states[i].expects(events[i])
    &&& !states[i].gives_up_on(events[i])
    &&& SampleRead::noted(states[i], events[i], states[i + 1])
}

/// A read that goes through: the states it passes, and what came of each action.
pub open spec fn complete_read(states: Seq<SampleRead>, events: Seq<PinEvent>) -> bool {
    &&& states.len() == LAST_STEP + 1
    &&& events.len() == LAST_STEP
    &&& states[0].step() == 0 && states[0].value() == 0 && !states[0].abandoned()
    &&& forall|i: int| 0 <= i < LAST_STEP ==> #[trigger] step_done(states, events, i)
}

/// The levels of `DOUT` read while clocking, in order.
pub open spec fn data_bits(events: Seq<PinEvent>) -> Seq<bool> {
    Seq::new(24, |k: int| events[5 * k + 3] == PinEvent::Level(true))
}

/// A read that goes through gives the number whose 24 bits, most significant first, were on
/// `DOUT` while the clock was high; that is a 24-bit number in two's complement.
pub proof fn law_read_gives_the_bits_on_the_wire(states: Seq<SampleRead>, events: Seq<PinEvent>)
    requires
        complete_read(states, events),
    ensures
        states[LAST_STEP as int].next_action() == PinAction::Finish(
            Some(signed_sample(big_endian(data_bits(events))) as i32),
        ),
        -0x80_0000 <= signed_sample(big_endian(data_bits(events))) <= 0x7f_ffff,
{
    lemma_read_so_far(states, events, LAST_STEP as nat);
    assert(data_bits(events).take(24) =~= data_bits(events));
    lemma_big_endian_bound(data_bits(events));
    lemma2_to64();
}

proof fn lemma_read_so_far(states: Seq<SampleRead>, events: Seq<PinEvent>, n: nat)
    requires
        complete_read(states, events),
        n <= LAST_STEP,
    ensures
        states[n as int].step() == n,
        !states[n as int].abandoned(),
        states[n as int].value() == big_endian(
            data_bits(events).take(SampleRead::bits_before(n) as int),
        ),
    decreases n,
{
    let bits = data_bits(events);
    if n == 0 {
        assert(bits.take(0) =~= Seq::empty());
    } else {
        let i = (n - 1) as int;
        lemma_read_so_far(states, events, i as nat);
        let before = states[i];
        let (had, has) = (SampleRead::bits_before(i as nat) as int, SampleRead::bits_before(n) as int);
        assert(step_done(states, events, i));
        if operation(i as nat) == PinAction::ReadData && i > 0 {
            assert(has == had + 1 && i == 5 * had + 3);
            assert(bits.take(has).drop_last() =~= bits.take(had));
            assert(bits.take(has).last() == bits[had]);
        } else {
            assert(has == had);
        }
    }
}

proof fn lemma_big_endian_bound(bits: Seq<bool>)
    ensures
        big_endian(bits) < pow2(bits.len()),
    decreases bits.len(),
{
    lemma2_to64();
    if bits.len() > 0 {
        lemma_big_endian_bound(bits.drop_last());
        lemma_pow2_unfold(bits.len());
    }
}

/// An ADC that is not ready is not clocked: the read ends at once, without a sample.
pub proof fn law_unready_adc_is_not_clocked(before: SampleRead, after: SampleRead)
    requires
        before.step() == 0,
        !before.abandoned(),
        SampleRead::noted(before, PinEvent::Level(true), after),
    ensures
        before.next_action() == PinAction::ReadData,
        after.next_action() == PinAction::Finish(None),
{
}

/// A pin that cannot be driven ends the read without a sample.
pub proof fn law_undriven_pin_ends_the_read(before: SampleRead, after: SampleRead)
    requires
        SampleRead::noted(before, PinEvent::Driven(false), after),
    ensures
        after.next_action() == PinAction::Finish(None),
{
}

/// A whole read makes 25 clock pulses: 24 that shift out the bits, each read once, and one that
/// selects the gain; every level of the clock is held for one wait.
pub proof fn law_read_makes_25_pulses()
    ensures
        occurrences(PinAction::ClockHigh, LAST_STEP as nat) == 25,
        occurrences(PinAction::ClockLow, LAST_STEP as nat) == 25,
        occurrences(PinAction::ReadData, LAST_STEP as nat) == 1 + 24,
        occurrences(PinAction::Wait(1), LAST_STEP as nat) == 2 * 25,
{
    lemma_whole_read(PinAction::ClockHigh);
    lemma_whole_read(PinAction::ClockLow);
    lemma_whole_read(PinAction::ReadData);
    lemma_whole_read(PinAction::Wait(1));
}

/// The step at which the clock goes low after it went high.
pub open spec fn pulse_end(step: nat) -> nat {
    if step == 121 {
        123
    } else {
        step + 3
    }
}

/// The clock goes low again after it went high, before it goes high once more, and is left low.
pub proof fn law_pulses_are_separate(step: nat, between: nat)
    requires
        step < LAST_STEP,
        operation(step) == PinAction::ClockHigh,
        step < between < pulse_end(step),
    ensures
        pulse_end(step) < LAST_STEP,
        operation(pulse_end(step)) == PinAction::ClockLow,
        operation(between) != PinAction::ClockHigh,
        operation(123) == PinAction::ClockLow,
        operation(124) is Wait,
{
    if step != 121 {
        assert(step % 5 == 1 && step <= 120);
        let after = (between - step) as nat;
        assert(after == 1 || after == 2);
        assert((step + 3) % 5 == 4 && step + 3 <= 120);
        assert((step + after) % 5 == 1 + after);
    }
}

/// How often an action occurs in one data pulse.
spec fn per_pulse(action: PinAction) -> nat {
    if action == PinAction::Wait(1) {
        2
    } else if action is ClockHigh || action is ClockLow || action is ReadData {
        1
    } else {
        0
    }
}

proof fn lemma_pulses(action: PinAction, k: nat)
    requires
        k <= 24,
    ensures
        occurrences(action, 5 * k + 1) == k * per_pulse(action) + if action is ReadData {
            1nat
        } else {
            0nat
        },
    decreases k,
{
    if k == 0 {
        assert(occurrences(action, 0) == 0);
        assert(0 * per_pulse(action) == 0) by (nonlinear_arith);
    } else {
        let from = (5 * (k - 1) + 1) as nat;
        lemma_pulses(action, (k - 1) as nat);
        assert(from % 5 == 1 && (from + 1) % 5 == 2 && (from + 2) % 5 == 3 && (from + 3) % 5 == 4
            && (from + 4) % 5 == 0);
        assert(operation(from) is ClockHigh && operation(from + 1) == PinAction::Wait(1)
            && operation(from + 2) is ReadData && operation(from + 3) is ClockLow && operation(
            from + 4,
        ) == PinAction::Wait(1));
        assert(occurrences(action, from + 1) == occurrences(action, from) + if operation(from) == action {
            1nat
        } else {
            0nat
        });
        assert(occurrences(action, from + 2) == occurrences(action, from + 1) + if operation(from + 1)
            == action {
            1nat
        } else {
            0nat
        });
        assert(occurrences(action, from + 3) == occurrences(action, from + 2) + if operation(from + 2)
            == action {
            1nat
        } else {
            0nat
        });
        assert(occurrences(action, from + 4) == occurrences(action, from + 3) + if operation(from + 3)
            == action {
            1nat
        } else {
            0nat
        });
        let per = per_pulse(action);
        assert(k * per == (k - 1) * per + per) by (nonlinear_arith);
    }
}

proof fn lemma_whole_read(action: PinAction)
    ensures
        occurrences(action, 125) == 24 * per_pulse(action) + if action is ReadData {
            1nat
        } else if action == PinAction::Wait(1) {
            2nat
        } else if action is ClockHigh || action is ClockLow {
            1nat
        } else {
            0nat
        },
{
    lemma_pulses(action, 24);
    reveal_with_fuel(occurrences, 5);
}

/// Up to `2^32` readings always add up within 64 bits.
pub proof fn law_sum_of_readings_fits(readings: Seq<i32>, value: i32)
    requires
        readings.len() < 0x1_0000_0000,
    ensures
        i64::MIN <= total(readings) + value <= i64::MAX,
{
    lemma_total_within(readings, i32::MIN as int, i32::MAX as int);
}

/// The average of equal readings is that reading, and every average lies among its readings.
pub proof fn law_average_lies_among_the_readings(readings: Seq<i32>, lo: int, hi: int)
    requires
        readings.len() > 0,
        lo <= hi,
        crate::scale::filter::within(readings, lo, hi),
    ensures
        lo <= truncated_mean(readings) <= hi,
{
    lemma_total_within(readings, lo, hi);
    let (n, sum) = (readings.len() as int, total(readings));
    if sum < 0 {
        let (q, r) = (-sum / n, -sum % n);
        vstd::arithmetic::div_mod::lemma_fundamental_div_mod(-sum, n);
        assert(lo <= -q <= hi) by (nonlinear_arith)
            requires
                -sum == n * q + r,
                0 <= r < n,
                lo * n <= sum <= hi * n,
                sum < 0,
                lo <= hi,
        ;
    } else {
        let (q, r) = (sum / n, sum % n);
        vstd::arithmetic::div_mod::lemma_fundamental_div_mod(sum, n);
        assert(lo <= q <= hi) by (nonlinear_arith)
            requires
                sum == n * q + r,
                0 <= r < n,
                lo * n <= sum <= hi * n,
                sum >= 0,
        ;
    }
}

/// What a ready ADC with working pins answers at each step of a read.
pub open spec fn smooth_event(i: int, event: PinEvent) -> bool {
    if i == 0 {
        event == PinEvent::Level(false)
    } else if i <= 120 && i % 5 == 3 {
        event is Level
    } else if i == 121 || i == 123 || i <= 120 && (i % 5 == 1 || i % 5 == 4) {
        event == PinEvent::Driven(true)
    } else {
        event == PinEvent::Waited
    }
}

/// Whether an answer was noted.
pub open spec fn noted_at(states: Seq<SampleRead>, events: Seq<PinEvent>, i: int) -> bool {
    SampleRead::noted(states[i], events[i], states[i + 1])
}

/// A read of an ADC that is ready, with pins that work: its states, and what it was answered.
pub open spec fn smooth_read(states: Seq<SampleRead>, events: Seq<PinEvent>) -> bool {
    &&& states.len() == 126
    &&& events.len() == 125
    &&& states[0].step() == 0 && states[0].value() == 0 && !states[0].abandoned()
    &&& forall|i: int| 0 <= i < 125 ==> #[trigger] noted_at(states, events, i)
    &&& forall|i: int| 0 <= i < 125 ==> smooth_event(i, #[trigger] events[i])
}

proof fn lemma_smooth_read(states: Seq<SampleRead>, events: Seq<PinEvent>, n: int)
    requires
        smooth_read(states, events),
        0 <= n <= 125,
    ensures
        states[n].step() == n,
        !states[n].abandoned(),
    decreases n,
{
    if n > 0 {
        lemma_smooth_read(states, events, n - 1);
        assert(noted_at(states, events, n - 1));
        assert(smooth_event(n - 1, events[n - 1]));
    }
}

/// An ADC that is ready is read out whatever its bits are. First its data line is looked at. Each
/// of the 24 bits takes a pulse: the clock goes high, a microsecond later the bit is read, the
/// clock goes low, and a microsecond passes. One more pulse follows.
pub proof fn law_ready_adc_is_read_out(states: Seq<SampleRead>, events: Seq<PinEvent>, i: int)
    requires
        smooth_read(states, events),
        0 <= i < 125,
    ensures
        ({
            let action = states[i].next_action();
            &&& i == 0 ==> action == PinAction::ReadData
            &&& 0 < i <= 120 && i % 5 == 1 ==> action == PinAction::ClockHigh
            &&& 0 < i <= 120 && i % 5 == 2 ==> action == PinAction::Wait(1)
            &&& 0 < i <= 120 && i % 5 == 3 ==> action == PinAction::ReadData
            &&& 0 < i <= 120 && i % 5 == 4 ==> action == PinAction::ClockLow
            &&& 0 < i <= 120 && i % 5 == 0 ==> action == PinAction::Wait(1)
            &&& i == 121 ==> action == PinAction::ClockHigh
            &&& i == 122 ==> action == PinAction::Wait(1)
            &&& i == 123 ==> action == PinAction::ClockLow
            &&& i == 124 ==> action == PinAction::Wait(1)
            &&& states[i].expects(events[i])
        }),
{
    lemma_smooth_read(states, events, i);
    assert(smooth_event(i, events[i]));
}

/// The sample read from a ready ADC is the one 24-bit number in two's complement that has the
/// bits on the data line, most significant first.
pub proof fn law_sample_has_the_bits_on_the_wire(states: Seq<SampleRead>, events: Seq<PinEvent>)
    requires
        smooth_read(states, events),
    ensures
        ({
            let bits = Seq::new(24, |k: int| events[5 * k + 3] == PinEvent::Level(true));
            &&& states[125].next_action() matches PinAction::Finish(Some(sample))
            &&& -8_388_608 <= sample < 8_388_608
            &&& (sample - big_endian(bits)) % 16_777_216 == 0
            &&& sample < 0 <==> bits[0]
        }),
{
    assert forall|i: int| 0 <= i < LAST_STEP implies #[trigger] step_done(states, events, i) by {
        assert(noted_at(states, events, i));
        assert(smooth_event(i, events[i]));
        lemma_smooth_read(states, events, i);
        law_ready_adc_is_read_out(states, events, i);
    }
    law_read_gives_the_bits_on_the_wire(states, events);
    let bits = data_bits(events);
    assert(bits =~= Seq::new(24, |k: int| events[5 * k + 3] == PinEvent::Level(true)));
    lemma_big_endian_bound(bits);
    lemma_top_bit(bits);
    lemma2_to64();
}

/// The first of the bits of a number is its highest.
proof fn lemma_top_bit(bits: Seq<bool>)
    requires
        bits.len() > 0,
    ensures
        bits[0] <==> big_endian(bits) >= pow2((bits.len() - 1) as nat),
    decreases bits.len(),
{
    lemma2_to64();
    if bits.len() > 1 {
        lemma_top_bit(bits.drop_last());
        lemma_pow2_unfold((bits.len() - 1) as nat);
    } else {
        assert(big_endian(bits.drop_last()) == 0);
    }
}

/// A read ends without a sample just where the data line is high at the first look, or the clock
/// cannot be driven. Everything else takes it on by a step.
pub proof fn law_read_ends_early_only_for_cause(before: SampleRead, event: PinEvent, after: SampleRead)
    requires
        !before.abandoned(),
        SampleRead::noted(before, event, after),
    ensures
        ({
            let cause = event == PinEvent::Level(true) && before.step() == 0 || event
                == PinEvent::Driven(false);
            &&& after.next_action() == PinAction::Finish(None) <==> cause
            &&& cause ==> after.step() == before.step()
            &&& !cause ==> after.step() == before.step() + 1
        }),
{
}

/// The average is the whole sum of the readings divided by their number, fractions dropped:
/// times their number it falls short of the sum by less than their number, on the side of zero.
pub proof fn law_average_divides_the_whole_sum(average: AverageRead, now: u128)
    requires
        average.wf(),
    ensures
        ({
            let (readings, n) = (average.readings(), average.readings().len());
            let going_on = n < average.samples() && now < average.deadline();
            &&& average.next_action(now) is Read <==> going_on
            &&& average.next_action(now) == AverageAction::Finish(None) <==> !going_on && n == 0
            &&& average.next_action(now) matches AverageAction::Finish(Some(mean)) ==> {
                let sum = total(readings);
                &&& sum >= 0 ==> mean * n <= sum < (mean + 1) * n
                &&& sum < 0 ==> (mean - 1) * n < sum <= mean * n
                &&& sum >= 0 ==> mean >= 0
                &&& sum <= 0 ==> mean <= 0
            }
        }),
{
    let (readings, n) = (average.readings(), average.readings().len() as int);
    let sum = total(readings);
    if n > 0 {
        lemma_mean_fits(readings);
        let mean = truncated_mean(readings);
        if sum < 0 {
            let (q, r) = (-sum / n, -sum % n);
            vstd::arithmetic::div_mod::lemma_fundamental_div_mod(-sum, n);
            assert((mean - 1) * n < sum <= mean * n && mean <= 0) by (nonlinear_arith)
                requires
                    -sum == n * q + r,
                    0 <= r < n,
                    mean == -q,
                    sum < 0,
            ;
        } else {
            let (q, r) = (sum / n, sum % n);
            vstd::arithmetic::div_mod::lemma_fundamental_div_mod(sum, n);
            assert(mean * n <= sum < (mean + 1) * n && mean >= 0) by (nonlinear_arith)
                requires
                    sum == n * q + r,
                    0 <= r < n,
                    mean == q,
                    sum >= 0,
            ;
            if sum == 0 {
                assert(mean == 0) by (nonlinear_arith)
                    requires
                        mean * n <= 0,
                        mean >= 0,
                        n > 0,
                ;
            }
        }
    }
}

/// Every reading counts: one more changes the sum by just that reading, and no readings sum to
/// nothing.
pub proof fn law_sum_counts_every_reading(readings: Seq<i32>, more: Seq<i32>, reading: i32)
    ensures
        total(Seq::<i32>::empty()) == 0,
        total(seq![reading]) == reading,
        total(readings.push(reading)) == total(readings) + reading,
        total(readings + more) == total(readings) + total(more),
    decreases more.len(),
{
    assert(readings.push(reading).drop_last() =~= readings);
    assert(seq![reading].drop_last() =~= Seq::<i32>::empty());
    assert(total(seq![reading].drop_last()) == 0);
    if more.len() > 0 {
        law_sum_counts_every_reading(readings, more.drop_last(), reading);
        assert((readings + more).drop_last() =~= readings + more.drop_last());
    } else {
        assert(readings + more =~= readings);
    }
}

} // verus!
