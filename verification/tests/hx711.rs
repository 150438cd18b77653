use maratui::hx711::{AverageAction, AverageRead, PinAction, PinEvent, SampleRead};

/// An ADC that shifts out a bit at each rising edge.
struct Adc {
    ready: bool,
    value: u32,
    pulses: u32,
    clock: bool,
    waits: u32,
    breaks_at: Option<u32>,
}

impl Adc {
    fn holding(value: u32) -> Adc {
        Adc { ready: true, value, pulses: 0, clock: false, waits: 0, breaks_at: None }
    }

    fn drive(&mut self, level: bool) -> bool {
        if level {
            if self.breaks_at == Some(self.pulses) {
                return false;
            }
            assert!(!self.clock);
            self.pulses += 1;
        } else {
            assert!(self.clock);
        }
        self.clock = level;
        true
    }

    fn level(&self) -> bool {
        if self.pulses == 0 {
            !self.ready
        } else {
            assert!(self.clock);
            (self.value >> (24 - self.pulses)) & 1 == 1
        }
    }

    fn read(&mut self) -> Option<i32> {
        let mut read = SampleRead::new();
        loop {
            let event = match read.action() {
                PinAction::ReadData => PinEvent::Level(self.level()),
                PinAction::ClockHigh => PinEvent::Driven(self.drive(true)),
                PinAction::ClockLow => PinEvent::Driven(self.drive(false)),
                PinAction::Wait(us) => {
                    assert_eq!(us, 1);
                    self.waits += 1;
                    PinEvent::Waited
                }
                PinAction::Finish(sample) => return sample,
            };
            read.note(event);
        }
    }
}

#[test]
fn a_sample_is_read_msb_first() {
    for (value, sample) in [
        (0x00_0000, 0),
        (0x00_0001, 1),
        (0x12_3456, 0x12_3456),
        (0x7f_ffff, 8_388_607),
        (0x80_0000, -8_388_608),
        (0xff_ffff, -1),
        (0xfc_d9c0, -206_400),
    ] {
        assert_eq!(Adc::holding(value).read(), Some(sample));
    }
}

#[test]
fn every_sign_and_bit_comes_through() {
    let mut value: u32 = 1;
    for _ in 0..5_000 {
        value = (value.wrapping_mul(1_664_525).wrapping_add(1_013_904_223)) & 0xff_ffff;
        let expected = ((value << 8) as i32) >> 8;
        assert_eq!(Adc::holding(value).read(), Some(expected));
    }
}

#[test]
fn a_read_makes_25_pulses_and_leaves_the_clock_low() {
    let mut adc = Adc::holding(0xaa_aaaa);
    adc.read();
    assert_eq!(adc.pulses, 25);
    assert_eq!(adc.waits, 50);
    assert!(!adc.clock);
}

#[test]
fn an_adc_that_is_not_ready_is_not_clocked() {
    let mut adc = Adc::holding(5);
    adc.ready = false;
    assert_eq!(adc.read(), None);
    assert_eq!(adc.pulses, 0);
}

#[test]
fn a_pin_that_fails_ends_the_read() {
    for pulse in 0..25 {
        let mut adc = Adc::holding(0x55_5555);
        adc.breaks_at = Some(pulse);
        assert_eq!(adc.read(), None);
        assert_eq!(adc.pulses, pulse);
    }
}

fn average(samples: usize, deadline: u128, readings: &[Option<i32>], tick: u128) -> Option<i32> {
    let mut average = AverageRead::new(samples, deadline);
    let mut now = 0;
    let mut next = 0;
    loop {
        match average.action(now) {
            AverageAction::Read => {
                let reading = if next < readings.len() { readings[next] } else { None };
                next += 1;
                let wait = average.note(reading);
                assert_eq!(wait, if reading.is_some() { 0 } else { 100 });
            }
            AverageAction::Finish(mean) => return mean,
        }
        now += tick;
    }
}

#[test]
fn averages_stop_at_the_number_of_samples() {
    let readings = [Some(10), None, Some(20), Some(60), Some(1_000)];
    assert_eq!(average(3, 1_000, &readings, 1), Some(30));
    assert_eq!(average(1, 1_000, &readings, 1), Some(10));
    assert_eq!(average(0, 1_000, &readings, 1), None);
}

#[test]
fn averages_stop_at_the_deadline() {
    let readings = [Some(10), Some(20), Some(60)];
    assert_eq!(average(10, 2, &readings, 1), Some(15));
    assert_eq!(average(10, 0, &readings, 1), None);
    assert_eq!(average(10, 50, &[], 1), None);
}

#[test]
fn averages_drop_fractions() {
    assert_eq!(average(2, 9, &[Some(1), Some(2)], 1), Some(1));
    assert_eq!(average(2, 9, &[Some(-1), Some(-2)], 1), Some(-1));
    assert_eq!(average(3, 9, &[Some(-8_388_608), Some(-8_388_608), Some(-8_388_607)], 1), Some(-8_388_607));
    assert_eq!(average(2, 9, &[Some(i32::MIN), Some(i32::MIN)], 1), Some(i32::MIN));
}
