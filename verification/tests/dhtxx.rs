use weather_node::dhtxx::{
    decode_dht_data, wait_for_pin_with_timeout, Action, Dhtxx, Error, Event, Progress, Reading,
    Span, Timing,
};

/// A sensor on a line that exists in memory only. After the pin is released the line follows
/// `waveform`, a run of levels with their lengths in microseconds, and stays high after it.
/// Every look at the pin or at the timer takes a microsecond.
struct Sensor {
    waveform: Vec<(bool, u32)>,
    released_at: Option<u32>,
    now: u32,
    deadline: u32,
    actions: Vec<Action>,
}

impl Sensor {
    fn new(waveform: Vec<(bool, u32)>) -> Sensor {
        Sensor { waveform, released_at: None, now: 0, deadline: 0, actions: Vec::new() }
    }

    fn answering(frame: [u8; 5]) -> Sensor {
        let mut waveform = vec![(true, 20), (false, 80), (true, 80)];
        for byte in frame {
            for bit in (0..8).rev() {
                waveform.push((false, 50));
                waveform.push((true, if byte >> bit & 1 == 1 { 70 } else { 26 }));
            }
        }
        waveform.push((false, 50));
        Sensor::new(waveform)
    }

    fn level(&self) -> bool {
        let mut at = match self.released_at {
            Some(start) => self.now - start,
            None => return true,
        };
        for (level, length) in &self.waveform {
            if at < *length {
                return *level;
            }
            at -= length;
        }
        true
    }

    fn perform(&mut self, action: Action) -> Event {
        self.actions.push(action);
        match action {
            Action::Drive(_) | Action::Claim => Event::Done,
            Action::Release => {
                self.released_at = Some(self.now);
                Event::Done
            }
            Action::StartTimer(Span::Milliseconds(span)) => {
                self.deadline = self.now + span * 1000;
                Event::Done
            }
            Action::StartTimer(Span::Microseconds(span)) => {
                self.deadline = self.now + span;
                Event::Done
            }
            Action::PollTimer => {
                self.now += 1;
                Event::Elapsed(self.now >= self.deadline)
            }
            Action::Sample => {
                self.now += 1;
                Event::Level(self.level())
            }
        }
    }
}

fn read(reader: &mut Dhtxx, sensor: &mut Sensor) -> Result<Reading, Error> {
    assert!(reader.make_reading());
    let mut progress = reader.current();
    for _ in 0..1_000_000 {
        match progress {
            Progress::Perform(action) => progress = reader.resume(sensor.perform(action)),
            Progress::Finished(result) => return result,
            Progress::Idle => panic!("the reading stopped without a result"),
        }
    }
    panic!("the reading did not end");
}

#[test]
fn a_frame_with_a_true_checksum_is_decoded_in_tenths() {
    // 0x028C = 652: 65.2 % humidity. 0x015F = 351: 35.1 degrees.
    assert_eq!(
        decode_dht_data([0x02, 0x8C, 0x01, 0x5F, 0xEE]),
        Ok(Reading { humidity: 652, temperature: 351 })
    );
    assert_eq!(decode_dht_data([0, 0, 0, 0, 0]), Ok(Reading { humidity: 0, temperature: 0 }));
}

#[test]
fn the_top_bit_of_the_third_byte_makes_the_temperature_negative() {
    // 0x8065: sign bit and 101 tenths.
    assert_eq!(
        decode_dht_data([0x01, 0x90, 0x80, 0x65, 0x76]),
        Ok(Reading { humidity: 400, temperature: -101 })
    );
    assert_eq!(
        decode_dht_data([0xFF, 0xFF, 0xFF, 0xFF, 0xFC]),
        Ok(Reading { humidity: 65535, temperature: -32767 })
    );
    assert_eq!(
        decode_dht_data([0, 0, 0x80, 0, 0x80]),
        Ok(Reading { humidity: 0, temperature: 0 })
    );
}

#[test]
fn the_checksum_is_the_sum_of_four_bytes_cut_to_a_byte() {
    // 0xF0 + 0x20 + 0x7F + 0x03 = 0x192, of which 0x92 is kept.
    assert_eq!(
        decode_dht_data([0xF0, 0x20, 0x7F, 0x03, 0x92]),
        Ok(Reading { humidity: 0xF020, temperature: 0x7F03 })
    );
}

#[test]
fn a_frame_whose_last_byte_is_the_sum_of_three_bytes_only_is_rejected() {
    // 0x32 + 0x08 + 0x15 + 0x05 is 0x54; 0x4F leaves the fourth byte out.
    assert_eq!(decode_dht_data([0x32, 0x08, 0x15, 0x05, 0x4F]), Err(Error::IncorrectParity));
    assert_eq!(
        decode_dht_data([0x32, 0x08, 0x15, 0x05, 0x54]),
        Ok(Reading { humidity: 0x3208, temperature: 0x1505 })
    );
}

#[test]
fn any_other_checksum_byte_is_incorrect_parity() {
    let frame = [0x02, 0x8C, 0x01, 0x5F, 0xEE];
    for changed in 0..=255u8 {
        let mut mutated = frame;
        mutated[4] = changed;
        if changed == frame[4] {
            assert!(decode_dht_data(mutated).is_ok());
        } else {
            assert_eq!(decode_dht_data(mutated), Err(Error::IncorrectParity));
        }
    }
}

#[test]
fn a_reading_is_made_from_the_sensors_signal() {
    let mut sensor = Sensor::answering([0x02, 0x8C, 0x01, 0x5F, 0xEE]);
    let mut reader = Dhtxx::new();
    assert_eq!(read(&mut reader, &mut sensor), Ok(Reading { humidity: 652, temperature: 351 }));
    assert_eq!(
        sensor.actions[..5],
        [
            Action::Drive(false),
            Action::StartTimer(Span::Milliseconds(18)),
            Action::PollTimer,
            Action::PollTimer,
            Action::PollTimer,
        ]
    );
    let count = sensor.actions.len();
    assert_eq!(sensor.actions[count - 2..], [Action::Claim, Action::Drive(true)]);
    assert_eq!(reader.current(), Progress::Idle);
}

#[test]
fn the_waits_are_armed_with_the_spans_and_their_padding() {
    let mut sensor = Sensor::answering([0xFF, 0x00, 0xAA, 0x55, 0xFE]);
    let mut reader = Dhtxx::new();
    assert_eq!(
        read(&mut reader, &mut sensor),
        Ok(Reading { humidity: 0xFF00, temperature: -(0x2A55) })
    );
    let spans: Vec<Span> = sensor
        .actions
        .iter()
        .filter_map(|action| match action {
            Action::StartTimer(span) => Some(*span),
            _ => None,
        })
        .collect();
    assert_eq!(
        spans[..6],
        [
            Span::Milliseconds(18),
            Span::Microseconds(55),
            Span::Microseconds(95),
            Span::Microseconds(95),
            // The first bit is a one: its start, the short wait, and the long wait.
            Span::Microseconds(65),
            Span::Microseconds(43),
        ]
    );
    assert_eq!(spans[6], Span::Microseconds(72));
    // Twenty-three ones with three waits each, seventeen zeros with two.
    assert_eq!(spans.len(), 4 + 23 * 3 + 17 * 2);
}

#[test]
fn a_corrupted_frame_is_incorrect_parity_and_the_pin_is_restored() {
    let mut sensor = Sensor::answering([0x02, 0x8C, 0x01, 0x5F, 0xEF]);
    let mut reader = Dhtxx::new();
    assert_eq!(read(&mut reader, &mut sensor), Err(Error::IncorrectParity));
    let count = sensor.actions.len();
    assert_eq!(sensor.actions[count - 2..], [Action::Claim, Action::Drive(true)]);
}

#[test]
fn a_sensor_that_does_not_answer_times_out_and_the_pin_is_restored() {
    let mut sensor = Sensor::new(Vec::new());
    let mut reader = Dhtxx::new();
    assert_eq!(read(&mut reader, &mut sensor), Err(Error::Timeout));
    let count = sensor.actions.len();
    assert_eq!(sensor.actions[count - 2..], [Action::Claim, Action::Drive(true)]);
    // Eighteen milliseconds of holding the line, and fifty-five microseconds of waiting;
    // the looks at the pin and at the timer take turns, a microsecond each.
    assert_eq!(sensor.now, 18_000 + 56);
    // The reader is ready for the next reading.
    let mut sensor = Sensor::answering([0x02, 0x8C, 0x01, 0x5F, 0xEE]);
    assert_eq!(read(&mut reader, &mut sensor), Ok(Reading { humidity: 652, temperature: 351 }));
}

#[test]
fn a_signal_that_stops_in_the_middle_times_out() {
    // The answer and eleven bits, after which the line stays high.
    let mut waveform = vec![(true, 20), (false, 80), (true, 80)];
    for _ in 0..11 {
        waveform.push((false, 50));
        waveform.push((true, 26));
    }
    waveform.push((false, 50));
    let mut sensor = Sensor::new(waveform);
    let mut reader = Dhtxx::new();
    assert_eq!(read(&mut reader, &mut sensor), Err(Error::Timeout));
    let count = sensor.actions.len();
    assert_eq!(sensor.actions[count - 2..], [Action::Claim, Action::Drive(true)]);
}

#[test]
fn a_line_that_stays_low_before_a_bit_times_out() {
    let mut sensor = Sensor::new(vec![(true, 20), (false, 80), (true, 80), (false, 100_000)]);
    let mut reader = Dhtxx::new();
    assert_eq!(read(&mut reader, &mut sensor), Err(Error::Timeout));
}

#[test]
fn no_second_reading_is_begun_while_one_is_under_way() {
    let mut reader = Dhtxx::new();
    assert_eq!(reader.current(), Progress::Idle);
    assert_eq!(reader.resume(Event::Done), Progress::Idle);
    assert!(reader.make_reading());
    assert!(!reader.make_reading());
    assert_eq!(reader.current(), Progress::Perform(Action::Drive(false)));
    assert_eq!(reader.resume(Event::Level(true)), Progress::Perform(Action::Drive(false)));
}

#[test]
fn other_spans_can_be_configured() {
    let timing = Timing {
        start_hold_ms: 1,
        acknowledge_us: 30,
        response_us: 90,
        bit_start_us: 60,
        zero_us: 30,
        one_us: 75,
        padding_us: 0,
    };
    assert!(timing.is_valid());
    assert_eq!(Timing::dht22().padding_us, 15);
    let mut sensor = Sensor::answering([0x02, 0x8C, 0x01, 0x5F, 0xEE]);
    let mut reader = Dhtxx::with_timing(timing);
    assert_eq!(read(&mut reader, &mut sensor), Ok(Reading { humidity: 652, temperature: 351 }));
    assert!(sensor.actions.contains(&Action::StartTimer(Span::Milliseconds(1))));
    assert!(sensor.actions.contains(&Action::StartTimer(Span::Microseconds(45))));
    let inverted = Timing { zero_us: 80, one_us: 70, ..timing };
    assert!(!inverted.is_valid());
}

#[test]
fn a_wait_for_the_pin_succeeds_as_soon_as_the_level_is_there() {
    let mut wait = wait_for_pin_with_timeout(true, 40);
    assert_eq!(wait.action(), Action::StartTimer(Span::Microseconds(40)));
    assert_eq!(wait.resume(Event::Done), None);
    assert_eq!(wait.action(), Action::Sample);
    assert_eq!(wait.resume(Event::Level(false)), None);
    assert_eq!(wait.action(), Action::PollTimer);
    assert_eq!(wait.resume(Event::Elapsed(false)), None);
    assert_eq!(wait.resume(Event::Level(true)), Some(Ok(())));
    let mut wait = wait_for_pin_with_timeout(false, 40);
    wait.resume(Event::Done);
    assert_eq!(wait.resume(Event::Level(true)), None);
    assert_eq!(wait.resume(Event::Elapsed(true)), Some(Err(Error::Timeout)));
}
