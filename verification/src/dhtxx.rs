//! Reading a dhtxx sensor: the frame of five bytes and what it decodes to, and the state
//! machine that takes the frame from the timing of the sensor's signal.

use vstd::prelude::*;

verus! {

/// Why a reading failed.
#[derive(Debug, Clone, Copy, PartialEq, Eq, Structural)]
pub enum Error {
    /// The line did not change in time
    Timeout,
    /// The line stayed at a level for a span that is no bit's
    UnexpectedBitDuration,
    /// The checksum of the frame does not hold
    IncorrectParity,
}

/// What the sensor measured, in tenths: tenths of a percent of relative
/// humidity, and tenths of a degree Celsius.
#[derive(Debug, Clone, Copy, PartialEq, Eq, Structural)]
pub struct Reading {
    pub temperature: i32,
    pub humidity: i32,
}

/// The sum of the first four bytes of a frame, cut to a byte.
pub open spec fn checksum(data: Seq<u8>) -> int {
    (data[0] + data[1] + data[2] + data[3]) % 256
}

/// The frame's last byte is the checksum of the four before it.
pub open spec fn frame_valid(data: Seq<u8>) -> bool {
    data[4] == checksum(data)
}

/// The humidity that a frame carries, in tenths of a percent: the first two
/// bytes as one number.
pub open spec fn humidity_tenths(data: Seq<u8>) -> int {
    data[0] * 256 + data[1]
}

/// The temperature that a frame carries, in tenths of a degree: the low
/// fifteen bits of the third and fourth byte as one number, negative where
/// the top bit is set.
pub open spec fn temperature_tenths(data: Seq<u8>) -> int {
    let magnitude = (data[2] % 128) * 256 + data[3];
    if data[2] >= 128 {
        -magnitude
    } else {
        magnitude
    }
}

/// What a frame of five bytes decodes to: its reading where the checksum
/// holds, and `IncorrectParity` where it does not.
pub open spec fn decoded(data: Seq<u8>) -> Result<Reading, Error> {
    if frame_valid(data) {
        Ok(
            Reading {
                temperature: temperature_tenths(data) as i32,
                humidity: humidity_tenths(data) as i32,
            },
        )
    } else {
        Err(Error::IncorrectParity)
    }
}

/// Decodes a byte sequence received from a dhtxx sensor.
pub fn decode_dht_data(data: [u8; 5]) -> (reading: Result<Reading, Error>)
    ensures
        reading == decoded(data@),
{
    // Check the parity byte
    let sum: u32 = data[0] as u32 + data[1] as u32 + data[2] as u32 + data[3] as u32;
    let parity: u32 = sum % 256;
    if parity != data[4] as u32 {
        return Err(Error::IncorrectParity);
    }
    // Humidity is simply a 16 bit number
    let humidity: i32 = 256 * (data[0] as i32) + data[1] as i32;
    // Absolute value of the temperature is the 15 least significant bits of the reading
    let temperature_abs: i32 = ((data[2] % 128) as i32) * 256 + data[3] as i32;
    // The sign of the temperature is negative if the msb is 1
    let temperature_negative = data[2] >= 128;
    // Apply the sign
    let temperature = if temperature_negative {
        -temperature_abs
    } else {
        temperature_abs
    };
    Ok(Reading { humidity, temperature })
}

/// A frame whose checksum held no longer decodes once its checksum byte is
/// changed: the result is `IncorrectParity`, whatever the new byte.
pub proof fn lemma_changed_checksum_is_rejected(data: Seq<u8>, changed: u8)
    requires
        data.len() == 5,
        frame_valid(data),
        changed != data[4],
    ensures
        decoded(data.update(4, changed)) == Err::<Reading, Error>(Error::IncorrectParity),
{
}

/// A span of time for the countdown timer.
#[derive(Debug, Clone, Copy, PartialEq, Eq, Structural)]
pub enum Span {
    Milliseconds(u32),
    Microseconds(u32),
}

/// One thing that the hardware is asked to do for a reading.
#[derive(Debug, Clone, Copy, PartialEq, Eq, Structural)]
pub enum Action {
    /// Drive the data pin, which is an output, high (`true`) or low.
    Drive(bool),
    /// Make the data pin a floating input, so that the sensor can drive the
    /// line.
    Release,
    /// Make the data pin an output again.
    Claim,
    /// Start the countdown timer afresh with this span.
    StartTimer(Span),
    /// Look whether the countdown has run out.
    PollTimer,
    /// Read the level of the data pin.
    Sample,
}

/// What the hardware answers to an `Action`.
#[derive(Debug, Clone, Copy, PartialEq, Eq, Structural)]
pub enum Event {
    /// The pin was driven or switched, or the timer was started.
    Done,
    /// Whether the countdown has run out.
    Elapsed(bool),
    /// Whether the data pin is high.
    Level(bool),
}

/// How a reading goes on: with an action for the hardware, or with its
/// result. `Idle` says that no reading is under way.
#[derive(Debug, Clone, Copy, PartialEq, Eq)]
pub enum Progress {
    Perform(Action),
    Finished(Result<Reading, Error>),
    Idle,
}

/// The spans of the sensor's signal, which depend on the sensor and on how
/// fine the timer is.
#[derive(Debug, Clone, Copy, PartialEq, Eq, Structural)]
pub struct Timing {
    /// How long the line is held low to ask for a reading, in milliseconds.
    pub start_hold_ms: u32,
    /// Within how many microseconds the sensor pulls the line low in answer.
    pub acknowledge_us: u32,
    /// How long the sensor keeps the line low, and then high, before the
    /// data, in microseconds.
    pub response_us: u32,
    /// How long the line is low before each bit, in microseconds.
    pub bit_start_us: u32,
    /// How long the line is high for a zero bit, in microseconds.
    pub zero_us: u32,
    /// How long the line is high for a one bit, in microseconds.
    pub one_us: u32,
    /// What is added to each span to make up for the clock's jitter, in
    /// microseconds.
    pub padding_us: u32,
}

/// The longest span that a `Timing` may hold: a second, in microseconds.
pub const LONGEST_SPAN: u32 = 1_000_000;

impl Timing {
    /// No span is longer than a second, and a one bit is not shorter than a
    /// zero bit.
    pub open spec fn valid(self) -> bool {
        &&& self.start_hold_ms <= LONGEST_SPAN
        &&& self.acknowledge_us <= LONGEST_SPAN
        &&& self.response_us <= LONGEST_SPAN
        &&& self.bit_start_us <= LONGEST_SPAN
        &&& self.zero_us <= self.one_us <= LONGEST_SPAN
        &&& self.padding_us <= LONGEST_SPAN
    }

    /// The spans of a DHT22 on a timer of a microsecond's resolution.
    pub open spec fn standard() -> Timing {
        Timing {
            start_hold_ms: 18,
            acknowledge_us: 40,
            response_us: 80,
            bit_start_us: 50,
            zero_us: 28,
            one_us: 70,
            padding_us: 15,
        }
    }

    /// The spans of a DHT22 on a timer of a microsecond's resolution.
    pub fn dht22() -> (timing: Timing)
        ensures
            timing == Timing::standard(),
            timing.valid(),
    {
        Timing {
            start_hold_ms: 18,
            acknowledge_us: 40,
            response_us: 80,
            bit_start_us: 50,
            zero_us: 28,
            one_us: 70,
            padding_us: 15,
        }
    }

    /// Whether the spans are such that a reading can be made with them.
    pub fn is_valid(&self) -> (valid: bool)
        ensures
            valid == self.valid(),
    {
        self.start_hold_ms <= LONGEST_SPAN && self.acknowledge_us <= LONGEST_SPAN
            && self.response_us <= LONGEST_SPAN && self.bit_start_us <= LONGEST_SPAN
            && self.zero_us <= self.one_us && self.one_us <= LONGEST_SPAN && self.padding_us
            <= LONGEST_SPAN
    }
}

/// Where a wait for a level of the pin stands.
#[derive(Debug, Clone, Copy, PartialEq, Eq, Structural)]
pub enum WaitPhase {
    /// The countdown has not been started.
    Arm,
    /// The pin is looked at next.
    Sample,
    /// The countdown is looked at next.
    Timer,
}

/// A wait for the pin to be at `level` that gives up after `timeout_us`
/// microseconds.
#[derive(Debug, Clone, Copy, PartialEq, Eq, Structural)]
pub struct PinWait {
    pub level: bool,
    pub timeout_us: u32,
    pub phase: WaitPhase,
}

impl PinWait {
    /// What the hardware has to do for the wait in its present state.
    pub open spec fn pending(self) -> Action {
        match self.phase {
            WaitPhase::Arm => Action::StartTimer(Span::Microseconds(self.timeout_us)),
            WaitPhase::Sample => Action::Sample,
            WaitPhase::Timer => Action::PollTimer,
        }
    }

    /// The state after `event`, and the result of the wait if `event` ends
    /// it. The pin is looked at before the countdown: the wait succeeds as
    /// soon as the pin is at the level waited for, and fails with `Timeout`
    /// when the countdown has run out first. An event that does not answer
    /// the pending action changes nothing.
    pub open spec fn step(self, event: Event) -> (PinWait, Option<Result<(), Error>>) {
        match (self.phase, event) {
            (WaitPhase::Arm, Event::Done) => (PinWait { phase: WaitPhase::Sample, ..self }, None),
            (WaitPhase::Sample, Event::Level(level)) => if level == self.level {
                (self, Some(Ok(())))
            } else {
                (PinWait { phase: WaitPhase::Timer, ..self }, None)
            },
            (WaitPhase::Timer, Event::Elapsed(elapsed)) => if elapsed {
                (self, Some(Err(Error::Timeout)))
            } else {
                (PinWait { phase: WaitPhase::Sample, ..self }, None)
            },
            _ => (self, None),
        }
    }

    /// What the hardware has to do now.
    pub fn action(&self) -> (action: Action)
        ensures
            action == self.pending(),
    {
        match self.phase {
            WaitPhase::Arm => Action::StartTimer(Span::Microseconds(self.timeout_us)),
            WaitPhase::Sample => Action::Sample,
            WaitPhase::Timer => Action::PollTimer,
        }
    }

    /// Takes the hardware's answer to the pending action and gives the
    /// result of the wait, if the answer ends it.
    pub fn resume(&mut self, event: Event) -> (result: Option<Result<(), Error>>)
        ensures
            *final(self) == old(self).step(event).0,
            result == old(self).step(event).1,
    {
        match self.phase {
            WaitPhase::Arm => match event {
                Event::Done => {
                    self.phase = WaitPhase::Sample;
                    None
                },
                _ => None,
            },
            WaitPhase::Sample => match event {
                Event::Level(level) => if level == self.level {
                    Some(Ok(()))
                } else {
                    self.phase = WaitPhase::Timer;
                    None
                },
                _ => None,
            },
            WaitPhase::Timer => match event {
                Event::Elapsed(elapsed) => if elapsed {
                    Some(Err(Error::Timeout))
                } else {
                    self.phase = WaitPhase::Sample;
                    None
                },
                _ => None,
            },
        }
    }
}

/// Begins a wait for the pin to be high (`pin_high`) or low that gives up
/// after `timeout_us` microseconds.
pub fn wait_for_pin_with_timeout(pin_high: bool, timeout_us: u32) -> (wait: PinWait)
    ensures
        wait == (PinWait { level: pin_high, timeout_us, phase: WaitPhase::Arm }),
{
    PinWait { level: pin_high, timeout_us, phase: WaitPhase::Arm }
}

/// Where a reading stands.
#[derive(Debug, Clone, Copy, PartialEq, Eq, Structural)]
pub enum Stage {
    /// No reading is under way.
    Idle,
    /// The line is pulled low to ask for a reading.
    Request,
    /// The line is held low.
    Hold { armed: bool },
    /// The pin is handed to the sensor.
    Release,
    /// The sensor's answer is waited for: the line goes low, high, and low
    /// again. `seen` counts the levels seen.
    Handshake { seen: u8, wait: PinWait },
    /// The line is waited to go high, which begins a bit.
    BitStart(PinWait),
    /// The line is waited to go low within the span of a zero bit.
    BitShort(PinWait),
    /// The line is waited to go low within the span of a one bit.
    BitLong(PinWait),
    /// The pin is taken back as an output.
    Claim,
    /// The line is driven high, where it rests.
    Rest,
}

/// The state of a reading: the spans, where the reading stands, the bytes
/// and bits received, and the result once it is known.
pub struct ReadingState {
    pub timing: Timing,
    pub stage: Stage,
    pub frame: Seq<u8>,
    pub current: u8,
    pub filled: u8,
    pub result: Result<Reading, Error>,
}

/// The byte `current` with `bit` pushed in from the right.
pub open spec fn with_bit(current: u8, bit: bool) -> u8 {
    ((current * 2 + if bit {
        1int
    } else {
        0int
    }) % 256) as u8
}

impl ReadingState {
    /// The spans are valid, and a frame and a byte that are being received
    /// are not full.
    pub open spec fn wf(self) -> bool {
        &&& self.timing.valid()
        &&& self.frame.len() < 5
        &&& self.filled < 8
    }

    /// The wait for the level number `seen` of the sensor's answer.
    pub open spec fn handshake_wait(self, seen: u8) -> PinWait {
        PinWait {
            level: seen == 1,
            timeout_us: if seen == 0 {
                (self.timing.acknowledge_us + self.timing.padding_us) as u32
            } else {
                (self.timing.response_us + self.timing.padding_us) as u32
            },
            phase: WaitPhase::Arm,
        }
    }

    /// The wait for the line to go high before a bit.
    pub open spec fn bit_start_wait(self) -> PinWait {
        PinWait {
            level: true,
            timeout_us: (self.timing.bit_start_us + self.timing.padding_us) as u32,
            phase: WaitPhase::Arm,
        }
    }

    /// The wait for the line to go low that tells a zero bit.
    pub open spec fn short_wait(self) -> PinWait {
        PinWait {
            level: false,
            timeout_us: (self.timing.zero_us + self.timing.padding_us) as u32,
            phase: WaitPhase::Arm,
        }
    }

    /// The wait for the line to go low that tells a one bit: what is left of
    /// a one bit's span after a zero bit's.
    pub open spec fn long_wait(self) -> PinWait {
        PinWait {
            level: false,
            timeout_us: (self.timing.one_us - self.timing.zero_us + 2 * self.timing.padding_us) as u32,
            phase: WaitPhase::Arm,
        }
    }

    /// What the hardware has to do now, if a reading is under way.
    pub open spec fn pending(self) -> Option<Action> {
        match self.stage {
            Stage::Idle => None,
            Stage::Request => Some(Action::Drive(false)),
            Stage::Hold { armed } => if armed {
                Some(Action::PollTimer)
            } else {
                Some(Action::StartTimer(Span::Milliseconds(self.timing.start_hold_ms)))
            },
            Stage::Release => Some(Action::Release),
            Stage::Handshake { wait, .. } => Some(wait.pending()),
            Stage::BitStart(wait) => Some(wait.pending()),
            Stage::BitShort(wait) => Some(wait.pending()),
            Stage::BitLong(wait) => Some(wait.pending()),
            Stage::Claim => Some(Action::Claim),
            Stage::Rest => Some(Action::Drive(true)),
        }
    }

    /// The reading at `stage`, going on with the action that waits there.
    pub open spec fn at(self, stage: Stage) -> (ReadingState, Progress) {
        let next = ReadingState { stage, ..self };
        (next, Progress::Perform(next.pending()->0))
    }

    /// The reading with its result known: what is left is to take the pin
    /// back.
    pub open spec fn conclude(self, result: Result<Reading, Error>) -> (ReadingState, Progress) {
        (ReadingState { stage: Stage::Claim, result, ..self }, Progress::Perform(Action::Claim))
    }

    /// The reading after `bit` was received. Bits fill each byte from its
    /// most significant bit down; the fifth byte completes the frame, which
    /// is then decoded.
    pub open spec fn receive(self, bit: bool) -> (ReadingState, Progress) {
        let byte = with_bit(self.current, bit);
        if self.filled < 7 {
            ReadingState { current: byte, filled: (self.filled + 1) as u8, ..self }.at(
                Stage::BitStart(self.bit_start_wait()),
            )
        } else if self.frame.len() < 4 {
            ReadingState { frame: self.frame.push(byte), current: 0, filled: 0, ..self }.at(
                Stage::BitStart(self.bit_start_wait()),
            )
        } else {
            ReadingState { frame: Seq::empty(), current: 0, filled: 0, ..self }.conclude(
                decoded(self.frame.push(byte)),
            )
        }
    }

    /// The state after `event`, and how the reading goes on.
    ///
    /// The line is pulled low and held, and the pin is handed to the sensor.
    /// The sensor has to pull the line low, high and low again, each in its
    /// time. Then, forty times, the line has to go high in time, and low
    /// again: within the span of a zero bit, which gives a zero, or else
    /// within the rest of the span of a one bit, which gives a one. A wait
    /// that runs out ends the reading with `Timeout`. However the reading
    /// ends, the pin is taken back as an output and driven high before the
    /// result is given.
    pub open spec fn step(self, event: Event) -> (ReadingState, Progress) {
        match self.stage {
            Stage::Idle => (self, Progress::Idle),
            Stage::Request => if event is Done {
                self.at(Stage::Hold { armed: false })
            } else {
                self.at(self.stage)
            },
            Stage::Hold { armed } => match (armed, event) {
                (false, Event::Done) => self.at(Stage::Hold { armed: true }),
                (true, Event::Elapsed(true)) => self.at(Stage::Release),
                _ => self.at(self.stage),
            },
            Stage::Release => if event is Done {
                self.at(Stage::Handshake { seen: 0, wait: self.handshake_wait(0) })
            } else {
                self.at(self.stage)
            },
            Stage::Handshake { seen, wait } => match wait.step(event).1 {
                None => self.at(Stage::Handshake { seen, wait: wait.step(event).0 }),
                Some(Err(error)) => self.conclude(Err(error)),
                Some(Ok(_)) => if seen < 2 {
                    self.at(
                        Stage::Handshake {
                            seen: (seen + 1) as u8,
                            wait: self.handshake_wait((seen + 1) as u8),
                        },
                    )
                } else {
                    self.at(Stage::BitStart(self.bit_start_wait()))
                },
            },
            Stage::BitStart(wait) => match wait.step(event).1 {
                None => self.at(Stage::BitStart(wait.step(event).0)),
                Some(Err(error)) => self.conclude(Err(error)),
                Some(Ok(_)) => self.at(Stage::BitShort(self.short_wait())),
            },
            Stage::BitShort(wait) => match wait.step(event).1 {
                None => self.at(Stage::BitShort(wait.step(event).0)),
                Some(Err(_)) => self.at(Stage::BitLong(self.long_wait())),
                Some(Ok(_)) => self.receive(false),
            },
            Stage::BitLong(wait) => match wait.step(event).1 {
                None => self.at(Stage::BitLong(wait.step(event).0)),
                Some(Err(_)) => self.conclude(Err(Error::Timeout)),
                Some(Ok(_)) => self.receive(true),
            },
            Stage::Claim => if event is Done {
                self.at(Stage::Rest)
            } else {
                self.at(self.stage)
            },
            Stage::Rest => if event is Done {
                (ReadingState { stage: Stage::Idle, ..self }, Progress::Finished(self.result))
            } else {
                self.at(self.stage)
            },
        }
    }
}

/// Reader of a dhtxx sensor on one pin.
///
/// The reader does no input or output. It says what the hardware has to do
/// next, takes what the hardware answered, and so goes through a reading.
pub struct Dhtxx {
    timing: Timing,
    stage: Stage,
    frame: Vec<u8>,
    current: u8,
    filled: u8,
    result: Result<Reading, Error>,
}

impl View for Dhtxx {
    type V = ReadingState;

    closed spec fn view(&self) -> ReadingState {
        ReadingState {
            timing: self.timing,
            stage: self.stage,
            frame: self.frame@,
            current: self.current,
            filled: self.filled,
            result: self.result,
        }
    }
}

/// The state of a reader with `timing` that has not read anything.
pub open spec fn idle_reader(timing: Timing) -> ReadingState {
    ReadingState {
        timing,
        stage: Stage::Idle,
        frame: Seq::empty(),
        current: 0,
        filled: 0,
        result: Err(Error::Timeout),
    }
}

impl Dhtxx {
    /// A reader with the spans of a DHT22.
    pub fn new() -> (reader: Self)
        ensures
            reader@ == idle_reader(Timing::standard()),
            reader@.wf(),
    {
        Self::with_timing(Timing::dht22())
    }

    /// A reader with the spans `timing`.
    pub fn with_timing(timing: Timing) -> (reader: Self)
        requires
            timing.valid(),
        ensures
            reader@ == idle_reader(timing),
            reader@.wf(),
    {
        Dhtxx {
            timing,
            stage: Stage::Idle,
            frame: Vec::new(),
            current: 0,
            filled: 0,
            result: Err(Error::Timeout),
        }
    }

    /// Begins a reading, unless one is under way.
    pub fn make_reading(&mut self) -> (started: bool)
        requires
            old(self)@.wf(),
        ensures
            started == (old(self)@.stage == Stage::Idle),
            final(self)@ == if started {
                ReadingState { stage: Stage::Request, ..idle_reader(old(self)@.timing) }
            } else {
                old(self)@
            },
            final(self)@.wf(),
    {
        if self.stage != Stage::Idle {
            return false;
        }
        self.stage = Stage::Request;
        self.frame.clear();
        self.current = 0;
        self.filled = 0;
        self.result = Err(Error::Timeout);
        true
    }

    /// What the hardware has to do now, if a reading is under way.
    pub fn current(&self) -> (progress: Progress)
        ensures
            progress == match self@.pending() {
                Some(action) => Progress::Perform(action),
                None => Progress::Idle,
            },
    {
        match self.stage {
            Stage::Idle => Progress::Idle,
            Stage::Request => Progress::Perform(Action::Drive(false)),
            Stage::Hold { armed } => if armed {
                Progress::Perform(Action::PollTimer)
            } else {
                Progress::Perform(
                    Action::StartTimer(Span::Milliseconds(self.timing.start_hold_ms)),
                )
            },
            Stage::Release => Progress::Perform(Action::Release),
            Stage::Handshake { wait, .. } => Progress::Perform(wait.action()),
            Stage::BitStart(wait) => Progress::Perform(wait.action()),
            Stage::BitShort(wait) => Progress::Perform(wait.action()),
            Stage::BitLong(wait) => Progress::Perform(wait.action()),
            Stage::Claim => Progress::Perform(Action::Claim),
            Stage::Rest => Progress::Perform(Action::Drive(true)),
        }
    }

    fn handshake_wait(&self, seen: u8) -> (wait: PinWait)
        requires
            self@.wf(),
        ensures
            wait == self@.handshake_wait(seen),
    {
        if seen == 0 {
            wait_for_pin_with_timeout(false, self.timing.acknowledge_us + self.timing.padding_us)
        } else {
            wait_for_pin_with_timeout(seen == 1, self.timing.response_us + self.timing.padding_us)
        }
    }

    fn bit_start_wait(&self) -> (wait: PinWait)
        requires
            self@.wf(),
        ensures
            wait == self@.bit_start_wait(),
    {
        wait_for_pin_with_timeout(true, self.timing.bit_start_us + self.timing.padding_us)
    }

    fn enter(&mut self, stage: Stage) -> (progress: Progress)
        requires
            old(self)@.wf(),
            stage != Stage::Idle,
        ensures
            final(self)@ == old(self)@.at(stage).0,
            progress == old(self)@.at(stage).1,
            final(self)@.wf(),
    {
        self.stage = stage;
        self.current()
    }

    fn conclude(&mut self, result: Result<Reading, Error>) -> (progress: Progress)
        requires
            old(self)@.wf(),
        ensures
            final(self)@ == old(self)@.conclude(result).0,
            progress == old(self)@.conclude(result).1,
            final(self)@.wf(),
    {
        self.stage = Stage::Claim;
        self.result = result;
        Progress::Perform(Action::Claim)
    }

    fn receive(&mut self, bit: bool) -> (progress: Progress)
        requires
            old(self)@.wf(),
        ensures
            final(self)@ == old(self)@.receive(bit).0,
            progress == old(self)@.receive(bit).1,
            final(self)@.wf(),
    {
        let shifted: u16 = self.current as u16 * 2 + if bit {
            1
        } else {
            0
        };
        let byte: u8 = (shifted % 256) as u8;
        let next = self.bit_start_wait();
        if self.filled < 7 {
            self.current = byte;
            self.filled = self.filled + 1;
            self.enter(Stage::BitStart(next))
        } else if self.frame.len() < 4 {
            self.frame.push(byte);
            self.current = 0;
            self.filled = 0;
            self.enter(Stage::BitStart(next))
        } else {
            let data: [u8; 5] = [self.frame[0], self.frame[1], self.frame[2], self.frame[3], byte];
            assert(data@ =~= self.frame@.push(byte));
            let result = decode_dht_data(data);
            self.frame.clear();
            self.current = 0;
            self.filled = 0;
            self.conclude(result)
        }
    }

    /// Takes the hardware's answer to the pending action and says how the
    /// reading goes on.
    pub fn resume(&mut self, event: Event) -> (progress: Progress)
        requires
            old(self)@.wf(),
        ensures
            final(self)@ == old(self)@.step(event).0,
            progress == old(self)@.step(event).1,
            final(self)@.wf(),
    {
        match self.stage {
            Stage::Idle => Progress::Idle,
            Stage::Request => match event {
                Event::Done => self.enter(Stage::Hold { armed: false }),
                _ => self.current(),
            },
            Stage::Hold { armed } => {
                if armed {
                    match event {
                        Event::Elapsed(true) => self.enter(Stage::Release),
                        _ => self.current(),
                    }
                } else {
                    match event {
                        Event::Done => self.enter(Stage::Hold { armed: true }),
                        _ => self.current(),
                    }
                }
            },
            Stage::Release => match event {
                Event::Done => {
                    let wait = self.handshake_wait(0);
                    self.enter(Stage::Handshake { seen: 0, wait })
                },
                _ => self.current(),
            },
            Stage::Handshake { seen, wait } => {
                let mut wait = wait;
                match wait.resume(event) {
                    None => self.enter(Stage::Handshake { seen, wait }),
                    Some(Err(error)) => self.conclude(Err(error)),
                    Some(Ok(_)) => if seen < 2 {
                        let wait = self.handshake_wait(seen + 1);
                        self.enter(Stage::Handshake { seen: seen + 1, wait })
                    } else {
                        let wait = self.bit_start_wait();
                        self.enter(Stage::BitStart(wait))
                    },
                }
            },
            Stage::BitStart(wait) => {
                let mut wait = wait;
                match wait.resume(event) {
                    None => self.enter(Stage::BitStart(wait)),
                    Some(Err(error)) => self.conclude(Err(error)),
                    Some(Ok(_)) => {
                        let wait = wait_for_pin_with_timeout(
                            false,
                            self.timing.zero_us + self.timing.padding_us,
                        );
                        self.enter(Stage::BitShort(wait))
                    },
                }
            },
            Stage::BitShort(wait) => {
                let mut wait = wait;
                match wait.resume(event) {
                    None => self.enter(Stage::BitShort(wait)),
                    Some(Err(_)) => {
                        let wait = wait_for_pin_with_timeout(
                            false,
                            self.timing.one_us - self.timing.zero_us + 2 * self.timing.padding_us,
                        );
                        self.enter(Stage::BitLong(wait))
                    },
                    Some(Ok(_)) => self.receive(false),
                }
            },
            Stage::BitLong(wait) => {
                let mut wait = wait;
                match wait.resume(event) {
                    None => self.enter(Stage::BitLong(wait)),
                    Some(Err(_)) => self.conclude(Err(Error::Timeout)),
                    Some(Ok(_)) => self.receive(true),
                }
            },
            Stage::Claim => match event {
                Event::Done => self.enter(Stage::Rest),
                _ => self.current(),
            },
            Stage::Rest => match event {
                Event::Done => {
                    self.stage = Stage::Idle;
                    Progress::Finished(self.result)
                },
                _ => self.current(),
            },
        }
    }
}

/// The number that a bit stands for.
pub open spec fn bit_value(bit: bool) -> int {
    if bit {
        1
    } else {
        0
    }
}

/// Eight bits pushed into an empty byte make the byte that has them as its
/// binary digits, the first bit as the most significant.
pub proof fn lemma_byte_of_bits(bits: Seq<bool>)
    requires
        bits.len() == 8,
    ensures
        with_bit(
            with_bit(
                with_bit(
                    with_bit(
                        with_bit(with_bit(with_bit(with_bit(0, bits[0]), bits[1]), bits[2]), bits[3]),
                        bits[4],
                    ),
                    bits[5],
                ),
                bits[6],
            ),
            bits[7],
        ) == 128 * bit_value(bits[0]) + 64 * bit_value(bits[1]) + 32 * bit_value(bits[2]) + 16
            * bit_value(bits[3]) + 8 * bit_value(bits[4]) + 4 * bit_value(bits[5]) + 2 * bit_value(
            bits[6],
        ) + bit_value(bits[7]),
{
    let b1 = with_bit(0, bits[0]);
    assert(b1 == bit_value(bits[0]));
    let b2 = with_bit(b1, bits[1]);
    assert(b2 == 2 * b1 + bit_value(bits[1]));
    let b3 = with_bit(b2, bits[2]);
    assert(b3 == 2 * b2 + bit_value(bits[2]));
    let b4 = with_bit(b3, bits[3]);
    assert(b4 == 2 * b3 + bit_value(bits[3]));
    let b5 = with_bit(b4, bits[4]);
    assert(b5 == 2 * b4 + bit_value(bits[4]));
    let b6 = with_bit(b5, bits[5]);
    assert(b6 == 2 * b5 + bit_value(bits[5]));
    let b7 = with_bit(b6, bits[6]);
    assert(b7 == 2 * b6 + bit_value(bits[6]));
    let b8 = with_bit(b7, bits[7]);
    assert(b8 == 2 * b7 + bit_value(bits[7]));
}

/// A reading gives its result only in answer to the line having been driven
/// high, and the line is driven high only after the pin has been taken back
/// as an output: on every way out of a reading, with a reading or with an
/// error, the pin is an output again before the result is there.
pub proof fn lemma_pin_is_restored(state: ReadingState, event: Event)
    ensures
        state.step(event).1 is Finished ==> state.pending() == Some(Action::Drive(true)) && event
            is Done,
        state.step(event).0.stage == Stage::Rest ==> state.stage == Stage::Rest || (
        state.pending() == Some(Action::Claim) && event is Done),
        state.step(event).0.stage == Stage::Idle ==> state.stage == Stage::Idle || state.step(
            event,
        ).1 is Finished,
        state.step(event).1 matches Progress::Finished(result) ==> result == state.result,
{
}

/// A result is fixed when the pin is taken back, and is what the reading
/// gives in the end.
pub proof fn lemma_result_is_kept(state: ReadingState, event: Event)
    requires
        state.stage == Stage::Claim || state.stage == Stage::Rest,
    ensures
        state.step(event).0.result == state.result,
        state.step(event).0.stage != Stage::Idle ==> state.step(event).0.stage == Stage::Claim
            || state.step(event).0.stage == Stage::Rest,
{
}

} // verus!
