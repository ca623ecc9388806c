//! Reads with a deadline and blocking writes on a serial line, as state machines over
//! what the line and a countdown timer answer.

use vstd::prelude::*;
use crate::pattern::{PatternMatcher, Ring};

verus! {

/// Why a read from the serial line gave no byte.
#[derive(Debug, PartialEq, Eq)]
pub enum Error<E> {
    /// Serial interface error
    Serial(E),
    TimedOut,
}

/// A span of time in milliseconds.
#[derive(Debug, Clone, Copy, PartialEq, Eq, Structural)]
pub struct Millisecond(pub u32);

/// What one non-blocking read of the serial line gave.
#[derive(Debug, PartialEq, Eq)]
pub enum ReadPoll<E> {
    Byte(u8),
    WouldBlock,
    Fault(E),
}

/// What one non-blocking write to the serial line gave.
#[derive(Debug, PartialEq, Eq)]
pub enum WritePoll<E> {
    Accepted,
    WouldBlock,
    Fault(E),
}

/// What one look at the countdown timer gave.
#[derive(Debug, Clone, Copy, PartialEq, Eq, Structural)]
pub enum TimerPoll {
    Elapsed,
    Running,
}

/// One thing that the hardware is asked to do.
#[derive(Debug, Clone, Copy, PartialEq, Eq, Structural)]
pub enum Action {
    /// Drive the modem's reset pin high (`true`) or low.
    ResetPin(bool),
    /// Start the countdown timer afresh with this span.
    StartTimer(Millisecond),
    /// Look whether the countdown has run out.
    PollTimer,
    /// Read a byte from the serial line without blocking.
    PollRead,
    /// Write this byte to the serial line without blocking.
    Write(u8),
}

/// What the hardware answers to an `Action`.
#[derive(Debug, PartialEq, Eq)]
pub enum Event<R, W> {
    /// A pin was driven or the timer was started.
    Done,
    Timer(TimerPoll),
    Read(ReadPoll<R>),
    Write(WritePoll<W>),
}

/// How an operation goes on: with an action for the hardware, or with its
/// result. `Idle` says that no operation is under way.
#[derive(Debug, PartialEq, Eq)]
pub enum Step<T> {
    Perform(Action),
    Finished(T),
    Idle,
}

/// Whether `event` is an answer that the hardware can give to `action`.
pub open spec fn answers<R, W>(action: Action, event: Event<R, W>) -> bool {
    match action {
        Action::ResetPin(_) | Action::StartTimer(_) => event is Done,
        Action::PollTimer => event is Timer,
        Action::PollRead => event is Read,
        Action::Write(_) => event is Write,
    }
}

/// Where a read with a deadline stands.
#[derive(Debug, Clone, Copy, PartialEq, Eq, Structural)]
pub enum ReadPhase {
    /// The countdown has not been started.
    Arm,
    /// The serial line is looked at next.
    Serial,
    /// The countdown is looked at next.
    Timer,
    /// The read has given its result.
    Finished,
}

/// A read of one byte that gives up when a countdown runs out.
#[derive(Debug, Clone, Copy, PartialEq, Eq, Structural)]
pub struct TimedRead {
    pub timeout: Millisecond,
    pub phase: ReadPhase,
}

impl TimedRead {
    /// What the hardware has to do for the read in its present state.
    pub open spec fn pending(self) -> Option<Action> {
        match self.phase {
            ReadPhase::Arm => Some(Action::StartTimer(self.timeout)),
            ReadPhase::Serial => Some(Action::PollRead),
            ReadPhase::Timer => Some(Action::PollTimer),
            ReadPhase::Finished => None,
        }
    }

    /// The state after `event`, and how the read goes on. The serial line is
    /// looked at before the countdown; a byte or a fault of the line ends the
    /// read at once, and so does a countdown that has run out. An event that
    /// does not answer the pending action changes nothing.
    pub open spec fn step<R, W>(self, event: Event<R, W>) -> (TimedRead, Step<Result<u8, Error<R>>>) {
        let finished = TimedRead { timeout: self.timeout, phase: ReadPhase::Finished };
        let serial = TimedRead { timeout: self.timeout, phase: ReadPhase::Serial };
        let timer = TimedRead { timeout: self.timeout, phase: ReadPhase::Timer };
        match (self.phase, event) {
            (ReadPhase::Finished, _) => (self, Step::Idle),
            (ReadPhase::Arm, Event::Done) => (serial, Step::Perform(Action::PollRead)),
            (ReadPhase::Serial, Event::Read(ReadPoll::Byte(byte))) => (
                finished,
                Step::Finished(Ok(byte)),
            ),
            (ReadPhase::Serial, Event::Read(ReadPoll::Fault(fault))) => (
                finished,
                Step::Finished(Err(Error::Serial(fault))),
            ),
            (ReadPhase::Serial, Event::Read(ReadPoll::WouldBlock)) => (
                timer,
                Step::Perform(Action::PollTimer),
            ),
            (ReadPhase::Timer, Event::Timer(TimerPoll::Elapsed)) => (
                finished,
                Step::Finished(Err(Error::TimedOut)),
            ),
            (ReadPhase::Timer, Event::Timer(TimerPoll::Running)) => (
                serial,
                Step::Perform(Action::PollRead),
            ),
            _ => (self, Step::Perform(self.pending()->0)),
        }
    }

    /// What the hardware has to do now, if the read is under way.
    pub fn action(&self) -> (action: Option<Action>)
        ensures
            action == self.pending(),
    {
        match self.phase {
            ReadPhase::Arm => Some(Action::StartTimer(self.timeout)),
            ReadPhase::Serial => Some(Action::PollRead),
            ReadPhase::Timer => Some(Action::PollTimer),
            ReadPhase::Finished => None,
        }
    }

    /// Takes the hardware's answer to the pending action and says how the
    /// read goes on.
    pub fn resume<R, W>(&mut self, event: Event<R, W>) -> (step: Step<Result<u8, Error<R>>>)
        ensures
            *final(self) == old(self).step(event).0,
            step == old(self).step(event).1,
    {
        match self.phase {
            ReadPhase::Finished => Step::Idle,
            ReadPhase::Arm => match event {
                Event::Done => {
                    self.phase = ReadPhase::Serial;
                    Step::Perform(Action::PollRead)
                },
                _ => Step::Perform(Action::StartTimer(self.timeout)),
            },
            ReadPhase::Serial => match event {
                Event::Read(ReadPoll::Byte(byte)) => {
                    self.phase = ReadPhase::Finished;
                    Step::Finished(Ok(byte))
                },
                Event::Read(ReadPoll::Fault(fault)) => {
                    self.phase = ReadPhase::Finished;
                    Step::Finished(Err(Error::Serial(fault)))
                },
                Event::Read(ReadPoll::WouldBlock) => {
                    self.phase = ReadPhase::Timer;
                    Step::Perform(Action::PollTimer)
                },
                _ => Step::Perform(Action::PollRead),
            },
            ReadPhase::Timer => match event {
                Event::Timer(TimerPoll::Elapsed) => {
                    self.phase = ReadPhase::Finished;
                    Step::Finished(Err(Error::TimedOut))
                },
                Event::Timer(TimerPoll::Running) => {
                    self.phase = ReadPhase::Serial;
                    Step::Perform(Action::PollRead)
                },
                _ => Step::Perform(Action::PollTimer),
            },
        }
    }
}

/// Begins a read of one byte that waits for `timeout` at most: the countdown
/// is started with `timeout`, and then the serial line and the countdown are
/// looked at in turn.
pub fn read_with_timeout(timeout: Millisecond) -> (read: TimedRead)
    ensures
        read == (TimedRead { timeout, phase: ReadPhase::Arm }),
{
    TimedRead { timeout, phase: ReadPhase::Arm }
}

impl TimedRead {
    /// The result of the read once the hardware has given `events`, one after
    /// the other, or `None` while the read is still under way.
    pub open spec fn run<R, W>(self, events: Seq<Event<R, W>>) -> Option<Result<u8, Error<R>>>
        decreases events.len(),
    {
        if events.len() == 0 {
            None
        } else {
            match self.step(events[0]).1 {
                Step::Finished(result) => Some(result),
                _ => self.step(events[0]).0.run(events.skip(1)),
            }
        }
    }

    /// Every one of `events` answers the action that was pending when it
    /// came, as far as the read is under way.
    pub open spec fn answered_by<R, W>(self, events: Seq<Event<R, W>>) -> bool
        decreases events.len(),
    {
        events.len() == 0 || self.pending() is None || (answers(self.pending()->0, events[0])
            && self.step(events[0]).0.answered_by(events.skip(1)))
    }
}

/// The line gave neither a byte nor a fault in any of `events`.
pub open spec fn line_silent<R, W>(events: Seq<Event<R, W>>) -> bool {
    forall|i: int|
        0 <= i < events.len() ==> (#[trigger] events[i] matches Event::Read(poll) ==> poll is WouldBlock)
}

/// The countdown was seen to have run out in one of `events`.
pub open spec fn countdown_ended<R, W>(events: Seq<Event<R, W>>) -> bool {
    exists|i: int| 0 <= i < events.len() && #[trigger] events[i] == Event::<R, W>::Timer(TimerPoll::Elapsed)
}

/// On a line that never gives a byte, a read with a deadline ends with
/// `TimedOut` once the countdown that it started is seen to have run out,
/// and has no result before.
pub proof fn lemma_silent_line_times_out<R, W>(read: TimedRead, events: Seq<Event<R, W>>)
    requires
        read.answered_by(events),
        line_silent(events),
    ensures
        read.phase != ReadPhase::Finished && countdown_ended(events) ==> read.run(events) == Some(
            Err::<u8, Error<R>>(Error::TimedOut),
        ),
        !countdown_ended(events) ==> read.run(events) is None,
    decreases events.len(),
{
    if events.len() > 0 {
        let rest = events.skip(1);
        let next = read.step(events[0]).0;
        assert(line_silent(rest)) by {
            assert forall|i: int| 0 <= i < rest.len() implies (#[trigger] rest[i] matches Event::Read(
                poll,
            ) ==> poll is WouldBlock) by {
                assert(rest[i] == events[i + 1]);
            }
        }
        assert(events[0] matches Event::Read(poll) ==> poll is WouldBlock);
        if read.pending() is None {
            assert(next.answered_by(rest));
        }
        lemma_silent_line_times_out(next, rest);
        if countdown_ended(rest) {
            let k = choose|i: int|
                0 <= i < rest.len() && #[trigger] rest[i] == Event::<R, W>::Timer(TimerPoll::Elapsed);
            assert(events[k + 1] == rest[k]);
        }
        if countdown_ended(events) {
            let k = choose|i: int|
                0 <= i < events.len() && #[trigger] events[i] == Event::<R, W>::Timer(
                    TimerPoll::Elapsed,
                );
            if k > 0 {
                assert(rest[k - 1] == events[k]);
            }
        }
    }
}

/// The state of a blocking write: the bytes to send, how many of them the
/// line has accepted, and whether the line has failed.
pub struct WriteProgress {
    pub bytes: Seq<u8>,
    pub written: int,
    pub failed: bool,
}

impl WriteProgress {
    /// No more bytes have gone out than there are.
    pub open spec fn wf(self) -> bool {
        0 <= self.written <= self.bytes.len()
    }

    /// What the hardware has to do for the write in its present state.
    pub open spec fn pending(self) -> Option<Action> {
        if !self.failed && self.written < self.bytes.len() {
            Some(Action::Write(self.bytes[self.written]))
        } else {
            None
        }
    }

    /// How the write goes on in its present state: with the next byte, or
    /// with success once every byte has been accepted. After a fault nothing
    /// is under way.
    pub open spec fn current<W>(self) -> Step<Result<(), W>> {
        if self.failed {
            Step::Idle
        } else if self.written < self.bytes.len() {
            Step::Perform(Action::Write(self.bytes[self.written]))
        } else {
            Step::Finished(Ok(()))
        }
    }

    /// The state after `event`, and how the write goes on. A byte that the
    /// line accepted is followed by the next one; a byte that the line was
    /// not ready for is offered again, as often as it takes; a fault ends the
    /// write, and no byte is offered after it.
    pub open spec fn step<R, W>(self, event: Event<R, W>) -> (WriteProgress, Step<Result<(), W>>) {
        if self.failed || self.written >= self.bytes.len() {
            (self, self.current())
        } else {
            match event {
                Event::Write(WritePoll::Accepted) => {
                    let next = WriteProgress { written: self.written + 1, ..self };
                    (next, next.current())
                },
                Event::Write(WritePoll::Fault(fault)) => (
                    WriteProgress { failed: true, ..self },
                    Step::Finished(Err(fault)),
                ),
                _ => (self, self.current()),
            }
        }
    }
}

/// A write of a run of bytes, one byte at a time, that waits for the line as
/// long as it takes and ends at the first fault.
pub struct WriteAll {
    buffer: Vec<u8>,
    written: usize,
    failed: bool,
}

impl View for WriteAll {
    type V = WriteProgress;

    closed spec fn view(&self) -> WriteProgress {
        WriteProgress { bytes: self.buffer@, written: self.written as int, failed: self.failed }
    }
}

impl WriteAll {
    /// A write of `buffer`, of which nothing has been sent yet.
    pub fn new(buffer: Vec<u8>) -> (write: Self)
        ensures
            write@ == (WriteProgress { bytes: buffer@, written: 0, failed: false }),
            write@.wf(),
    {
        WriteAll { buffer, written: 0, failed: false }
    }

    /// What the hardware has to do now, if the write is under way.
    pub fn action(&self) -> (action: Option<Action>)
        requires
            self@.wf(),
        ensures
            action == self@.pending(),
    {
        if !self.failed && self.written < self.buffer.len() {
            Some(Action::Write(self.buffer[self.written]))
        } else {
            None
        }
    }

    /// How the write goes on in its present state.
    pub fn current<W>(&self) -> (step: Step<Result<(), W>>)
        requires
            self@.wf(),
        ensures
            step == self@.current::<W>(),
    {
        if self.failed {
            Step::Idle
        } else if self.written < self.buffer.len() {
            Step::Perform(Action::Write(self.buffer[self.written]))
        } else {
            Step::Finished(Ok(()))
        }
    }

    /// Takes the hardware's answer to the pending action and says how the
    /// write goes on.
    pub fn resume<R, W>(&mut self, event: Event<R, W>) -> (step: Step<Result<(), W>>)
        requires
            old(self)@.wf(),
        ensures
            final(self)@ == old(self)@.step(event).0,
            step == old(self)@.step(event).1,
            final(self)@.wf(),
    {
        if self.failed || self.written >= self.buffer.len() {
            return self.current();
        }
        match event {
            Event::Write(WritePoll::Accepted) => {
                self.written = self.written + 1;
                self.current()
            },
            Event::Write(WritePoll::Fault(fault)) => {
                self.failed = true;
                Step::Finished(Err(fault))
            },
            _ => self.current(),
        }
    }
}

/// Begins a write of all of `buffer`, byte by byte.
pub fn write_all(buffer: &[u8]) -> (write: WriteAll)
    ensures
        write@ == (WriteProgress { bytes: buffer@, written: 0, failed: false }),
        write@.wf(),
{
    WriteAll::new(vstd::slice::slice_to_vec(buffer))
}

/// What tells, from the ring of the latest bytes, whether a whole message
/// has arrived.
pub trait MessageParser {
    type Message;

    /// The message that a ring with these bytes and this cursor ends with.
    spec fn recognise(&self, buffer: Seq<u8>, offset: int) -> Option<Self::Message>;

    fn parse(&self, buffer: &[u8], offset: usize) -> (message: Option<Self::Message>)
        requires
            offset < buffer@.len(),
        ensures
            message == self.recognise(buffer@, offset as int),
    ;
}

/// The state of a read that goes on until a message is recognised: the read
/// of the next byte, and the ring of the latest bytes.
pub struct MessageProgress {
    pub read: TimedRead,
    pub ring: Ring,
}

impl MessageProgress {
    /// The read as it goes on after a fault of the line that is passed over:
    /// with a look at the countdown that was running.
    pub open spec fn carried_on(self) -> MessageProgress {
        MessageProgress {
            read: TimedRead { timeout: self.read.timeout, phase: ReadPhase::Timer },
            ring: self.ring,
        }
    }

    /// The state after `event`, and how the read goes on. Each byte is read
    /// with the deadline started afresh, is pushed onto the ring, and the
    /// ring is then shown to `parser`: what it recognises is the result. A
    /// deadline that passes or a fault of the line ends the read.
    pub open spec fn step<P: MessageParser, R, W>(self, parser: &P, event: Event<R, W>) -> (
        MessageProgress,
        Step<Result<P::Message, Error<R>>>,
    ) {
        let read = self.read.step(event).0;
        match self.read.step(event).1 {
            Step::Idle => (self, Step::Idle),
            Step::Perform(action) => (MessageProgress { read, ..self }, Step::Perform(action)),
            Step::Finished(Err(error)) => (
                MessageProgress { read, ..self },
                Step::Finished(Err(error)),
            ),
            Step::Finished(Ok(byte)) => {
                let ring = self.ring.push(byte);
                match parser.recognise(ring.bytes, ring.cursor) {
                    Some(message) => (MessageProgress { read, ring }, Step::Finished(Ok(message))),
                    None => (
                        MessageProgress {
                            read: TimedRead { timeout: self.read.timeout, phase: ReadPhase::Arm },
                            ring,
                        },
                        Step::Perform(Action::StartTimer(self.read.timeout)),
                    ),
                }
            },
        }
    }
}

/// A read that takes bytes from the line, each with the same deadline, until
/// the parser recognises a message in the ring of the latest bytes.
pub struct MessageRead<P> {
    read: TimedRead,
    matcher: PatternMatcher,
    parser: P,
}

impl<P> View for MessageRead<P> {
    type V = MessageProgress;

    closed spec fn view(&self) -> MessageProgress {
        MessageProgress { read: self.read, ring: self.matcher@ }
    }
}

impl<P: MessageParser> MessageRead<P> {
    /// The parser that the read shows the ring to.
    pub closed spec fn parser(&self) -> &P {
        &self.parser
    }

    /// What the hardware has to do now, if the read is under way.
    pub fn action(&self) -> (action: Option<Action>)
        ensures
            action == self@.read.pending(),
    {
        self.read.action()
    }

    /// Goes on with the read after a fault of the line that is to be passed
    /// over: the countdown that was running is looked at next, and the ring
    /// is as it was.
    pub fn carry_on(&mut self)
        ensures
            final(self)@ == old(self)@.carried_on(),
            final(self).parser() == old(self).parser(),
    {
        self.read = TimedRead { timeout: self.read.timeout, phase: ReadPhase::Timer };
    }

    /// Takes the hardware's answer to the pending action and says how the
    /// read goes on.
    pub fn resume<R, W>(&mut self, event: Event<R, W>) -> (step: Step<Result<P::Message, Error<R>>>)
        requires
            old(self)@.ring.wf(),
        ensures
            final(self)@ == old(self)@.step(old(self).parser(), event).0,
            step == old(self)@.step(old(self).parser(), event).1,
            final(self).parser() == old(self).parser(),
            final(self)@.ring.wf(),
    {
        match self.read.resume(event) {
            Step::Idle => Step::Idle,
            Step::Perform(action) => Step::Perform(action),
            Step::Finished(Err(error)) => Step::Finished(Err(error)),
            Step::Finished(Ok(byte)) => {
                self.matcher.push(byte);
                match self.parser.parse(self.matcher.buffer(), self.matcher.cursor()) {
                    Some(message) => Step::Finished(Ok(message)),
                    None => {
                        self.read = read_with_timeout(self.read.timeout);
                        Step::Perform(Action::StartTimer(self.read.timeout))
                    },
                }
            },
        }
    }
}

/// Begins a read that goes on until `parser` recognises a message in a ring
/// of `buffer_len` bytes, giving each byte `timeout` to arrive.
pub fn read_until_message<P: MessageParser>(timeout: Millisecond, buffer_len: usize, parser: P) -> (read:
    MessageRead<P>)
    requires
        0 < buffer_len,
    ensures
        read@ == (MessageProgress {
            read: TimedRead { timeout, phase: ReadPhase::Arm },
            ring: Ring::empty(buffer_len as nat),
        }),
        read@.ring.wf(),
        *read.parser() == parser,
{
    MessageRead { read: read_with_timeout(timeout), matcher: PatternMatcher::new(buffer_len), parser }
}

} // verus!
