//! The driver of the esp8266 modem: its errors, the stages that its operations are made
//! of, and the state machine that goes through them.

use vstd::prelude::*;
use vstd::string::StringSliceAdditionalSpecFns;
use crate::at::{
    at_command, at_command_text, close_command_text, connect_command, connect_command_text,
    parse_at_response, recognised_response, send_length_command, send_length_command_text,
    ATResponse, ConnectionType, AT_RESPONSE_BUFFER_SIZE,
};
use crate::pattern::Ring;
use crate::serial;
use crate::serial::{
    read_until_message, Action, Event, MessageParser, MessageProgress,
    MessageRead, Millisecond, ReadPhase, Step, TimedRead, TimerPoll, WriteAll, WriteProgress,
};

verus! {

/// How long the modem is given for each byte of a reply, and for the first
/// byte after a reset, in milliseconds.
pub const SESSION_TIMEOUT: u32 = 5000;

/// How long the reset pin is held low, in milliseconds.
pub const RESET_HOLD: u32 = 10;

/// Error type for esp communication.
///
/// `R` and `T` are the error types of the serial module.
#[derive(Debug, PartialEq, Eq)]
pub enum Error<R, T> {
    /// Serial transmission errors
    TxError(T),
    /// Serial reception errors
    RxError(R),
    /// Invalid or unexpected data received from the device
    UnexpectedResponse(ATResponse),
    /// Errors from the formatting of messages
    Fmt,
    /// Error indicating that a fixed-size text buffer wasn't big enough
    Capacity,
    /// The device did not come back from a reset in time
    ResetTimeout,
}

/// Indicates what step in the data transmission the sensor is in. Used in
/// `TransmissionError` for reporting information about where things went
/// wrong.
#[derive(Debug, Clone, Copy, PartialEq, Eq, Structural)]
pub enum TransmissionStep {
    Connect,
    Send,
    Close,
}

/// An error of a transmission, with the step in which it came up.
#[derive(Debug, PartialEq, Eq)]
pub struct TransmissionError<R, T> {
    pub step: TransmissionStep,
    pub cause: Error<R, T>,
}

impl<R, T> TransmissionError<R, T> {
    /// Tags the error of `cause`, if it holds one, with `step`.
    pub fn try_step<RetType>(step: TransmissionStep, cause: Result<RetType, Error<R, T>>) -> (tagged:
        Result<RetType, Self>)
        ensures
            tagged == match cause {
                Ok(value) => Ok::<RetType, Self>(value),
                Err(error) => Err(TransmissionError { step, cause: error }),
            },
    {
        match cause {
            Ok(value) => Ok(value),
            Err(error) => Err(TransmissionError { step, cause: error }),
        }
    }
}

/// Recognises the modem's reply lines in the ring of the latest bytes.
#[derive(Debug, Clone, Copy)]
pub struct ResponseParser;

impl MessageParser for ResponseParser {
    type Message = ATResponse;

    open spec fn recognise(&self, buffer: Seq<u8>, offset: int) -> Option<ATResponse> {
        recognised_response(buffer, offset)
    }

    fn parse(&self, buffer: &[u8], offset: usize) -> (message: Option<ATResponse>) {
        parse_at_response(buffer, offset)
    }
}

/// Recognises the `>` with which the modem asks for the payload.
#[derive(Debug, Clone, Copy)]
pub struct PromptParser;

impl MessageParser for PromptParser {
    type Message = ();

    open spec fn recognise(&self, buffer: Seq<u8>, offset: int) -> Option<()> {
        if buffer[0] == 62u8 {
            Some(())
        } else {
            None
        }
    }

    fn parse(&self, buffer: &[u8], offset: usize) -> (message: Option<()>) {
        if buffer[0] == 62u8 {
            Some(())
        } else {
            None
        }
    }
}

/// What the driver knows of the modem.
#[derive(Debug, Clone, Copy, PartialEq, Eq, Structural)]
pub enum DriverState {
    /// The modem has not been reset and told to stop echoing, or that failed.
    Uninitialized,
    /// The modem is set up. This is where the driver rests between
    /// operations.
    Idle,
    /// In a transmission, the modem has acknowledged the connect command and
    /// not yet the close command.
    Connected,
}

/// How an operation of the driver goes on: with an action for the hardware,
/// with the result of a command, or with the result of a transmission.
/// `Idle` says that no operation is under way.
#[derive(Debug, PartialEq, Eq)]
pub enum Progress<R, W> {
    Perform(Action),
    Done(Result<(), Error<serial::Error<R>, W>>),
    Sent(Result<(), TransmissionError<serial::Error<R>, W>>),
    Idle,
}

/// How one stage of an operation goes on: with an action for the hardware,
/// with the next stage, or with the failure of the operation.
#[derive(Debug, PartialEq, Eq)]
pub enum StageStep<R, W> {
    Perform(Action),
    Advance,
    Fail(Error<serial::Error<R>, W>),
}

/// The state of one stage of an operation.
pub enum StageState {
    /// Drive the reset pin to this level.
    Pin(bool),
    /// Let this span pass on the countdown timer.
    Settle { span: Millisecond, armed: bool },
    /// Write these bytes to the modem.
    Send(WriteProgress),
    /// Read until the modem's reply is recognised, which has to be the
    /// expected one. A wait that is `resetting` belongs to a reset or to the
    /// set-up; one that is `draining` reads what the modem sends when it
    /// starts up.
    Await { read: MessageProgress, expected: ATResponse, resetting: bool, draining: bool },
    /// Read until the modem asks for the payload.
    Prompt(MessageProgress),
}

impl StageState {
    /// The stage is under way: there is an action that it waits for.
    pub open spec fn wf(self) -> bool {
        match self {
            StageState::Pin(_) => true,
            StageState::Settle { .. } => true,
            StageState::Send(write) => 0 <= write.written < write.bytes.len() && !write.failed,
            StageState::Await { read, .. } => read.ring.wf() && read.read.phase
                != ReadPhase::Finished,
            StageState::Prompt(read) => read.ring.wf() && read.read.phase != ReadPhase::Finished,
        }
    }

    /// The action that the stage waits for.
    pub open spec fn pending(self) -> Action {
        match self {
            StageState::Pin(level) => Action::ResetPin(level),
            StageState::Settle { span, armed } => if armed {
                Action::PollTimer
            } else {
                Action::StartTimer(span)
            },
            StageState::Send(write) => write.pending()->0,
            StageState::Await { read, .. } => read.read.pending()->0,
            StageState::Prompt(read) => read.read.pending()->0,
        }
    }

    /// The state after `event`, and how the stage goes on.
    ///
    /// A pin is driven once. A settling span is waited for as long as the
    /// countdown runs. A write fails with `TxError` at the first fault. Every
    /// byte that arrives while a reply is waited for goes into the ring in
    /// which the reply is looked for. A reply other than the expected one is
    /// an `UnexpectedResponse`. A byte that does not come in time is a timed
    /// out `RxError`, or a `ResetTimeout` in a wait that is `resetting`. A
    /// fault of the line is an `RxError`, but in a wait that is `draining`
    /// it is passed over, and the wait goes on until its countdown runs out.
    pub open spec fn step<R, W>(self, event: Event<R, W>) -> (StageState, StageStep<R, W>) {
        match self {
            StageState::Pin(level) => if event is Done {
                (self, StageStep::Advance)
            } else {
                (self, StageStep::Perform(self.pending()))
            },
            StageState::Settle { span, armed } => match (armed, event) {
                (false, Event::Done) => (
                    StageState::Settle { span, armed: true },
                    StageStep::Perform(Action::PollTimer),
                ),
                (true, Event::Timer(TimerPoll::Elapsed)) => (self, StageStep::Advance),
                _ => (self, StageStep::Perform(self.pending())),
            },
            StageState::Send(write) => match write.step(event).1 {
                Step::Perform(action) => (
                    StageState::Send(write.step(event).0),
                    StageStep::Perform(action),
                ),
                Step::Finished(Ok(_)) => (StageState::Send(write.step(event).0), StageStep::Advance),
                Step::Finished(Err(fault)) => (
                    StageState::Send(write.step(event).0),
                    StageStep::Fail(Error::TxError(fault)),
                ),
                Step::Idle => (self, StageStep::Perform(self.pending())),
            },
            StageState::Await { read, expected, resetting, draining } => {
                let next = StageState::Await {
                    read: read.step(&ResponseParser, event).0,
                    expected,
                    resetting,
                    draining,
                };
                match read.step(&ResponseParser, event).1 {
                    Step::Perform(action) => (next, StageStep::Perform(action)),
                    Step::Finished(Ok(response)) => if response == expected {
                        (next, StageStep::Advance)
                    } else {
                        (next, StageStep::Fail(Error::UnexpectedResponse(response)))
                    },
                    Step::Finished(Err(serial::Error::TimedOut)) => if resetting {
                        (next, StageStep::Fail(Error::ResetTimeout))
                    } else {
                        (next, StageStep::Fail(Error::RxError(serial::Error::TimedOut)))
                    },
                    Step::Finished(Err(serial::Error::Serial(fault))) => if draining {
                        (
                            StageState::Await {
                                read: read.carried_on(),
                                expected,
                                resetting,
                                draining,
                            },
                            StageStep::Perform(Action::PollTimer),
                        )
                    } else {
                        (next, StageStep::Fail(Error::RxError(serial::Error::Serial(fault))))
                    },
                    Step::Idle => (self, StageStep::Perform(self.pending())),
                }
            },
            StageState::Prompt(read) => {
                let next = StageState::Prompt(read.step(&PromptParser, event).0);
                match read.step(&PromptParser, event).1 {
                    Step::Perform(action) => (next, StageStep::Perform(action)),
                    Step::Finished(Ok(_)) => (next, StageStep::Advance),
                    Step::Finished(Err(error)) => (next, StageStep::Fail(Error::RxError(error))),
                    Step::Idle => (self, StageStep::Perform(self.pending())),
                }
            },
        }
    }
}

/// One stage of an operation of the driver.
pub enum Stage {
    Pin(bool),
    Settle { span: Millisecond, armed: bool },
    Send(WriteAll),
    Await {
        read: MessageRead<ResponseParser>,
        expected: ATResponse,
        resetting: bool,
        draining: bool,
    },
    Prompt(MessageRead<PromptParser>),
}

impl View for Stage {
    type V = StageState;

    open spec fn view(&self) -> StageState {
        match *self {
            Stage::Pin(level) => StageState::Pin(level),
            Stage::Settle { span, armed } => StageState::Settle { span, armed },
            Stage::Send(write) => StageState::Send(write@),
            Stage::Await { read, expected, resetting, draining } => StageState::Await {
                read: read@,
                expected,
                resetting,
                draining,
            },
            Stage::Prompt(read) => StageState::Prompt(read@),
        }
    }
}

impl Stage {
    /// The action that the stage waits for.
    pub fn action(&self) -> (action: Action)
        requires
            self@.wf(),
        ensures
            action == self@.pending(),
    {
        let pending = match self {
            Stage::Pin(level) => Some(Action::ResetPin(*level)),
            Stage::Settle { span, armed } => if *armed {
                Some(Action::PollTimer)
            } else {
                Some(Action::StartTimer(*span))
            },
            Stage::Send(write) => write.action(),
            Stage::Await { read, .. } => read.action(),
            Stage::Prompt(read) => read.action(),
        };
        match pending {
            Some(action) => action,
            None => Action::PollTimer,
        }
    }

    /// Takes the hardware's answer to the pending action and says how the
    /// stage goes on.
    pub fn resume<R, W>(self, event: Event<R, W>) -> (next: (Stage, StageStep<R, W>))
        requires
            self@.wf(),
        ensures
            next.0@ == self@.step(event).0,
            next.1 == self@.step(event).1,
            next.1 is Perform ==> next.0@.wf() && next.1 == StageStep::<R, W>::Perform(
                next.0@.pending(),
            ),
    {
        match self {
            Stage::Pin(level) => match event {
                Event::Done => (Stage::Pin(level), StageStep::Advance),
                _ => (Stage::Pin(level), StageStep::Perform(Action::ResetPin(level))),
            },
            Stage::Settle { span, armed } => {
                if armed {
                    match event {
                        Event::Timer(TimerPoll::Elapsed) => (
                            Stage::Settle { span, armed },
                            StageStep::Advance,
                        ),
                        _ => (Stage::Settle { span, armed }, StageStep::Perform(Action::PollTimer)),
                    }
                } else {
                    match event {
                        Event::Done => (
                            Stage::Settle { span, armed: true },
                            StageStep::Perform(Action::PollTimer),
                        ),
                        _ => (
                            Stage::Settle { span, armed },
                            StageStep::Perform(Action::StartTimer(span)),
                        ),
                    }
                }
            },
            Stage::Send(write) => {
                let mut write = write;
                match write.resume(event) {
                    Step::Perform(action) => (Stage::Send(write), StageStep::Perform(action)),
                    Step::Finished(Ok(_)) => (Stage::Send(write), StageStep::Advance),
                    Step::Finished(Err(fault)) => (
                        Stage::Send(write),
                        StageStep::Fail(Error::TxError(fault)),
                    ),
                    Step::Idle => (Stage::Send(write), StageStep::Perform(Action::PollTimer)),
                }
            },
            Stage::Await { read, expected, resetting, draining } => {
                let mut read = read;
                match read.resume(event) {
                    Step::Perform(action) => (
                        Stage::Await { read, expected, resetting, draining },
                        StageStep::Perform(action),
                    ),
                    Step::Finished(Ok(response)) => if response == expected {
                        (Stage::Await { read, expected, resetting, draining }, StageStep::Advance)
                    } else {
                        (
                            Stage::Await { read, expected, resetting, draining },
                            StageStep::Fail(Error::UnexpectedResponse(response)),
                        )
                    },
                    Step::Finished(Err(serial::Error::TimedOut)) => if resetting {
                        (
                            Stage::Await { read, expected, resetting, draining },
                            StageStep::Fail(Error::ResetTimeout),
                        )
                    } else {
                        (
                            Stage::Await { read, expected, resetting, draining },
                            StageStep::Fail(Error::RxError(serial::Error::TimedOut)),
                        )
                    },
                    Step::Finished(Err(serial::Error::Serial(fault))) => if draining {
                        read.carry_on();
                        (
                            Stage::Await { read, expected, resetting, draining },
                            StageStep::Perform(Action::PollTimer),
                        )
                    } else {
                        (
                            Stage::Await { read, expected, resetting, draining },
                            StageStep::Fail(Error::RxError(serial::Error::Serial(fault))),
                        )
                    },
                    Step::Idle => (
                        Stage::Await { read, expected, resetting, draining },
                        StageStep::Perform(Action::PollTimer),
                    ),
                }
            },
            Stage::Prompt(read) => {
                let mut read = read;
                match read.resume(event) {
                    Step::Perform(action) => (Stage::Prompt(read), StageStep::Perform(action)),
                    Step::Finished(Ok(_)) => (Stage::Prompt(read), StageStep::Advance),
                    Step::Finished(Err(error)) => (
                        Stage::Prompt(read),
                        StageStep::Fail(Error::RxError(error)),
                    ),
                    Step::Idle => (Stage::Prompt(read), StageStep::Perform(Action::PollTimer)),
                }
            },
        }
    }
}

/// The state of one stage of an operation, with the step of a transmission
/// that it belongs to, if any, and the state that the driver enters when the
/// stage is over.
pub struct TaskState {
    pub step: Option<TransmissionStep>,
    pub stage: StageState,
    pub enters: Option<DriverState>,
}

/// One stage of an operation, with the step of a transmission that it
/// belongs to, if any, and the state that the driver enters when the stage is
/// over.
pub struct Task {
    pub step: Option<TransmissionStep>,
    pub stage: Stage,
    pub enters: Option<DriverState>,
}

impl View for Task {
    type V = TaskState;

    open spec fn view(&self) -> TaskState {
        TaskState { step: self.step, stage: self.stage@, enters: self.enters }
    }
}

/// The read of a reply, before its first byte.
pub open spec fn fresh_reply(buffer_len: nat) -> MessageProgress {
    MessageProgress {
        read: TimedRead { timeout: Millisecond(SESSION_TIMEOUT), phase: ReadPhase::Arm },
        ring: Ring::empty(buffer_len),
    }
}

/// The stage that waits for the reply `expected`, before its first byte.
pub open spec fn await_stage(expected: ATResponse, resetting: bool, draining: bool) -> StageState {
    StageState::Await {
        read: fresh_reply(AT_RESPONSE_BUFFER_SIZE as nat),
        expected,
        resetting,
        draining,
    }
}

/// The stages that write `bytes`: one, or none where there is nothing to
/// write.
pub open spec fn send_tasks(step: Option<TransmissionStep>, bytes: Seq<u8>) -> Seq<TaskState> {
    if bytes.len() > 0 {
        seq![
            TaskState {
                step,
                stage: StageState::Send(WriteProgress { bytes, written: 0, failed: false }),
                enters: None,
            },
        ]
    } else {
        Seq::empty()
    }
}

/// The stage that waits for `OK`, after which the driver enters `enters`.
pub open spec fn acknowledged(
    step: Option<TransmissionStep>,
    resetting: bool,
    enters: Option<DriverState>,
) -> TaskState {
    TaskState { step, stage: await_stage(ATResponse::Okay, resetting, false), enters }
}

/// The stages of a reset: the reset pin is driven low for `RESET_HOLD`
/// milliseconds and high again, and the modem has to report that it has
/// joined the network. Whatever the modem sends before that report is read
/// and passed over, and so are faults of the line; the report is looked for
/// from the first byte on.
pub open spec fn reset_plan(enters: Option<DriverState>) -> Seq<TaskState> {
    seq![
        TaskState { step: None, stage: StageState::Pin(false), enters: None },
        TaskState {
            step: None,
            stage: StageState::Settle { span: Millisecond(RESET_HOLD), armed: false },
            enters: None,
        },
        TaskState { step: None, stage: StageState::Pin(true), enters: None },
        TaskState { step: None, stage: await_stage(ATResponse::WiFiGotIp, true, true), enters },
    ]
}

/// The stages that set the modem up: a reset, and the command that turns the
/// echo off, which the modem has to acknowledge.
pub open spec fn initialise_plan() -> Seq<TaskState> {
    reset_plan(None) + send_tasks(None, at_command_text("E0".spec_bytes())) + seq![
        acknowledged(None, true, Some(DriverState::Idle)),
    ]
}

/// The stages of a command: the line `AT<command>`, and the modem's `OK`.
pub open spec fn command_plan(command: Seq<u8>) -> Seq<TaskState> {
    send_tasks(None, at_command_text(command)) + seq![acknowledged(None, false, None)]
}

/// The stages that close the connection.
pub open spec fn close_plan(step: Option<TransmissionStep>) -> Seq<TaskState> {
    send_tasks(step, close_command_text()) + seq![
        acknowledged(step, false, Some(DriverState::Idle)),
    ]
}

/// The stages that open a connection.
pub open spec fn connect_plan(kind: ConnectionType, address: Seq<u8>, port: u16) -> Seq<TaskState> {
    let step = Some(TransmissionStep::Connect);
    send_tasks(step, connect_command_text(kind, address, port)) + seq![
        acknowledged(step, false, Some(DriverState::Connected)),
    ]
}

/// The stages that hand a payload to the modem: the command with the
/// payload's length, the modem's prompt, the payload as it is, and the
/// modem's `OK`.
pub open spec fn payload_plan(data: Seq<u8>) -> Seq<TaskState> {
    let step = Some(TransmissionStep::Send);
    send_tasks(step, send_length_command_text(data.len())) + seq![
        TaskState { step, stage: StageState::Prompt(fresh_reply(1)), enters: None },
    ] + send_tasks(step, data) + seq![acknowledged(step, false, None)]
}

/// The stages of a transmission: connect, send, close.
pub open spec fn transmission_plan(
    kind: ConnectionType,
    address: Seq<u8>,
    port: u16,
    data: Seq<u8>,
) -> Seq<TaskState> {
    connect_plan(kind, address, port) + payload_plan(data) + close_plan(
        Some(TransmissionStep::Close),
    )
}

/// The result of an operation that went through, as a command's or as a
/// transmission's.
pub open spec fn succeeded<R, W>(step: Option<TransmissionStep>) -> Progress<R, W> {
    match step {
        Some(_) => Progress::Sent(Ok(())),
        None => Progress::Done(Ok(())),
    }
}

/// The result of an operation that failed with `cause`, as a command's or,
/// with the step in which it failed, as a transmission's.
pub open spec fn failed<R, W>(
    step: Option<TransmissionStep>,
    cause: Error<serial::Error<R>, W>,
) -> Progress<R, W> {
    match step {
        Some(step) => Progress::Sent(Err(TransmissionError { step, cause })),
        None => Progress::Done(Err(cause)),
    }
}

/// The state in which the driver rests once an operation has failed: `Idle`,
/// unless the modem has not been set up.
pub open spec fn rested(state: DriverState) -> DriverState {
    if state == DriverState::Uninitialized {
        DriverState::Uninitialized
    } else {
        DriverState::Idle
    }
}

/// The state of the driver: what it knows of the modem, and the stages that
/// are left of the operation under way, the running one first.
pub struct DriverView {
    pub state: DriverState,
    pub tasks: Seq<TaskState>,
}

impl DriverView {
    /// Every stage that is left is under way or has not begun.
    pub open spec fn wf(self) -> bool {
        forall|i: int| 0 <= i < self.tasks.len() ==> (#[trigger] self.tasks[i]).stage.wf()
    }

    /// An operation is under way.
    pub open spec fn busy(self) -> bool {
        self.tasks.len() > 0
    }

    /// The driver takes a new operation: it is `Idle`, so that the modem is
    /// set up and nothing is under way.
    pub open spec fn ready(self) -> bool {
        !self.busy() && self.state == DriverState::Idle
    }

    /// What the hardware has to do now, if an operation is under way.
    pub open spec fn current<R, W>(self) -> Progress<R, W> {
        if self.busy() {
            Progress::Perform(self.tasks[0].stage.pending())
        } else {
            Progress::Idle
        }
    }

    /// The state after `event`, and how the operation goes on.
    ///
    /// The event goes to the running stage. When that stage is over the
    /// driver enters the state that the stage names, if any, and the next
    /// stage begins; after the last one the operation has succeeded. When the
    /// stage fails, the stages that are left are dropped, the driver rests,
    /// and the operation has failed, in the step of the transmission that the
    /// stage belonged to.
    pub open spec fn step<R, W>(self, event: Event<R, W>) -> (DriverView, Progress<R, W>) {
        if !self.busy() {
            (self, Progress::Idle)
        } else {
            let task = self.tasks[0];
            match task.stage.step(event).1 {
                StageStep::Perform(action) => (
                    DriverView {
                        state: self.state,
                        tasks: self.tasks.update(
                            0,
                            TaskState { stage: task.stage.step(event).0, ..task },
                        ),
                    },
                    Progress::Perform(action),
                ),
                StageStep::Advance => {
                    let next = DriverView {
                        state: match task.enters {
                            Some(state) => state,
                            None => self.state,
                        },
                        tasks: self.tasks.skip(1),
                    };
                    if next.busy() {
                        (next, next.current())
                    } else {
                        (next, succeeded(task.step))
                    }
                },
                StageStep::Fail(cause) => (
                    DriverView { state: rested(self.state), tasks: Seq::empty() },
                    failed(task.step, cause),
                ),
            }
        }
    }
}

/// Driver for an esp8266 wifi module on a serial line.
///
/// The driver does no input or output. It says what the hardware has to do
/// next, takes what the hardware answered, and so goes through each
/// operation stage by stage.
pub struct Esp8266 {
    state: DriverState,
    tasks: Vec<Task>,
}

impl View for Esp8266 {
    type V = DriverView;

    closed spec fn view(&self) -> DriverView {
        DriverView { state: self.state, tasks: self.tasks@.map_values(|task: Task| task@) }
    }
}

fn push_send(tasks: &mut Vec<Task>, step: Option<TransmissionStep>, bytes: Vec<u8>)
    ensures
        final(tasks)@.map_values(|task: Task| task@) == old(tasks)@.map_values(|task: Task| task@)
            + send_tasks(step, bytes@),
{
    let ghost before = tasks@.map_values(|task: Task| task@);
    if bytes.len() > 0 {
        let write = WriteAll::new(bytes);
        tasks.push(Task { step, stage: Stage::Send(write), enters: None });
    }
    assert(tasks@.map_values(|task: Task| task@) =~= before + send_tasks(step, bytes@));
}

fn push_stage(
    tasks: &mut Vec<Task>,
    step: Option<TransmissionStep>,
    stage: Stage,
    enters: Option<DriverState>,
)
    ensures
        final(tasks)@.map_values(|task: Task| task@) == old(tasks)@.map_values(|task: Task| task@)
            + seq![TaskState { step, stage: stage@, enters }],
{
    let ghost before = tasks@.map_values(|task: Task| task@);
    tasks.push(Task { step, stage, enters });
    assert(tasks@.map_values(|task: Task| task@) =~= before + seq![
        TaskState { step, stage: stage@, enters },
    ]);
}

fn push_awaited(
    tasks: &mut Vec<Task>,
    step: Option<TransmissionStep>,
    expected: ATResponse,
    resetting: bool,
    draining: bool,
    enters: Option<DriverState>,
)
    ensures
        final(tasks)@.map_values(|task: Task| task@) == old(tasks)@.map_values(|task: Task| task@)
            + seq![TaskState { step, stage: await_stage(expected, resetting, draining), enters }],
{
    let read = read_until_message(
        Millisecond(SESSION_TIMEOUT),
        AT_RESPONSE_BUFFER_SIZE,
        ResponseParser,
    );
    push_stage(tasks, step, Stage::Await { read, expected, resetting, draining }, enters);
}

fn push_acknowledged(
    tasks: &mut Vec<Task>,
    step: Option<TransmissionStep>,
    expected: ATResponse,
    resetting: bool,
    enters: Option<DriverState>,
)
    ensures
        final(tasks)@.map_values(|task: Task| task@) == old(tasks)@.map_values(|task: Task| task@)
            + seq![TaskState { step, stage: await_stage(expected, resetting, false), enters }],
{
    push_awaited(tasks, step, expected, resetting, false, enters);
}

fn push_reset(tasks: &mut Vec<Task>, enters: Option<DriverState>)
    ensures
        final(tasks)@.map_values(|task: Task| task@) == old(tasks)@.map_values(|task: Task| task@)
            + reset_plan(enters),
{
    let ghost before = tasks@.map_values(|task: Task| task@);
    push_stage(tasks, None, Stage::Pin(false), None);
    push_stage(tasks, None, Stage::Settle { span: Millisecond(RESET_HOLD), armed: false }, None);
    push_stage(tasks, None, Stage::Pin(true), None);
    push_awaited(tasks, None, ATResponse::WiFiGotIp, true, true, enters);
    assert(tasks@.map_values(|task: Task| task@) =~= before + reset_plan(enters));
}

proof fn lemma_send_tasks_wf(step: Option<TransmissionStep>, bytes: Seq<u8>)
    ensures
        forall|i: int|
            0 <= i < send_tasks(step, bytes).len() ==> (#[trigger] send_tasks(step, bytes)[i]).stage.wf(),
{
}

/// The stages of every operation are under way from their first moment.
pub proof fn lemma_plans_wf(kind: ConnectionType, address: Seq<u8>, port: u16, data: Seq<u8>)
    ensures
        (DriverView { state: DriverState::Idle, tasks: reset_plan(None) }).wf(),
        (DriverView { state: DriverState::Idle, tasks: initialise_plan() }).wf(),
        (DriverView { state: DriverState::Idle, tasks: command_plan(data) }).wf(),
        (DriverView { state: DriverState::Idle, tasks: send_tasks(None, data) }).wf(),
        (DriverView { state: DriverState::Idle, tasks: close_plan(None) }).wf(),
        (DriverView {
            state: DriverState::Idle,
            tasks: transmission_plan(kind, address, port, data),
        }).wf(),
{
    lemma_send_tasks_wf(None, data);
    lemma_send_tasks_wf(None, at_command_text(data));
    lemma_send_tasks_wf(None, at_command_text("E0".spec_bytes()));
    lemma_send_tasks_wf(None, close_command_text());
    lemma_send_tasks_wf(Some(TransmissionStep::Close), close_command_text());
    lemma_send_tasks_wf(Some(TransmissionStep::Send), data);
    lemma_send_tasks_wf(Some(TransmissionStep::Send), send_length_command_text(data.len()));
    lemma_send_tasks_wf(
        Some(TransmissionStep::Connect),
        connect_command_text(kind, address, port),
    );
}

impl Esp8266 {
    /// A driver for a modem that has not been set up, with the operation
    /// that sets it up under way: a reset, and the command that turns the
    /// echo off. When that operation has succeeded the driver is `Idle`.
    pub fn new() -> (driver: Self)
        ensures
            driver@ == (DriverView { state: DriverState::Uninitialized, tasks: initialise_plan() }),
            driver@.wf(),
    {
        let mut tasks: Vec<Task> = Vec::new();
        assert(tasks@.map_values(|task: Task| task@) =~= Seq::empty());
        push_reset(&mut tasks, None);
        push_send(&mut tasks, None, at_command("E0"));
        push_acknowledged(&mut tasks, None, ATResponse::Okay, true, Some(DriverState::Idle));
        let driver = Esp8266 { state: DriverState::Uninitialized, tasks };
        proof {
            assert(driver@.tasks =~= initialise_plan());
            lemma_plans_wf(ConnectionType::Tcp, Seq::empty(), 0, Seq::empty());
        }
        driver
    }

    /// What the driver knows of the modem.
    pub fn state(&self) -> (state: DriverState)
        ensures
            state == self@.state,
    {
        self.state
    }

    /// Whether an operation is under way.
    pub fn is_busy(&self) -> (busy: bool)
        ensures
            busy == self@.busy(),
    {
        self.tasks.len() > 0
    }

    /// What the hardware has to do now, if an operation is under way.
    pub fn current<R, W>(&self) -> (progress: Progress<R, W>)
        requires
            self@.wf(),
        ensures
            progress == self@.current::<R, W>(),
    {
        if self.tasks.len() > 0 {
            assert(self@.tasks[0] == self.tasks@[0]@);
            Progress::Perform(self.tasks[0].stage.action())
        } else {
            Progress::Idle
        }
    }

    /// Takes the hardware's answer to the pending action and says how the
    /// operation goes on.
    pub fn resume<R, W>(&mut self, event: Event<R, W>) -> (progress: Progress<R, W>)
        requires
            old(self)@.wf(),
        ensures
            final(self)@ == old(self)@.step(event).0,
            progress == old(self)@.step(event).1,
            final(self)@.wf(),
    {
        if self.tasks.len() == 0 {
            return Progress::Idle;
        }
        assert(self@.tasks[0] == self.tasks@[0]@);
        let ghost before = self@;
        let task = self.tasks.remove(0);
        assert(self@.tasks =~= before.tasks.skip(1));
        let Task { step, stage, enters } = task;
        let (stage, outcome) = stage.resume(event);
        match outcome {
            StageStep::Perform(action) => {
                self.tasks.insert(0, Task { step, stage, enters });
                assert(self@.tasks =~= before.tasks.update(
                    0,
                    TaskState { step, stage: stage@, enters },
                ));
                Progress::Perform(action)
            },
            StageStep::Advance => {
                match enters {
                    Some(state) => {
                        self.state = state;
                    },
                    None => {},
                }
                if self.tasks.len() > 0 {
                    self.current()
                } else {
                    match step {
                        Some(_) => Progress::Sent(Ok(())),
                        None => Progress::Done(Ok(())),
                    }
                }
            },
            StageStep::Fail(cause) => {
                self.tasks.clear();
                if self.state != DriverState::Uninitialized {
                    self.state = DriverState::Idle;
                }
                assert(self@.tasks =~= Seq::empty());
                match step {
                    Some(step) => Progress::Sent(TransmissionError::try_step(step, Err(cause))),
                    None => Progress::Done(Err(cause)),
                }
            },
        }
    }

    /// Begins the operation that sends `AT<command>` to the device and waits
    /// for it to reply `OK`. Nothing is begun unless the driver is ready.
    pub fn communicate(&mut self, command: &str) -> (started: bool)
        requires
            old(self)@.wf(),
        ensures
            started == old(self)@.ready(),
            final(self)@ == if started {
                DriverView { state: old(self)@.state, tasks: command_plan(command.spec_bytes()) }
            } else {
                old(self)@
            },
            final(self)@.wf(),
    {
        if self.tasks.len() > 0 || self.state != DriverState::Idle {
            return false;
        }
        assert(self.tasks@.map_values(|task: Task| task@) =~= Seq::empty());
        push_send(&mut self.tasks, None, at_command(command));
        push_acknowledged(&mut self.tasks, None, ATResponse::Okay, false, None);
        proof {
            assert(self@.tasks =~= command_plan(command.spec_bytes()));
            lemma_plans_wf(ConnectionType::Tcp, Seq::empty(), 0, command.spec_bytes());
        }
        true
    }

    /// Begins the operation that sends `AT<command>` to the device and does
    /// not wait for a reply. Nothing is begun unless the driver is ready.
    pub fn send_at_command(&mut self, command: &str) -> (started: bool)
        requires
            old(self)@.wf(),
        ensures
            started == old(self)@.ready(),
            final(self)@ == if started {
                DriverView {
                    state: old(self)@.state,
                    tasks: send_tasks(None, at_command_text(command.spec_bytes())),
                }
            } else {
                old(self)@
            },
            final(self)@.wf(),
    {
        if self.tasks.len() > 0 || self.state != DriverState::Idle {
            return false;
        }
        assert(self.tasks@.map_values(|task: Task| task@) =~= Seq::empty());
        push_send(&mut self.tasks, None, at_command(command));
        proof {
            assert(self@.tasks =~= send_tasks(None, at_command_text(command.spec_bytes())));
            lemma_plans_wf(
                ConnectionType::Tcp,
                Seq::empty(),
                0,
                at_command_text(command.spec_bytes()),
            );
        }
        true
    }

    /// Begins the operation that puts the device's radio to sleep, with the
    /// command `AT+SLEEP=2`. The device does not reply while it goes to sleep,
    /// so no reply is waited for. Nothing is begun unless the driver is
    /// ready.
    pub fn power_down(&mut self) -> (started: bool)
        requires
            old(self)@.wf(),
        ensures
            started == old(self)@.ready(),
            final(self)@ == if started {
                DriverView {
                    state: old(self)@.state,
                    tasks: send_tasks(None, at_command_text("+SLEEP=2".spec_bytes())),
                }
            } else {
                old(self)@
            },
            final(self)@.wf(),
    {
        self.send_at_command("+SLEEP=2")
    }

    /// Begins the operation that wakes the device's radio, with the command
    /// `AT+SLEEP=0`. No reply is waited for. Nothing is begun unless the
    /// driver is ready.
    pub fn power_up(&mut self) -> (started: bool)
        requires
            old(self)@.wf(),
        ensures
            started == old(self)@.ready(),
            final(self)@ == if started {
                DriverView {
                    state: old(self)@.state,
                    tasks: send_tasks(None, at_command_text("+SLEEP=0".spec_bytes())),
                }
            } else {
                old(self)@
            },
            final(self)@.wf(),
    {
        self.send_at_command("+SLEEP=0")
    }

    /// Begins a transmission: a connection of `connection_type` to `address`
    /// and `port` is opened, `data` is sent over it, and it is closed. The
    /// first step that fails ends the transmission. Nothing is begun unless
    /// the driver is ready.
    pub fn send_data(
        &mut self,
        connection_type: ConnectionType,
        address: &str,
        port: u16,
        data: &str,
    ) -> (started: bool)
        requires
            old(self)@.wf(),
            data.spec_bytes().len() < 2048,
        ensures
            started == old(self)@.ready(),
            final(self)@ == if started {
                DriverView {
                    state: old(self)@.state,
                    tasks: transmission_plan(
                        connection_type,
                        address.spec_bytes(),
                        port,
                        data.spec_bytes(),
                    ),
                }
            } else {
                old(self)@
            },
            final(self)@.wf(),
    {
        if self.tasks.len() > 0 || self.state != DriverState::Idle {
            return false;
        }
        assert(self.tasks@.map_values(|task: Task| task@) =~= Seq::empty());
        let payload = data.as_bytes();
        let connect = Some(TransmissionStep::Connect);
        push_send(&mut self.tasks, connect, connect_command(connection_type, address, port));
        push_acknowledged(
            &mut self.tasks,
            connect,
            ATResponse::Okay,
            false,
            Some(DriverState::Connected),
        );
        let send = Some(TransmissionStep::Send);
        push_send(&mut self.tasks, send, send_length_command(payload.len()));
        let prompt = read_until_message(Millisecond(SESSION_TIMEOUT), 1, PromptParser);
        push_stage(&mut self.tasks, send, Stage::Prompt(prompt), None);
        push_send(&mut self.tasks, send, vstd::slice::slice_to_vec(payload));
        push_acknowledged(&mut self.tasks, send, ATResponse::Okay, false, None);
        let close = Some(TransmissionStep::Close);
        push_send(&mut self.tasks, close, at_command("+CIPCLOSE"));
        push_acknowledged(&mut self.tasks, close, ATResponse::Okay, false, Some(DriverState::Idle));
        proof {
            assert(self@.tasks =~= transmission_plan(
                connection_type,
                address.spec_bytes(),
                port,
                data.spec_bytes(),
            ));
            lemma_plans_wf(connection_type, address.spec_bytes(), port, data.spec_bytes());
        }
        true
    }

    /// Begins the operation that closes the connection. Nothing is begun
    /// unless the driver is ready.
    pub fn close_connection(&mut self) -> (started: bool)
        requires
            old(self)@.wf(),
        ensures
            started == old(self)@.ready(),
            final(self)@ == if started {
                DriverView { state: old(self)@.state, tasks: close_plan(None) }
            } else {
                old(self)@
            },
            final(self)@.wf(),
    {
        if self.tasks.len() > 0 || self.state != DriverState::Idle {
            return false;
        }
        assert(self.tasks@.map_values(|task: Task| task@) =~= Seq::empty());
        push_send(&mut self.tasks, None, at_command("+CIPCLOSE"));
        push_acknowledged(&mut self.tasks, None, ATResponse::Okay, false, Some(DriverState::Idle));
        proof {
            assert(self@.tasks =~= close_plan(None));
            lemma_plans_wf(ConnectionType::Tcp, Seq::empty(), 0, Seq::empty());
        }
        true
    }

    /// Begins a reset of the device. Nothing is begun unless the driver is
    /// ready. When the reset has succeeded the driver is `Idle`.
    pub fn reset(&mut self) -> (started: bool)
        requires
            old(self)@.wf(),
        ensures
            started == old(self)@.ready(),
            final(self)@ == if started {
                DriverView { state: old(self)@.state, tasks: reset_plan(Some(DriverState::Idle)) }
            } else {
                old(self)@
            },
            final(self)@.wf(),
    {
        if self.tasks.len() > 0 || self.state != DriverState::Idle {
            return false;
        }
        assert(self.tasks@.map_values(|task: Task| task@) =~= Seq::empty());
        push_reset(&mut self.tasks, Some(DriverState::Idle));
        assert(self@.tasks =~= reset_plan(Some(DriverState::Idle)));
        true
    }
}

/// When the last byte of a reply's line has arrived, the stage that waits
/// for a reply is over: it goes on to the next stage where the reply is the
/// expected one, and fails with `UnexpectedResponse` where it is another.
pub proof fn lemma_reply_decides<R, W>(
    read: MessageProgress,
    expected: ATResponse,
    resetting: bool,
    draining: bool,
    byte: u8,
    response: ATResponse,
)
    requires
        read.ring.wf(),
        read.ring.capacity() >= crate::at::response_text(response).len(),
        read.read.phase == ReadPhase::Serial,
        read.ring.push(byte).matches(crate::at::response_text(response)),
    ensures
        (StageState::Await { read, expected, resetting, draining }).step(
            Event::<R, W>::Read(serial::ReadPoll::Byte(byte)),
        ).1 == if response == expected {
            StageStep::<R, W>::Advance
        } else {
            StageStep::<R, W>::Fail(Error::UnexpectedResponse(response))
        },
{
    read.ring.lemma_push(byte);
    crate::at::lemma_response_line_is_recognised(read.ring.push(byte), response);
}

/// A reply that does not come in time fails the stage that waits for it:
/// with `ResetTimeout` during a reset, and with a timed out `RxError`
/// otherwise. This is another failure than that of a reply that is not the
/// expected one.
pub proof fn lemma_reply_times_out<R, W>(
    read: MessageProgress,
    expected: ATResponse,
    resetting: bool,
    draining: bool,
)
    requires
        read.read.phase == ReadPhase::Timer,
    ensures
        (StageState::Await { read, expected, resetting, draining }).step(
            Event::<R, W>::Timer(TimerPoll::Elapsed),
        ).1 == if resetting {
            StageStep::<R, W>::Fail(Error::ResetTimeout)
        } else {
            StageStep::<R, W>::Fail(Error::RxError(serial::Error::TimedOut))
        },
{
}

/// A fault of the line fails a wait for a reply with an `RxError` that holds
/// the fault. In a wait that is `draining` it is passed over instead: the
/// wait goes on with a look at its countdown, and the ring is as it was.
pub proof fn lemma_fault_while_waiting<R, W>(
    read: MessageProgress,
    expected: ATResponse,
    resetting: bool,
    draining: bool,
    fault: R,
)
    requires
        read.read.phase == ReadPhase::Serial,
    ensures
        (StageState::Await { read, expected, resetting, draining }).step(
            Event::<R, W>::Read(serial::ReadPoll::Fault(fault)),
        ) == if draining {
            (
                StageState::Await { read: read.carried_on(), expected, resetting, draining },
                StageStep::<R, W>::Perform(Action::PollTimer),
            )
        } else {
            (
                StageState::Await {
                    read: MessageProgress {
                        read: TimedRead { timeout: read.read.timeout, phase: ReadPhase::Finished },
                        ring: read.ring,
                    },
                    expected,
                    resetting,
                    draining,
                },
                StageStep::<R, W>::Fail(Error::RxError(serial::Error::Serial(fault))),
            )
        },
{
}

/// An operation that fails is over: the stages that were left are dropped,
/// the driver rests, and whatever the hardware reports after that, the
/// driver asks for no further action. A transmission's failure
/// names the step of the stage that failed.
pub proof fn lemma_failure_ends_operation<R, W>(driver: DriverView, event: Event<R, W>, later: Event<R, W>)
    requires
        driver.step(event).1 matches Progress::Done(Err(_)) || driver.step(event).1 matches Progress::Sent(
            Err(_),
        ),
    ensures
        !driver.step(event).0.busy(),
        driver.step(event).0.state == rested(driver.state),
        driver.step(event).0.step(later) == (driver.step(event).0, Progress::<R, W>::Idle),
        driver.step(event).1 matches Progress::Sent(Err(error)) ==> driver.tasks[0].step == Some(
            error.step,
        ),
{
}

/// While the stages of the connect step of a transmission are under way, a
/// failure is reported as a failure of the step `Connect`.
pub proof fn lemma_connect_failure_is_tagged<R, W>(
    state: DriverState,
    kind: ConnectionType,
    address: Seq<u8>,
    port: u16,
    data: Seq<u8>,
    done: int,
    stage: StageState,
    event: Event<R, W>,
)
    requires
        0 <= done < connect_plan(kind, address, port).len(),
        stage.step(event).1 is Fail,
    ensures
        ({
            let plan = transmission_plan(kind, address, port, data).skip(done);
            let driver = DriverView {
                state,
                tasks: plan.update(0, TaskState { stage, ..plan[0] }),
            };
            &&& driver.step(event).1 == Progress::<R, W>::Sent(
                Err(
                    TransmissionError {
                        step: TransmissionStep::Connect,
                        cause: stage.step(event).1->Fail_0,
                    },
                ),
            )
            &&& !driver.step(event).0.busy()
        }),
{
}

} // verus!
