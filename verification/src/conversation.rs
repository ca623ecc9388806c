//! What comes of the driver's operations against a modem that does as it is asked, and
//! against one that refuses a connection.

use vstd::prelude::*;
use vstd::string::StringSliceAdditionalSpecFns;
use crate::at::{
    at_command_text, close_command_text, connect_command_text,
    lemma_response_line_is_recognised, lemma_response_texts, recognised_response, response_text,
    send_length_command_text, ATResponse, ConnectionType, AT_RESPONSE_BUFFER_SIZE,
};
use crate::esp8266::{
    acknowledged, command_plan, failed, fresh_reply, initialise_plan, rested, reset_plan,
    send_tasks, succeeded, transmission_plan,
    DriverState, DriverView, Error, Progress, StageState, StageStep, TaskState,
    TransmissionError, TransmissionStep,
};
use crate::pattern::{circular_index, tail_matches, Ring};
use crate::serial::{
    Action, Event, MessageProgress, ReadPhase, ReadPoll, TimedRead, TimerPoll, WritePoll,
    WriteProgress,
};

verus! {

/// `events` take `stage` to its end and no further: every event but the
/// last is followed by an action for the hardware, and the last one by
/// `outcome`, which is the next stage or a failure.
pub open spec fn ends_with<R, W>(
    stage: StageState,
    events: Seq<Event<R, W>>,
    outcome: StageStep<R, W>,
) -> bool
    decreases events.len(),
{
    if events.len() == 0 {
        false
    } else if events.len() == 1 {
        stage.step(events[0]).1 == outcome && !(outcome is Perform)
    } else {
        stage.step(events[0]).1 is Perform && ends_with(
            stage.step(events[0]).0,
            events.skip(1),
            outcome,
        )
    }
}

/// The events of a line that takes `count` bytes, each at once.
pub open spec fn accepted<R, W>(count: nat) -> Seq<Event<R, W>> {
    Seq::new(count, |i: int| Event::Write(WritePoll::Accepted))
}

/// The events of a line on which the bytes of `text` arrive, each as soon as
/// the countdown for it has been started.
pub open spec fn arriving<R, W>(text: Seq<u8>) -> Seq<Event<R, W>>
    decreases text.len(),
{
    if text.len() == 0 {
        Seq::empty()
    } else {
        seq![Event::Done, Event::Read(ReadPoll::Byte(text[0]))] + arriving(text.skip(1))
    }
}

/// A write of which `written` bytes have gone out is over once the line has
/// taken the rest.
pub proof fn lemma_write_goes_through<R, W>(write: WriteProgress)
    requires
        0 <= write.written < write.bytes.len(),
        !write.failed,
    ensures
        ends_with(
            StageState::Send(write),
            accepted::<R, W>((write.bytes.len() - write.written) as nat),
            StageStep::Advance,
        ),
    decreases write.bytes.len() - write.written,
{
    let left = (write.bytes.len() - write.written) as nat;
    let events = accepted::<R, W>(left);
    if left > 1 {
        let next = WriteProgress { written: write.written + 1, ..write };
        lemma_write_goes_through::<R, W>(next);
        assert(events.skip(1) =~= accepted::<R, W>((left - 1) as nat));
    }
}

/// The byte pushed last is the one that comparisons with the ring begin
/// with.
pub proof fn lemma_last_byte(ring: Ring, byte: u8)
    requires
        ring.wf(),
    ensures
        ring.push(byte).bytes[circular_index(
            ring.push(byte).bytes.len() as int,
            ring.push(byte).cursor,
            0,
        )] == byte,
{
    let len = ring.bytes.len() as int;
    if ring.cursor + 1 == len {
        vstd::arithmetic::div_mod::lemma_fundamental_div_mod_converse(len - 1, len, 0, len - 1);
    } else {
        vstd::arithmetic::div_mod::lemma_fundamental_div_mod_converse(
            len + ring.cursor,
            len,
            1,
            ring.cursor,
        );
    }
}

/// No reply is recognised in a ring whose latest byte is not a line feed.
pub proof fn lemma_no_reply_within_a_line(ring: Ring, byte: u8)
    requires
        ring.wf(),
        byte != 10,
    ensures
        recognised_response(ring.push(byte).bytes, ring.push(byte).cursor) is None,
{
    lemma_response_texts();
    lemma_last_byte(ring, byte);
    ring.lemma_push(byte);
    let after = ring.push(byte);
    let first = circular_index(after.bytes.len() as int, after.cursor, 0);
    assert forall|response: ATResponse| !tail_matches(
        after.bytes,
        after.cursor,
        #[trigger] response_text(response),
    ) by {
        let text = response_text(response);
        if tail_matches(after.bytes, after.cursor, text) {
            assert(after.bytes[first] == text[text.len() - 1 - 0]);
        }
    }
}

/// The line of a reply has its line feed at the end and nowhere else.
pub proof fn lemma_line_feed_ends_line(response: ATResponse)
    ensures
        response_text(response).len() >= 1,
        response_text(response).len() <= AT_RESPONSE_BUFFER_SIZE,
        forall|i: int|
            0 <= i < response_text(response).len() - 1 ==> #[trigger] response_text(response)[i]
                != 10,
{
    lemma_response_texts();
}

/// How a wait for the reply `expected` ends when the reply `response` has
/// arrived.
pub open spec fn reply_outcome<R, W>(response: ATResponse, expected: ATResponse) -> StageStep<R, W> {
    if response == expected {
        StageStep::Advance
    } else {
        StageStep::Fail(Error::UnexpectedResponse(response))
    }
}

/// A wait for a reply, at the start of a read, is over when the rest of a
/// reply's line has arrived: it goes on to the next stage where the reply is
/// the expected one and fails with `UnexpectedResponse` where it is not,
/// whatever the ring held before the line.
pub proof fn lemma_reply_arrives<R, W>(
    start: Ring,
    read: MessageProgress,
    expected: ATResponse,
    resetting: bool,
    draining: bool,
    response: ATResponse,
    seen: Seq<u8>,
    rest: Seq<u8>,
)
    requires
        start.wf(),
        start.capacity() >= response_text(response).len(),
        read.ring == start.push_all(seen),
        read.read.phase == ReadPhase::Arm,
        seen + rest == response_text(response),
        rest.len() > 0,
    ensures
        ends_with(
            StageState::Await { read, expected, resetting, draining },
            arriving::<R, W>(rest),
            reply_outcome(response, expected),
        ),
    decreases rest.len(),
{
    let text = response_text(response);
    let byte = rest[0];
    let stage = StageState::Await { read, expected, resetting, draining };
    let events = arriving::<R, W>(rest);
    let armed = stage.step(events[0]).0;
    assert(events[0] == Event::<R, W>::Done);
    assert(events[1] == Event::<R, W>::Read(ReadPoll::Byte(byte)));
    assert(events.skip(1).skip(1) =~= arriving::<R, W>(rest.skip(1)));
    assert(events.skip(1)[0] == events[1]);
    start.lemma_push_all(seen);
    read.ring.lemma_push(byte);
    let ring = read.ring.push(byte);
    assert(ring == start.push_all(seen.push(byte))) by {
        let one = seq![byte];
        start.lemma_push_all_joins(seen, one);
        assert(seen + one =~= seen.push(byte));
        assert(one.len() == 1 && one[0] == byte);
        assert(one.skip(1).len() == 0);
        assert(read.ring.push(byte).push_all(one.skip(1)) == read.ring.push(byte));
        assert(read.ring.push_all(one) == read.ring.push(one[0]).push_all(one.skip(1)));
    }
    assert(seen.push(byte) + rest.skip(1) =~= text);
    assert(text[seen.len() as int] == byte);
    lemma_line_feed_ends_line(response);
    let waiting = MessageProgress {
        read: TimedRead { timeout: read.read.timeout, phase: ReadPhase::Serial },
        ring: read.ring,
    };
    assert(stage.step(events[0]) == (
        StageState::Await { read: waiting, expected, resetting, draining },
        StageStep::<R, W>::Perform(crate::serial::Action::PollRead),
    ));
    let outcome = reply_outcome::<R, W>(response, expected);
    if rest.len() == 1 {
        assert(seen.push(byte) =~= text);
        assert(Seq::<u8>::empty() + text =~= text);
        start.lemma_matches_stream_end(Seq::empty(), text);
        lemma_response_line_is_recognised(ring, response);
        assert(arriving::<R, W>(rest.skip(1)) =~= Seq::<Event<R, W>>::empty());
        assert(events.len() == 2);
        assert(events.skip(1).len() == 1);
        assert(armed.step(events[1]).1 == outcome);
        assert(ends_with(armed, events.skip(1), outcome));
    } else {
        lemma_no_reply_within_a_line(read.ring, byte);
        let next = MessageProgress {
            read: TimedRead { timeout: read.read.timeout, phase: ReadPhase::Arm },
            ring,
        };
        lemma_reply_arrives::<R, W>(
            start,
            next,
            expected,
            resetting,
            draining,
            response,
            seen.push(byte),
            rest.skip(1),
        );
        assert(arriving::<R, W>(rest.skip(1)).len() > 0);
        assert(armed.step(events[1]) == (
            StageState::Await { read: next, expected, resetting, draining },
            StageStep::<R, W>::Perform(crate::serial::Action::StartTimer(read.read.timeout)),
        ));
        assert(events.skip(1).len() > 1);
        assert(ends_with(armed, events.skip(1), outcome));
    }
}

/// A wait for the prompt is over when the prompt has arrived.
pub proof fn lemma_prompt_arrives<R, W>(read: MessageProgress)
    requires
        read.ring.wf(),
        read.ring.capacity() == 1,
        read.read.phase == ReadPhase::Arm,
    ensures
        ends_with(
            StageState::Prompt(read),
            arriving::<R, W>(">".spec_bytes()),
            StageStep::Advance,
        ),
{
    reveal_strlit(">");
    vstd::string::is_ascii_spec_bytes(">");
    let text = ">".spec_bytes();
    assert(text =~= seq![62u8]);
    let events = arriving::<R, W>(text);
    assert(arriving::<R, W>(text.skip(1)) =~= Seq::<Event<R, W>>::empty());
    assert(events =~= seq![Event::Done, Event::Read(ReadPoll::Byte(62u8))]);
    assert(events.skip(1) =~= seq![Event::Read(ReadPoll::Byte(62u8))]);
    read.ring.lemma_push(62u8);
    let ring = read.ring.push(62u8);
    assert(ring.bytes[0] == 62u8);
    let stage = StageState::Prompt(read);
    let armed = stage.step(events[0]).0;
    assert(stage.step(events[0]).1 is Perform);
    assert(events.skip(1)[0] == events[1]);
    assert(armed.step(events[1]).1 == StageStep::<R, W>::Advance);
    assert(ends_with(armed, events.skip(1), StageStep::<R, W>::Advance));
}

/// The driver after the hardware has given `events`, one after the other,
/// and how the operation stands then. Events that come after the
/// operation's result are not looked at.
pub open spec fn run<R, W>(driver: DriverView, events: Seq<Event<R, W>>) -> (
    DriverView,
    Progress<R, W>,
)
    decreases events.len(),
{
    if events.len() == 0 {
        (driver, driver.current())
    } else if events.len() > 1 && driver.step(events[0]).1 is Perform {
        run(driver.step(events[0]).0, events.skip(1))
    } else {
        driver.step(events[0])
    }
}

/// The driver once its running stage is over: in the state that the stage
/// names, if any, and with the stages after it.
pub open spec fn advanced(driver: DriverView) -> DriverView {
    DriverView {
        state: match driver.tasks[0].enters {
            Some(state) => state,
            None => driver.state,
        },
        tasks: driver.tasks.skip(1),
    }
}

/// Events that take the running stage to its end take the driver to the
/// next stage, or to the operation's success after the last stage, or to its
/// failure.
pub proof fn lemma_run_through_stage<R, W>(
    driver: DriverView,
    events: Seq<Event<R, W>>,
    outcome: StageStep<R, W>,
)
    requires
        driver.busy(),
        ends_with(driver.tasks[0].stage, events, outcome),
    ensures
        outcome is Advance ==> run(driver, events) == (
            advanced(driver),
            if driver.tasks.len() > 1 {
                Progress::<R, W>::Perform(driver.tasks[1].stage.pending())
            } else {
                succeeded::<R, W>(driver.tasks[0].step)
            },
        ),
        outcome matches StageStep::Fail(cause) ==> run(driver, events) == (
            DriverView { state: rested(driver.state), tasks: Seq::empty() },
            failed::<R, W>(driver.tasks[0].step, cause),
        ),
    decreases events.len(),
{
    if events.len() > 1 {
        let next = driver.step(events[0]).0;
        assert(next.tasks.skip(1) =~= driver.tasks.skip(1));
        lemma_run_through_stage(next, events.skip(1), outcome);
        assert(advanced(next) == advanced(driver));
    } else {
        assert(advanced(driver).tasks.len() == driver.tasks.len() - 1);
        if driver.tasks.len() > 1 {
            assert(advanced(driver).tasks[0] == driver.tasks[1]);
        }
    }
}

/// Events that leave the operation under way can be followed by more: the
/// driver goes on from where the first events left it.
pub proof fn lemma_run_joins<R, W>(
    driver: DriverView,
    first: Seq<Event<R, W>>,
    second: Seq<Event<R, W>>,
)
    requires
        first.len() > 0,
        second.len() > 0,
        run(driver, first).1 is Perform,
    ensures
        run(driver, first + second) == run(run(driver, first).0, second),
    decreases first.len(),
{
    let all = first + second;
    assert(all[0] == first[0]);
    if first.len() > 1 {
        lemma_run_joins(driver.step(first[0]).0, first.skip(1), second);
        assert(all.skip(1) =~= first.skip(1) + second);
    } else {
        assert(all.skip(1) =~= second);
    }
}

/// The stage has not begun.
pub open spec fn fresh(stage: StageState) -> bool {
    match stage {
        StageState::Pin(_) => true,
        StageState::Settle { armed, .. } => !armed,
        StageState::Send(write) => write.written == 0 && !write.failed && write.bytes.len() > 0,
        StageState::Await { read, .. } => read.read.phase == ReadPhase::Arm && read.ring
            == Ring::empty(AT_RESPONSE_BUFFER_SIZE as nat),
        StageState::Prompt(read) => read.read.phase == ReadPhase::Arm && read.ring == Ring::empty(1),
    }
}

/// What a modem that does as it is asked makes of a stage: the pin and the
/// timer work, the line takes every byte at once, and the reply that the
/// stage waits for arrives byte by byte, with nothing before it.
pub open spec fn cooperative<R, W>(stage: StageState) -> Seq<Event<R, W>> {
    match stage {
        StageState::Pin(_) => seq![Event::Done],
        StageState::Settle { .. } => seq![Event::Done, Event::Timer(TimerPoll::Elapsed)],
        StageState::Send(write) => accepted(write.bytes.len()),
        StageState::Await { expected, .. } => arriving(response_text(expected)),
        StageState::Prompt(_) => arriving(">".spec_bytes()),
    }
}

/// What a modem that does as it is asked makes of the stages of an
/// operation, one after the other.
pub open spec fn script<R, W>(tasks: Seq<TaskState>) -> Seq<Event<R, W>>
    decreases tasks.len(),
{
    if tasks.len() == 0 {
        Seq::empty()
    } else {
        cooperative(tasks[0].stage) + script(tasks.skip(1))
    }
}

/// The state that the driver is in after all of `tasks`.
pub open spec fn settled(state: DriverState, tasks: Seq<TaskState>) -> DriverState
    decreases tasks.len(),
{
    if tasks.len() == 0 {
        state
    } else {
        settled(
            match tasks[0].enters {
                Some(entered) => entered,
                None => state,
            },
            tasks.skip(1),
        )
    }
}

proof fn lemma_arriving_len<R, W>(text: Seq<u8>)
    ensures
        arriving::<R, W>(text).len() == 2 * text.len(),
    decreases text.len(),
{
    if text.len() > 0 {
        lemma_arriving_len::<R, W>(text.skip(1));
    }
}

/// A modem that does as it is asked takes a stage that has not begun to its
/// end, and on to the next stage.
pub proof fn lemma_cooperative_stage<R, W>(stage: StageState)
    requires
        fresh(stage),
    ensures
        ends_with(stage, cooperative::<R, W>(stage), StageStep::Advance),
        cooperative::<R, W>(stage).len() > 0,
{
    let events = cooperative::<R, W>(stage);
    match stage {
        StageState::Pin(_) => {},
        StageState::Settle { span, armed } => {
            assert(events.skip(1) =~= seq![Event::<R, W>::Timer(TimerPoll::Elapsed)]);
            assert(ends_with(stage.step(events[0]).0, events.skip(1), StageStep::<R, W>::Advance));
        },
        StageState::Send(write) => {
            lemma_write_goes_through::<R, W>(write);
        },
        StageState::Await { read, expected, resetting, draining } => {
            let start = Ring::empty(AT_RESPONSE_BUFFER_SIZE as nat);
            assert(Seq::<u8>::empty() + response_text(expected) =~= response_text(expected));
            lemma_line_feed_ends_line(expected);
            lemma_reply_arrives::<R, W>(
                start,
                read,
                expected,
                resetting,
                draining,
                expected,
                Seq::empty(),
                response_text(expected),
            );
            lemma_arriving_len::<R, W>(response_text(expected));
        },
        StageState::Prompt(read) => {
            lemma_prompt_arrives::<R, W>(read);
            reveal_strlit(">");
            vstd::string::is_ascii_spec_bytes(">");
            lemma_arriving_len::<R, W>(">".spec_bytes());
        },
    }
}

/// With a modem that does as it is asked, an operation whose stages have not
/// begun goes through all of them and succeeds: as a transmission where its
/// last stage belongs to one, as a command otherwise. The driver is then in
/// the state that the stages led to, and nothing is under way.
pub proof fn lemma_cooperative_modem<R, W>(driver: DriverView)
    requires
        driver.busy(),
        forall|i: int| 0 <= i < driver.tasks.len() ==> fresh((#[trigger] driver.tasks[i]).stage),
    ensures
        run(driver, script::<R, W>(driver.tasks)) == (
            DriverView { state: settled(driver.state, driver.tasks), tasks: Seq::empty() },
            succeeded::<R, W>(driver.tasks.last().step),
        ),
        script::<R, W>(driver.tasks).len() > 0,
    decreases driver.tasks.len(),
{
    let first = cooperative::<R, W>(driver.tasks[0].stage);
    let rest = driver.tasks.skip(1);
    lemma_cooperative_stage::<R, W>(driver.tasks[0].stage);
    lemma_run_through_stage(driver, first, StageStep::<R, W>::Advance);
    if driver.tasks.len() == 1 {
        assert(script::<R, W>(rest) =~= Seq::<Event<R, W>>::empty());
        assert(first + script::<R, W>(rest) =~= first);
        assert(settled(advanced(driver).state, rest) == advanced(driver).state);
        assert(advanced(driver).tasks =~= Seq::<TaskState>::empty());
    } else {
        let next = advanced(driver);
        assert forall|i: int| 0 <= i < next.tasks.len() implies fresh(
            (#[trigger] next.tasks[i]).stage,
        ) by {
            assert(next.tasks[i] == driver.tasks[i + 1]);
        }
        lemma_cooperative_modem::<R, W>(next);
        lemma_run_joins(driver, first, script::<R, W>(rest));
        assert(next.tasks.last() == driver.tasks.last());
    }
}

proof fn lemma_settled_by_last(state: DriverState, tasks: Seq<TaskState>)
    requires
        tasks.len() > 0,
    ensures
        tasks.last().enters matches Some(entered) ==> settled(state, tasks) == entered,
        (forall|i: int| 0 <= i < tasks.len() ==> (#[trigger] tasks[i]).enters is None) ==> settled(
            state,
            tasks,
        ) == state,
    decreases tasks.len(),
{
    let rest = tasks.skip(1);
    let next = match tasks[0].enters {
        Some(entered) => entered,
        None => state,
    };
    if rest.len() > 0 {
        lemma_settled_by_last(next, rest);
        assert(rest.last() == tasks.last());
        if forall|i: int| 0 <= i < tasks.len() ==> (#[trigger] tasks[i]).enters is None {
            assert forall|i: int| 0 <= i < rest.len() implies (#[trigger] rest[i]).enters is None by {
                assert(rest[i] == tasks[i + 1]);
            }
        }
    } else {
        assert(settled(next, rest) == next);
    }
}

/// Against a modem that takes every byte and replies `OK` to each step, and
/// the prompt to the announcement of the payload, a transmission goes
/// through: its result is `Ok`, and the driver is `Idle` again with nothing
/// under way.
pub proof fn lemma_transmission_succeeds<R, W>(
    state: DriverState,
    kind: ConnectionType,
    address: Seq<u8>,
    port: u16,
    data: Seq<u8>,
)
    ensures
        run(
            DriverView { state, tasks: transmission_plan(kind, address, port, data) },
            script::<R, W>(transmission_plan(kind, address, port, data)),
        ) == (
            DriverView { state: DriverState::Idle, tasks: Seq::empty() },
            Progress::<R, W>::Sent(Ok(())),
        ),
{
    let plan = transmission_plan(kind, address, port, data);
    let driver = DriverView { state, tasks: plan };
    assert(plan.last() == acknowledged(
        Some(TransmissionStep::Close),
        false,
        Some(DriverState::Idle),
    ));
    lemma_settled_by_last(state, plan);
    lemma_cooperative_modem::<R, W>(driver);
}

/// Against a modem that takes every byte and replies `OK`, a command goes
/// through: its result is `Ok`, and the driver is in the state that it was
/// in, with nothing under way.
pub proof fn lemma_command_succeeds<R, W>(state: DriverState, command: Seq<u8>)
    ensures
        run(
            DriverView { state, tasks: command_plan(command) },
            script::<R, W>(command_plan(command)),
        ) == (DriverView { state, tasks: Seq::empty() }, Progress::<R, W>::Done(Ok(()))),
{
    let plan = command_plan(command);
    let driver = DriverView { state, tasks: plan };
    assert(plan.last() == acknowledged(None, false, None));
    lemma_settled_by_last(state, plan);
    lemma_cooperative_modem::<R, W>(driver);
}

/// When the modem answers the connect command with another reply than
/// `OK`, the transmission ends there: its result is an error of the step
/// `Connect` that holds the reply, the driver rests, and no stage is left,
/// so that neither the payload nor the close command is sent.
pub proof fn lemma_refused_connection_ends_transmission<R, W>(
    state: DriverState,
    kind: ConnectionType,
    address: Seq<u8>,
    port: u16,
    data: Seq<u8>,
    response: ATResponse,
)
    requires
        response != ATResponse::Okay,
    ensures
        run(
            DriverView { state, tasks: transmission_plan(kind, address, port, data) },
            script::<R, W>(
                send_tasks(
                    Some(TransmissionStep::Connect),
                    connect_command_text(kind, address, port),
                ),
            ) + arriving(response_text(response)),
        ) == (
            DriverView { state: rested(state), tasks: Seq::empty() },
            Progress::<R, W>::Sent(
                Err(
                    TransmissionError {
                        step: TransmissionStep::Connect,
                        cause: Error::UnexpectedResponse(response),
                    },
                ),
            ),
        ),
{
    let plan = transmission_plan(kind, address, port, data);
    let driver = DriverView { state, tasks: plan };
    let command = send_tasks(
        Some(TransmissionStep::Connect),
        connect_command_text(kind, address, port),
    );
    let reply = arriving::<R, W>(response_text(response));
    let refused = StageStep::<R, W>::Fail(Error::UnexpectedResponse(response));
    let start = Ring::empty(AT_RESPONSE_BUFFER_SIZE as nat);
    assert(Seq::<u8>::empty() + response_text(response) =~= response_text(response));
    lemma_line_feed_ends_line(response);
    lemma_arriving_len::<R, W>(response_text(response));
    let waiting = acknowledged(
        Some(TransmissionStep::Connect),
        false,
        Some(DriverState::Connected),
    );
    lemma_reply_arrives::<R, W>(
        start,
        fresh_reply(AT_RESPONSE_BUFFER_SIZE as nat),
        ATResponse::Okay,
        false,
        false,
        response,
        Seq::empty(),
        response_text(response),
    );
    if command.len() == 0 {
        assert(script::<R, W>(command) =~= Seq::<Event<R, W>>::empty());
        assert(script::<R, W>(command) + reply =~= reply);
        assert(plan[0] == waiting);
        lemma_run_through_stage(driver, reply, refused);
    } else {
        let sending = cooperative::<R, W>(command[0].stage);
        assert(plan[0] == command[0]);
        assert(plan[1] == waiting);
        assert(script::<R, W>(command.skip(1)) =~= Seq::<Event<R, W>>::empty());
        assert(script::<R, W>(command) =~= sending);
        lemma_cooperative_stage::<R, W>(command[0].stage);
        lemma_run_through_stage(driver, sending, StageStep::<R, W>::Advance);
        lemma_run_joins(driver, sending, reply);
        assert(advanced(driver).tasks[0] == waiting);
        lemma_run_through_stage(advanced(driver), reply, refused);
    }
}

/// The bytes that the stage has yet to write.
pub open spec fn unsent_of(stage: StageState) -> Seq<u8> {
    match stage {
        StageState::Send(write) => write.bytes.subrange(write.written, write.bytes.len() as int),
        _ => Seq::empty(),
    }
}

/// The bytes that the stages have yet to write, in the order in which they
/// go out.
pub open spec fn unsent(tasks: Seq<TaskState>) -> Seq<u8>
    decreases tasks.len(),
{
    if tasks.len() == 0 {
        Seq::empty()
    } else {
        unsent_of(tasks[0].stage) + unsent(tasks.skip(1))
    }
}

/// The line has taken the byte that the driver offered.
pub open spec fn byte_taken<R, W>(driver: DriverView, event: Event<R, W>) -> bool {
    driver.busy() && driver.tasks[0].stage is Send && event == Event::<R, W>::Write(
        WritePoll::Accepted,
    )
}

proof fn lemma_unsent_joins(first: Seq<TaskState>, second: Seq<TaskState>)
    ensures
        unsent(first + second) == unsent(first) + unsent(second),
    decreases first.len(),
{
    if first.len() == 0 {
        assert(first + second =~= second);
    } else {
        lemma_unsent_joins(first.skip(1), second);
        assert((first + second).skip(1) =~= first.skip(1) + second);
        assert(unsent(first + second) =~= unsent(first) + unsent(second));
    }
}

proof fn lemma_unsent_of_send(step: Option<TransmissionStep>, bytes: Seq<u8>)
    ensures
        unsent(send_tasks(step, bytes)) == bytes,
{
    let tasks = send_tasks(step, bytes);
    if bytes.len() > 0 {
        assert(unsent(tasks.skip(1)) =~= Seq::<u8>::empty());
        assert(unsent(tasks) =~= bytes);
    } else {
        assert(unsent(tasks) =~= bytes);
    }
}

proof fn lemma_unsent_of_wait(task: TaskState)
    requires
        !(task.stage is Send),
    ensures
        unsent(seq![task]) == Seq::<u8>::empty(),
{
    assert(unsent(seq![task].skip(1)) =~= Seq::<u8>::empty());
    assert(unsent(seq![task]) =~= Seq::<u8>::empty());
}

/// The driver writes the bytes of its stages, in their order, and nothing
/// else: a byte that it offers is the first of those that are yet to go
/// out; when the line has taken the byte, the rest is yet to go out; no
/// other event changes what is yet to go out, but for a failure, after which
/// nothing is.
pub proof fn lemma_bytes_go_out_in_order<R, W>(driver: DriverView, event: Event<R, W>)
    requires
        driver.wf(),
    ensures
        driver.step(event).1 matches Progress::Perform(Action::Write(byte)) ==> unsent(
            driver.step(event).0.tasks,
        ).len() > 0 && unsent(driver.step(event).0.tasks)[0] == byte,
        byte_taken(driver, event) ==> unsent(driver.tasks) == seq![
            driver.tasks[0].stage.pending()->Write_0,
        ] + unsent(driver.step(event).0.tasks),
        !byte_taken(driver, event) ==> unsent(driver.step(event).0.tasks) == unsent(driver.tasks)
            || !driver.step(event).0.busy(),
{
    if driver.busy() {
        let task = driver.tasks[0];
        let after = driver.step(event).0;
        let rest = driver.tasks.skip(1);
        match task.stage.step(event).1 {
            StageStep::Perform(action) => {
                assert(after.tasks.skip(1) =~= rest);
                assert(after.tasks[0].stage == task.stage.step(event).0);
                if byte_taken(driver, event) {
                    assert(unsent(driver.tasks) =~= seq![
                        driver.tasks[0].stage.pending()->Write_0,
                    ] + unsent(after.tasks));
                } else {
                    assert(unsent_of(after.tasks[0].stage) =~= unsent_of(task.stage));
                }
            },
            StageStep::Advance => {
                if after.busy() {
                    assert(after.tasks =~= rest);
                    if byte_taken(driver, event) {
                        assert(unsent_of(task.stage) =~= seq![
                            driver.tasks[0].stage.pending()->Write_0,
                        ]);
                    } else {
                        assert(unsent_of(task.stage) =~= Seq::<u8>::empty());
                        assert(unsent(driver.tasks) =~= unsent(rest));
                    }
                    assert(after.tasks[0].stage.wf());
                    if after.tasks[0].stage is Send {
                        assert(unsent_of(after.tasks[0].stage).len() > 0);
                    }
                } else {
                    assert(rest =~= Seq::<TaskState>::empty());
                    if byte_taken(driver, event) {
                        assert(unsent_of(task.stage) =~= seq![
                            driver.tasks[0].stage.pending()->Write_0,
                        ]);
                        assert(unsent(driver.tasks) =~= seq![
                            driver.tasks[0].stage.pending()->Write_0,
                        ] + unsent(after.tasks));
                    }
                }
            },
            StageStep::Fail(_) => {},
        }
    }
}

/// What a transmission has to write when it begins: the connect command,
/// the announcement of the payload's length, the payload, and the close
/// command.
pub proof fn lemma_bytes_of_a_transmission(
    kind: ConnectionType,
    address: Seq<u8>,
    port: u16,
    data: Seq<u8>,
)
    ensures
        unsent(transmission_plan(kind, address, port, data)) == connect_command_text(
            kind,
            address,
            port,
        ) + send_length_command_text(data.len()) + data + close_command_text(),
{
    let connect = Some(TransmissionStep::Connect);
    let send = Some(TransmissionStep::Send);
    let close = Some(TransmissionStep::Close);
    let c1 = send_tasks(connect, connect_command_text(kind, address, port));
    let c2 = seq![acknowledged(connect, false, Some(DriverState::Connected))];
    let p1 = send_tasks(send, send_length_command_text(data.len()));
    let p2 = seq![
        TaskState { step: send, stage: StageState::Prompt(fresh_reply(1)), enters: None },
    ];
    let p3 = send_tasks(send, data);
    let p4 = seq![acknowledged(send, false, None)];
    let e1 = send_tasks(close, close_command_text());
    let e2 = seq![acknowledged(close, false, Some(DriverState::Idle))];
    lemma_unsent_of_send(connect, connect_command_text(kind, address, port));
    lemma_unsent_of_send(send, send_length_command_text(data.len()));
    lemma_unsent_of_send(send, data);
    lemma_unsent_of_send(close, close_command_text());
    lemma_unsent_of_wait(c2[0]);
    lemma_unsent_of_wait(p2[0]);
    lemma_unsent_of_wait(p4[0]);
    lemma_unsent_of_wait(e2[0]);
    lemma_unsent_joins(c1, c2);
    lemma_unsent_joins(p1, p2);
    lemma_unsent_joins(p1 + p2, p3);
    lemma_unsent_joins(p1 + p2 + p3, p4);
    lemma_unsent_joins(e1, e2);
    lemma_unsent_joins(c1 + c2, p1 + p2 + p3 + p4);
    lemma_unsent_joins(c1 + c2 + (p1 + p2 + p3 + p4), e1 + e2);
    assert(transmission_plan(kind, address, port, data) =~= c1 + c2 + (p1 + p2 + p3 + p4) + (e1
        + e2));
    assert(unsent(transmission_plan(kind, address, port, data)) =~= connect_command_text(
        kind,
        address,
        port,
    ) + send_length_command_text(data.len()) + data + close_command_text());
}

/// Bytes that hold no line feed and arrive while a reply is waited for are
/// taken into the ring, and the wait goes on; when the line of a reply
/// arrives after them, the wait is over as if nothing had come before the
/// line.
pub proof fn lemma_reply_arrives_after_garbage<R, W>(
    read: MessageProgress,
    expected: ATResponse,
    resetting: bool,
    draining: bool,
    response: ATResponse,
    garbage: Seq<u8>,
)
    requires
        read.ring.wf(),
        read.ring.capacity() >= response_text(response).len(),
        read.read.phase == ReadPhase::Arm,
        forall|i: int| 0 <= i < garbage.len() ==> garbage[i] != 10,
    ensures
        ends_with(
            StageState::Await { read, expected, resetting, draining },
            arriving::<R, W>(garbage + response_text(response)),
            reply_outcome(response, expected),
        ),
    decreases garbage.len(),
{
    let text = response_text(response);
    lemma_line_feed_ends_line(response);
    if garbage.len() == 0 {
        assert(garbage + text =~= text);
        assert(Seq::<u8>::empty() + text =~= text);
        lemma_reply_arrives::<R, W>(
            read.ring,
            read,
            expected,
            resetting,
            draining,
            response,
            Seq::empty(),
            text,
        );
    } else {
        let byte = garbage[0];
        let stream = garbage + text;
        let events = arriving::<R, W>(stream);
        let stage = StageState::Await { read, expected, resetting, draining };
        assert(stream[0] == byte);
        assert(stream.skip(1) =~= garbage.skip(1) + text);
        assert(events[0] == Event::<R, W>::Done);
        assert(events[1] == Event::<R, W>::Read(ReadPoll::Byte(byte)));
        assert(events.skip(1)[0] == events[1]);
        assert(events.skip(1).skip(1) =~= arriving::<R, W>(stream.skip(1)));
        read.ring.lemma_push(byte);
        lemma_no_reply_within_a_line(read.ring, byte);
        let next = MessageProgress {
            read: TimedRead { timeout: read.read.timeout, phase: ReadPhase::Arm },
            ring: read.ring.push(byte),
        };
        lemma_reply_arrives_after_garbage::<R, W>(
            next,
            expected,
            resetting,
            draining,
            response,
            garbage.skip(1),
        );
        lemma_arriving_len::<R, W>(stream.skip(1));
        let armed = stage.step(events[0]).0;
        assert(armed.step(events[1]) == (
            StageState::Await { read: next, expected, resetting, draining },
            StageStep::<R, W>::Perform(Action::StartTimer(read.read.timeout)),
        ));
        assert(ends_with(armed, events.skip(1), reply_outcome::<R, W>(response, expected)));
    }
}

proof fn lemma_script_joins<R, W>(first: Seq<TaskState>, second: Seq<TaskState>)
    ensures
        script::<R, W>(first + second) == script::<R, W>(first) + script::<R, W>(second),
    decreases first.len(),
{
    if first.len() == 0 {
        assert(first + second =~= second);
        assert(script::<R, W>(first) + script::<R, W>(second) =~= script::<R, W>(second));
    } else {
        lemma_script_joins::<R, W>(first.skip(1), second);
        assert((first + second).skip(1) =~= first.skip(1) + second);
        assert(script::<R, W>(first + second) =~= script::<R, W>(first) + script::<R, W>(second));
    }
}

/// What the hardware reports while the modem is set up, when the modem
/// sends the line that reports the network right after the reset, with
/// nothing before it, takes every byte of the echo command at once, and
/// acknowledges it with `OK`.
pub open spec fn set_up_without_garbage<R, W>() -> Seq<Event<R, W>> {
    seq![Event::Done, Event::Done, Event::Timer(TimerPoll::Elapsed), Event::Done] + arriving(
        response_text(ATResponse::WiFiGotIp),
    ) + accepted(at_command_text("E0".spec_bytes()).len()) + arriving(
        response_text(ATResponse::Okay),
    )
}

/// A modem that sends nothing but `WIFI GOT IP` after the reset and `OK`
/// after the echo command is set up: the result is `Ok`, the driver is
/// `Idle` with nothing under way, and what was to be written is the command
/// that turns the echo off. The first byte that the modem sends counts
/// towards its reply.
pub proof fn lemma_set_up_without_garbage<R, W>()
    ensures
        run(
            DriverView { state: DriverState::Uninitialized, tasks: initialise_plan() },
            set_up_without_garbage::<R, W>(),
        ) == (
            DriverView { state: DriverState::Idle, tasks: Seq::empty() },
            Progress::<R, W>::Done(Ok(())),
        ),
        unsent(initialise_plan()) == at_command_text("E0".spec_bytes()),
{
    let plan = initialise_plan();
    let driver = DriverView { state: DriverState::Uninitialized, tasks: plan };
    let command = at_command_text("E0".spec_bytes());
    let reset = reset_plan(None);
    let sending = send_tasks(None, command);
    let last = seq![acknowledged(None, true, Some(DriverState::Idle))];
    assert(plan.last() == last[0]);
    lemma_settled_by_last(DriverState::Uninitialized, plan);
    lemma_cooperative_modem::<R, W>(driver);
    // The script of the plan, stage by stage
    lemma_script_joins::<R, W>(reset, sending);
    lemma_script_joins::<R, W>(reset + sending, last);
    assert(script::<R, W>(last.skip(1)) =~= Seq::<Event<R, W>>::empty());
    assert(script::<R, W>(last) =~= arriving::<R, W>(response_text(ATResponse::Okay)));
    if command.len() > 0 {
        assert(script::<R, W>(sending.skip(1)) =~= Seq::<Event<R, W>>::empty());
    }
    assert(script::<R, W>(sending) =~= accepted::<R, W>(command.len()));
    let r1 = reset.skip(1);
    let r2 = r1.skip(1);
    let r3 = r2.skip(1);
    assert(script::<R, W>(r3.skip(1)) =~= Seq::<Event<R, W>>::empty());
    assert(script::<R, W>(r3) =~= arriving::<R, W>(response_text(ATResponse::WiFiGotIp)));
    assert(script::<R, W>(r2) =~= seq![Event::<R, W>::Done] + script::<R, W>(r3));
    assert(script::<R, W>(r1) =~= seq![
        Event::<R, W>::Done,
        Event::<R, W>::Timer(TimerPoll::Elapsed),
    ] + script::<R, W>(r2));
    assert(script::<R, W>(reset) =~= seq![Event::<R, W>::Done] + script::<R, W>(r1));
    assert(script::<R, W>(plan) =~= set_up_without_garbage::<R, W>());
    // What the plan has to write
    lemma_unsent_joins(reset, sending);
    lemma_unsent_joins(reset + sending, last);
    lemma_unsent_of_send(None, command);
    lemma_unsent_of_wait(last[0]);
    assert(unsent(r3.skip(1)) =~= Seq::<u8>::empty());
    assert(unsent(r3) =~= Seq::<u8>::empty());
    assert(unsent(r2) =~= Seq::<u8>::empty());
    assert(unsent(r1) =~= Seq::<u8>::empty());
    assert(unsent(reset) =~= Seq::<u8>::empty());
    assert(unsent(plan) =~= command);
}

} // verus!
