use std::collections::VecDeque;
use weather_node::at::ATResponse;
use weather_node::esp8266::{PromptParser, ResponseParser};
use weather_node::serial::{
    read_until_message, read_with_timeout, write_all, Action, Error, Event, Millisecond,
    ReadPhase, ReadPoll, Step, TimedRead, TimerPoll, WritePoll,
};

/// A serial line and a countdown timer that exist in memory only. Time passes by one
/// millisecond whenever the timer is looked at.
struct Line {
    incoming: VecDeque<Result<u8, u8>>,
    now: u32,
    deadline: u32,
    timer_looks: u32,
    started_with: Vec<u32>,
}

impl Line {
    fn new(incoming: &[Result<u8, u8>]) -> Line {
        Line {
            incoming: incoming.iter().cloned().collect(),
            now: 0,
            deadline: 0,
            timer_looks: 0,
            started_with: Vec::new(),
        }
    }

    fn perform(&mut self, action: Action) -> Event<u8, u8> {
        match action {
            Action::StartTimer(Millisecond(span)) => {
                self.deadline = self.now + span;
                self.started_with.push(span);
                Event::Done
            }
            Action::PollTimer => {
                self.now += 1;
                self.timer_looks += 1;
                if self.now >= self.deadline {
                    Event::Timer(TimerPoll::Elapsed)
                } else {
                    Event::Timer(TimerPoll::Running)
                }
            }
            Action::PollRead => match self.incoming.pop_front() {
                Some(Ok(byte)) => Event::Read(ReadPoll::Byte(byte)),
                Some(Err(fault)) => Event::Read(ReadPoll::Fault(fault)),
                None => Event::Read(ReadPoll::WouldBlock),
            },
            other => panic!("unexpected action {:?}", other),
        }
    }
}

fn run_read(read: &mut TimedRead, line: &mut Line) -> Result<u8, Error<u8>> {
    let mut action = read.action().expect("the read is under way");
    loop {
        match read.resume(line.perform(action)) {
            Step::Perform(next) => action = next,
            Step::Finished(result) => return result,
            Step::Idle => panic!("the read stopped without a result"),
        }
    }
}

#[test]
fn a_silent_line_times_out_when_the_countdown_ends_and_not_before() {
    let mut line = Line::new(&[]);
    let mut read = read_with_timeout(Millisecond(250));
    assert_eq!(run_read(&mut read, &mut line), Err(Error::TimedOut));
    assert_eq!(line.started_with, vec![250]);
    assert_eq!(line.now, 250);
    assert_eq!(line.timer_looks, 250);
}

#[test]
fn no_result_comes_while_the_countdown_runs() {
    let mut read = read_with_timeout(Millisecond(5));
    assert_eq!(read.action(), Some(Action::StartTimer(Millisecond(5))));
    assert_eq!(read.resume(Event::<u8, u8>::Done), Step::Perform(Action::PollRead));
    for _ in 0..1000 {
        assert_eq!(
            read.resume(Event::<u8, u8>::Read(ReadPoll::WouldBlock)),
            Step::Perform(Action::PollTimer)
        );
        assert_eq!(
            read.resume(Event::<u8, u8>::Timer(TimerPoll::Running)),
            Step::Perform(Action::PollRead)
        );
    }
    assert_eq!(
        read.resume(Event::<u8, u8>::Read(ReadPoll::WouldBlock)),
        Step::Perform(Action::PollTimer)
    );
    assert_eq!(
        read.resume(Event::<u8, u8>::Timer(TimerPoll::Elapsed)),
        Step::Finished(Err(Error::TimedOut))
    );
    assert_eq!(read.action(), None);
    assert_eq!(read.resume(Event::<u8, u8>::Read(ReadPoll::Byte(1))), Step::Idle);
}

#[test]
fn a_byte_is_returned_at_once() {
    let mut line = Line::new(&[Ok(0x41)]);
    let mut read = read_with_timeout(Millisecond(1000));
    assert_eq!(run_read(&mut read, &mut line), Ok(0x41));
    assert_eq!(line.timer_looks, 0);
}

#[test]
fn a_fault_of_the_line_is_passed_on_and_not_tried_again() {
    let mut line = Line::new(&[Err(9), Ok(1)]);
    let mut read = read_with_timeout(Millisecond(1000));
    assert_eq!(run_read(&mut read, &mut line), Err(Error::Serial(9)));
    assert_eq!(line.incoming.len(), 1);
    assert_eq!(line.timer_looks, 0);
}

#[test]
fn an_answer_to_another_action_changes_nothing() {
    let mut read = read_with_timeout(Millisecond(7));
    assert_eq!(
        read.resume(Event::<u8, u8>::Timer(TimerPoll::Elapsed)),
        Step::Perform(Action::StartTimer(Millisecond(7)))
    );
    assert_eq!(read, TimedRead { timeout: Millisecond(7), phase: ReadPhase::Arm });
    read.resume(Event::<u8, u8>::Done);
    assert_eq!(
        read.resume(Event::<u8, u8>::Timer(TimerPoll::Elapsed)),
        Step::Perform(Action::PollRead)
    );
    assert_eq!(read.resume(Event::<u8, u8>::Write(WritePoll::Accepted)), Step::Perform(Action::PollRead));
    assert_eq!(read.phase, ReadPhase::Serial);
}

#[test]
fn all_bytes_are_written_in_order() {
    let mut write = write_all(b"AT\r\n");
    let mut written = Vec::new();
    let mut step: Step<Result<(), u8>> = write.current();
    loop {
        match step {
            Step::Perform(Action::Write(byte)) => {
                written.push(byte);
                step = write.resume(Event::<u8, u8>::Write(WritePoll::Accepted));
            }
            Step::Finished(result) => {
                assert_eq!(result, Ok(()));
                break;
            }
            other => panic!("unexpected step {:?}", other),
        }
    }
    assert_eq!(written, b"AT\r\n".to_vec());
}

#[test]
fn a_byte_is_offered_again_until_the_line_takes_it() {
    let mut write = write_all(&[1, 2]);
    assert_eq!(write.action(), Some(Action::Write(1)));
    for _ in 0..100 {
        assert_eq!(
            write.resume(Event::<u8, u8>::Write(WritePoll::WouldBlock)),
            Step::Perform(Action::Write(1))
        );
    }
    assert_eq!(
        write.resume(Event::<u8, u8>::Write(WritePoll::Accepted)),
        Step::Perform(Action::Write(2))
    );
    assert_eq!(write.resume(Event::<u8, u8>::Done), Step::Perform(Action::Write(2)));
    assert_eq!(write.resume(Event::<u8, u8>::Write(WritePoll::Accepted)), Step::Finished(Ok(())));
    assert_eq!(write.action(), None);
}

#[test]
fn a_write_stops_at_the_first_fault() {
    let mut write = write_all(&[1, 2, 3]);
    assert_eq!(
        write.resume(Event::<u8, u8>::Write(WritePoll::Accepted)),
        Step::Perform(Action::Write(2))
    );
    assert_eq!(write.resume(Event::<u8, u8>::Write(WritePoll::Fault(5))), Step::Finished(Err(5)));
    assert_eq!(write.action(), None);
    assert_eq!(write.resume(Event::<u8, u8>::Write(WritePoll::Accepted)), Step::Idle);
    assert_eq!(write.current::<u8>(), Step::Idle);
}

#[test]
fn nothing_to_write_is_written_at_once() {
    let write = write_all(&[]);
    assert_eq!(write.action(), None);
    assert_eq!(write.current::<u8>(), Step::Finished(Ok(())));
}

#[test]
fn a_message_is_read_until_the_parser_recognises_it() {
    let bytes: Vec<Result<u8, u8>> = b"AT\r\r\nbusy p...\r\nOK\r\n".iter().map(|b| Ok(*b)).collect();
    let mut line = Line::new(&bytes);
    let mut read = read_until_message(Millisecond(5000), 13, ResponseParser);
    let mut action = read.action().expect("the read is under way");
    let result = loop {
        match read.resume(line.perform(action)) {
            Step::Perform(next) => action = next,
            Step::Finished(result) => break result,
            Step::Idle => panic!("the read stopped without a result"),
        }
    };
    // The first line that is recognised ends the read; what follows stays on the line.
    assert_eq!(result, Ok(ATResponse::Busy));
    assert_eq!(line.incoming.len(), 4);
    // The countdown was started afresh for every byte.
    assert_eq!(line.started_with, vec![5000; 16]);
}

#[test]
fn a_message_that_stops_half_way_times_out() {
    let bytes: Vec<Result<u8, u8>> = b"OK\r".iter().map(|b| Ok(*b)).collect();
    let mut line = Line::new(&bytes);
    let mut read = read_until_message(Millisecond(40), 13, ResponseParser);
    let mut action = read.action().expect("the read is under way");
    let result = loop {
        match read.resume(line.perform(action)) {
            Step::Perform(next) => action = next,
            Step::Finished(result) => break result,
            Step::Idle => panic!("the read stopped without a result"),
        }
    };
    assert_eq!(result, Err(Error::TimedOut));
    assert_eq!(line.now, 40);
    assert_eq!(read.action(), None);
}

#[test]
fn the_prompt_is_recognised_in_a_ring_of_one_byte() {
    let bytes: Vec<Result<u8, u8>> = b"\r\n> ".iter().map(|b| Ok(*b)).collect();
    let mut line = Line::new(&bytes);
    let mut read = read_until_message(Millisecond(40), 1, PromptParser);
    let mut action = read.action().expect("the read is under way");
    let result = loop {
        match read.resume(line.perform(action)) {
            Step::Perform(next) => action = next,
            Step::Finished(result) => break result,
            Step::Idle => panic!("the read stopped without a result"),
        }
    };
    assert_eq!(result, Ok(()));
    assert_eq!(line.incoming.len(), 1);
}
