use std::collections::VecDeque;
use weather_node::at::{ATResponse, ConnectionType};
use weather_node::esp8266::{
    DriverState, Error, Esp8266, Progress, TransmissionError, TransmissionStep,
};
use weather_node::serial;
use weather_node::serial::{Action, Event, Millisecond, ReadPoll, TimerPoll, WritePoll};

/// A modem that exists in memory only. It answers each command line with the reply that the
/// test chose for that kind of command, and a payload with `OK`. Time passes by one
/// millisecond whenever the timer is looked at.
struct Modem {
    written: Vec<u8>,
    line: Vec<u8>,
    payload_left: usize,
    incoming: VecDeque<u8>,
    after_reset: Vec<u8>,
    connect_reply: Vec<u8>,
    send_reply: Vec<u8>,
    payload_reply: Vec<u8>,
    close_reply: Vec<u8>,
    command_reply: Vec<u8>,
    write_fault_at: Option<usize>,
    read_fault: Option<u8>,
    pin: Vec<bool>,
    timers: Vec<u32>,
    now: u32,
    deadline: u32,
}

impl Modem {
    fn new() -> Modem {
        Modem {
            written: Vec::new(),
            line: Vec::new(),
            payload_left: 0,
            incoming: VecDeque::new(),
            after_reset: b"\xfe\x00rl\r\nready\r\nWIFI CONNECTED\r\nWIFI GOT IP\r\n".to_vec(),
            connect_reply: b"CONNECT\r\n\r\nOK\r\n".to_vec(),
            send_reply: b"\r\nOK\r\n> ".to_vec(),
            payload_reply: b"\r\nRecv 16 bytes\r\n\r\nSEND OK\r\n".to_vec(),
            close_reply: b"CLOSED\r\n\r\nOK\r\n".to_vec(),
            command_reply: b"\r\nOK\r\n".to_vec(),
            write_fault_at: None,
            read_fault: None,
            pin: Vec::new(),
            timers: Vec::new(),
            now: 0,
            deadline: 0,
        }
    }

    fn reply(&mut self, bytes: Vec<u8>) {
        self.incoming.extend(bytes);
    }

    fn perform(&mut self, action: Action) -> Event<u8, u8> {
        match action {
            Action::ResetPin(level) => {
                self.pin.push(level);
                if level {
                    let greeting = self.after_reset.clone();
                    self.reply(greeting);
                }
                Event::Done
            }
            Action::StartTimer(Millisecond(span)) => {
                self.timers.push(span);
                self.deadline = self.now + span;
                Event::Done
            }
            Action::PollTimer => {
                self.now += 1;
                if self.now >= self.deadline {
                    Event::Timer(TimerPoll::Elapsed)
                } else {
                    Event::Timer(TimerPoll::Running)
                }
            }
            Action::PollRead => {
                if let Some(fault) = self.read_fault.take() {
                    return Event::Read(ReadPoll::Fault(fault));
                }
                match self.incoming.pop_front() {
                    Some(byte) => Event::Read(ReadPoll::Byte(byte)),
                    None => Event::Read(ReadPoll::WouldBlock),
                }
            }
            Action::Write(byte) => {
                if self.write_fault_at == Some(self.written.len()) {
                    return Event::Write(WritePoll::Fault(77));
                }
                self.written.push(byte);
                if self.payload_left > 0 {
                    self.payload_left -= 1;
                    if self.payload_left == 0 {
                        let reply = self.payload_reply.clone();
                        self.reply(reply);
                    }
                    return Event::Write(WritePoll::Accepted);
                }
                self.line.push(byte);
                if self.line.ends_with(b"\r\n") {
                    let line = std::mem::take(&mut self.line);
                    let reply = if line.starts_with(b"AT+CIPSTART=") {
                        self.connect_reply.clone()
                    } else if line.starts_with(b"AT+CIPSEND=") {
                        let digits = std::str::from_utf8(&line[11..line.len() - 2]).unwrap();
                        self.payload_left = digits.parse().unwrap();
                        if self.payload_left == 0 {
                            let mut reply = self.send_reply.clone();
                            reply.extend_from_slice(&self.payload_reply);
                            reply
                        } else {
                            self.send_reply.clone()
                        }
                    } else if line.starts_with(b"AT+CIPCLOSE") {
                        self.close_reply.clone()
                    } else {
                        self.command_reply.clone()
                    };
                    self.reply(reply);
                }
                Event::Write(WritePoll::Accepted)
            }
        }
    }
}

type Outcome = Progress<u8, u8>;

fn run(driver: &mut Esp8266, modem: &mut Modem) -> Outcome {
    let mut progress: Outcome = driver.current();
    for _ in 0..1_000_000 {
        match progress {
            Progress::Perform(action) => progress = driver.resume(modem.perform(action)),
            finished => return finished,
        }
    }
    panic!("the operation did not end");
}

fn ready_driver(modem: &mut Modem) -> Esp8266 {
    let mut driver = Esp8266::new();
    assert_eq!(run(&mut driver, modem), Progress::Done(Ok(())));
    modem.written.clear();
    modem.timers.clear();
    modem.pin.clear();
    driver
}

#[test]
fn a_new_driver_resets_the_modem_and_turns_the_echo_off() {
    let mut modem = Modem::new();
    let mut driver = Esp8266::new();
    assert_eq!(driver.state(), DriverState::Uninitialized);
    assert!(driver.is_busy());
    assert_eq!(run(&mut driver, &mut modem), Progress::Done(Ok(())));
    assert_eq!(driver.state(), DriverState::Idle);
    assert!(!driver.is_busy());
    assert_eq!(modem.pin, vec![false, true]);
    assert_eq!(modem.written, b"ATE0\r\n".to_vec());
    // The pin is held low for ten milliseconds; every wait for a byte gets five seconds.
    assert_eq!(modem.timers[0], 10);
    assert!(modem.timers[1..].iter().all(|span| *span == 5000));
    assert_eq!(driver.current::<u8, u8>(), Progress::Idle);
}

#[test]
fn a_modem_that_stays_silent_after_the_reset_fails_the_set_up() {
    let mut modem = Modem::new();
    modem.after_reset = Vec::new();
    let mut driver = Esp8266::new();
    assert_eq!(run(&mut driver, &mut modem), Progress::Done(Err(Error::ResetTimeout)));
    assert_eq!(driver.state(), DriverState::Uninitialized);
    assert!(!driver.is_busy());
    assert_eq!(modem.written, Vec::<u8>::new());
    // Ten milliseconds with the pin low, and five seconds for the first byte.
    assert_eq!(modem.now, 5010);
    // A driver that is not set up takes no operation.
    assert!(!driver.communicate("+GMR"));
    assert!(!driver.send_data(ConnectionType::Tcp, "host", 1, "x"));
    assert!(!driver.close_connection());
    assert!(!driver.reset());
    assert!(!driver.send_at_command("+GSLP=1000"));
    assert_eq!(driver.current::<u8, u8>(), Progress::Idle);
}

#[test]
fn a_modem_that_never_joins_the_network_fails_the_set_up() {
    let mut modem = Modem::new();
    modem.after_reset = b"\x00ready\r\n".to_vec();
    let mut driver = Esp8266::new();
    assert_eq!(run(&mut driver, &mut modem), Progress::Done(Err(Error::ResetTimeout)));
    assert_eq!(driver.state(), DriverState::Uninitialized);
}

#[test]
fn another_reply_than_the_expected_one_fails_the_set_up() {
    let mut modem = Modem::new();
    modem.after_reset = b"\x00ready\r\nERROR\r\n".to_vec();
    let mut driver = Esp8266::new();
    assert_eq!(
        run(&mut driver, &mut modem),
        Progress::Done(Err(Error::UnexpectedResponse(ATResponse::Error)))
    );
    assert_eq!(driver.state(), DriverState::Uninitialized);
    assert_eq!(modem.written, Vec::<u8>::new());
}

#[test]
fn faults_of_the_line_are_passed_over_while_the_first_byte_is_waited_for() {
    let mut modem = Modem::new();
    modem.read_fault = Some(3);
    let mut driver = Esp8266::new();
    assert_eq!(run(&mut driver, &mut modem), Progress::Done(Ok(())));
    assert_eq!(driver.state(), DriverState::Idle);
}

#[test]
fn a_command_is_sent_and_acknowledged() {
    let mut modem = Modem::new();
    let mut driver = ready_driver(&mut modem);
    assert!(driver.communicate("+CWMODE=1"));
    assert!(driver.is_busy());
    assert_eq!(run(&mut driver, &mut modem), Progress::Done(Ok(())));
    assert_eq!(modem.written, b"AT+CWMODE=1\r\n".to_vec());
    assert_eq!(driver.state(), DriverState::Idle);
    assert!(!driver.is_busy());
}

#[test]
fn a_busy_modem_is_an_unexpected_response_and_no_timeout() {
    let mut modem = Modem::new();
    let mut driver = ready_driver(&mut modem);
    modem.command_reply = b"busy p...\r\n".to_vec();
    assert!(driver.communicate("+CWMODE=1"));
    assert_eq!(
        run(&mut driver, &mut modem),
        Progress::Done(Err(Error::UnexpectedResponse(ATResponse::Busy)))
    );
    modem.command_reply = Vec::new();
    assert!(driver.communicate("+CWMODE=1"));
    assert_eq!(
        run(&mut driver, &mut modem),
        Progress::Done(Err(Error::RxError(serial::Error::TimedOut)))
    );
}

#[test]
fn no_operation_is_begun_while_another_is_under_way() {
    let mut modem = Modem::new();
    let mut driver = ready_driver(&mut modem);
    assert!(driver.communicate("+GMR"));
    assert!(!driver.communicate("+CWMODE=1"));
    assert!(!driver.send_data(ConnectionType::Tcp, "host", 1, "x"));
    assert!(!driver.close_connection());
    assert!(!driver.reset());
    assert_eq!(run(&mut driver, &mut modem), Progress::Done(Ok(())));
    assert_eq!(modem.written, b"AT+GMR\r\n".to_vec());
}

#[test]
fn a_transmission_connects_sends_and_closes() {
    let mut modem = Modem::new();
    let mut driver = ready_driver(&mut modem);
    assert!(driver.send_data(ConnectionType::Tcp, "192.168.0.11", 2000, "temperature:23.4"));
    assert_eq!(run(&mut driver, &mut modem), Progress::Sent(Ok(())));
    assert_eq!(
        modem.written,
        b"AT+CIPSTART=\"TCP\",\"192.168.0.11\",2000\r\nAT+CIPSEND=16\r\ntemperature:23.4AT+CIPCLOSE\r\n"
            .to_vec()
    );
    assert_eq!(driver.state(), DriverState::Idle);
    assert!(!driver.is_busy());
}

#[test]
fn a_transmission_over_a_modem_that_says_only_ok_succeeds() {
    let mut modem = Modem::new();
    let mut driver = ready_driver(&mut modem);
    modem.connect_reply = b"OK\r\n".to_vec();
    modem.send_reply = b"OK\r\n>".to_vec();
    modem.payload_reply = b"OK\r\n".to_vec();
    modem.close_reply = b"OK\r\n".to_vec();
    assert!(driver.send_data(ConnectionType::Udp, "10.0.0.1", 53, "humidity:55.0"));
    assert_eq!(run(&mut driver, &mut modem), Progress::Sent(Ok(())));
    assert_eq!(
        modem.written,
        b"AT+CIPSTART=\"UDP\",\"10.0.0.1\",53\r\nAT+CIPSEND=13\r\nhumidity:55.0AT+CIPCLOSE\r\n".to_vec()
    );
}

#[test]
fn an_error_at_the_connect_step_ends_the_transmission_there() {
    let mut modem = Modem::new();
    let mut driver = ready_driver(&mut modem);
    modem.connect_reply = b"ERROR\r\n".to_vec();
    assert!(driver.send_data(ConnectionType::Tcp, "192.168.0.11", 2000, "temperature:23.4"));
    assert_eq!(
        run(&mut driver, &mut modem),
        Progress::Sent(Err(TransmissionError {
            step: TransmissionStep::Connect,
            cause: Error::UnexpectedResponse(ATResponse::Error),
        }))
    );
    // Neither the send command nor the close command went out.
    assert_eq!(modem.written, b"AT+CIPSTART=\"TCP\",\"192.168.0.11\",2000\r\n".to_vec());
    assert_eq!(driver.state(), DriverState::Idle);
    assert!(!driver.is_busy());
    assert_eq!(driver.current::<u8, u8>(), Progress::Idle);
    assert_eq!(driver.resume(Event::<u8, u8>::Done), Progress::Idle);
    assert_eq!(modem.written, b"AT+CIPSTART=\"TCP\",\"192.168.0.11\",2000\r\n".to_vec());
}

#[test]
fn a_missing_prompt_fails_the_send_step() {
    let mut modem = Modem::new();
    let mut driver = ready_driver(&mut modem);
    modem.send_reply = b"\r\nOK\r\n".to_vec();
    assert!(driver.send_data(ConnectionType::Tcp, "host", 80, "battery:3.87"));
    assert_eq!(
        run(&mut driver, &mut modem),
        Progress::Sent(Err(TransmissionError {
            step: TransmissionStep::Send,
            cause: Error::RxError(serial::Error::TimedOut),
        }))
    );
    assert_eq!(modem.written, b"AT+CIPSTART=\"TCP\",\"host\",80\r\nAT+CIPSEND=12\r\n".to_vec());
    // The driver rests; the connection that was opened can be closed by hand.
    assert_eq!(driver.state(), DriverState::Idle);
    assert!(driver.close_connection());
    assert_eq!(run(&mut driver, &mut modem), Progress::Done(Ok(())));
    assert_eq!(driver.state(), DriverState::Idle);
    assert!(modem.written.ends_with(b"AT+CIPCLOSE\r\n"));
}

#[test]
fn an_error_after_the_payload_fails_the_send_step() {
    let mut modem = Modem::new();
    let mut driver = ready_driver(&mut modem);
    modem.payload_reply = b"ERROR\r\n".to_vec();
    assert!(driver.send_data(ConnectionType::Tcp, "host", 80, "wind_raw:0.12"));
    assert_eq!(
        run(&mut driver, &mut modem),
        Progress::Sent(Err(TransmissionError {
            step: TransmissionStep::Send,
            cause: Error::UnexpectedResponse(ATResponse::Error),
        }))
    );
    assert_eq!(
        modem.written,
        b"AT+CIPSTART=\"TCP\",\"host\",80\r\nAT+CIPSEND=13\r\nwind_raw:0.12".to_vec()
    );
}

#[test]
fn an_error_at_the_close_step_is_tagged_close() {
    let mut modem = Modem::new();
    let mut driver = ready_driver(&mut modem);
    modem.close_reply = b"ERROR\r\n".to_vec();
    assert!(driver.send_data(ConnectionType::Tcp, "host", 80, "x"));
    assert_eq!(
        run(&mut driver, &mut modem),
        Progress::Sent(Err(TransmissionError {
            step: TransmissionStep::Close,
            cause: Error::UnexpectedResponse(ATResponse::Error),
        }))
    );
    assert_eq!(driver.state(), DriverState::Idle);
}

#[test]
fn a_fault_of_the_line_while_writing_is_a_tx_error() {
    let mut modem = Modem::new();
    let mut driver = ready_driver(&mut modem);
    modem.write_fault_at = Some(5);
    assert!(driver.send_data(ConnectionType::Tcp, "host", 80, "x"));
    assert_eq!(
        run(&mut driver, &mut modem),
        Progress::Sent(Err(TransmissionError {
            step: TransmissionStep::Connect,
            cause: Error::TxError(77),
        }))
    );
    assert_eq!(modem.written, b"AT+CI".to_vec());
}

#[test]
fn a_fault_of_the_line_while_reading_is_an_rx_error() {
    let mut modem = Modem::new();
    let mut driver = ready_driver(&mut modem);
    modem.read_fault = Some(4);
    assert!(driver.communicate("+GMR"));
    assert_eq!(
        run(&mut driver, &mut modem),
        Progress::Done(Err(Error::RxError(serial::Error::Serial(4))))
    );
}

#[test]
fn an_empty_payload_is_announced_and_not_written() {
    let mut modem = Modem::new();
    let mut driver = ready_driver(&mut modem);
    assert!(driver.send_data(ConnectionType::Tcp, "host", 80, ""));
    assert_eq!(run(&mut driver, &mut modem), Progress::Sent(Ok(())));
    assert_eq!(
        modem.written,
        b"AT+CIPSTART=\"TCP\",\"host\",80\r\nAT+CIPSEND=0\r\nAT+CIPCLOSE\r\n".to_vec()
    );
}

#[test]
fn a_command_without_reply_is_over_when_it_is_written() {
    let mut modem = Modem::new();
    let mut driver = ready_driver(&mut modem);
    modem.command_reply = Vec::new();
    assert!(driver.send_at_command("+GSLP=1000"));
    assert_eq!(run(&mut driver, &mut modem), Progress::Done(Ok(())));
    assert_eq!(modem.written, b"AT+GSLP=1000\r\n".to_vec());
    assert_eq!(modem.timers, Vec::<u32>::new());
}

#[test]
fn a_reset_of_a_ready_driver_leaves_it_idle() {
    let mut modem = Modem::new();
    let mut driver = ready_driver(&mut modem);
    assert!(driver.reset());
    assert_eq!(run(&mut driver, &mut modem), Progress::Done(Ok(())));
    assert_eq!(modem.pin, vec![false, true]);
    assert_eq!(modem.written, Vec::<u8>::new());
    assert_eq!(driver.state(), DriverState::Idle);
}

#[test]
fn a_reset_that_times_out_is_a_reset_timeout() {
    let mut modem = Modem::new();
    let mut driver = ready_driver(&mut modem);
    modem.after_reset = b"\x00\x00".to_vec();
    assert!(driver.reset());
    assert_eq!(run(&mut driver, &mut modem), Progress::Done(Err(Error::ResetTimeout)));
}

#[test]
fn an_answer_to_another_action_is_passed_over() {
    let mut driver = Esp8266::new();
    assert_eq!(driver.current::<u8, u8>(), Progress::Perform(Action::ResetPin(false)));
    assert_eq!(
        driver.resume(Event::<u8, u8>::Timer(TimerPoll::Elapsed)),
        Progress::Perform(Action::ResetPin(false))
    );
    assert_eq!(
        driver.resume(Event::<u8, u8>::Done),
        Progress::Perform(Action::StartTimer(Millisecond(10)))
    );
    assert_eq!(driver.resume(Event::<u8, u8>::Done), Progress::Perform(Action::PollTimer));
    assert_eq!(
        driver.resume(Event::<u8, u8>::Timer(TimerPoll::Running)),
        Progress::Perform(Action::PollTimer)
    );
    assert_eq!(
        driver.resume(Event::<u8, u8>::Timer(TimerPoll::Elapsed)),
        Progress::Perform(Action::ResetPin(true))
    );
}

#[test]
fn try_step_tags_an_error_and_passes_a_value() {
    let failed: Result<u8, Error<u8, u8>> = Err(Error::TxError(1));
    assert_eq!(
        TransmissionError::try_step(TransmissionStep::Send, failed),
        Err(TransmissionError { step: TransmissionStep::Send, cause: Error::TxError(1) })
    );
    let passed: Result<u8, Error<u8, u8>> = Ok(5);
    assert_eq!(TransmissionError::try_step(TransmissionStep::Close, passed), Ok(5));
}

#[test]
fn the_radio_is_put_to_sleep_and_woken_without_waiting_for_a_reply() {
    let mut modem = Modem::new();
    let mut driver = ready_driver(&mut modem);
    modem.command_reply = Vec::new();
    assert!(driver.power_down());
    assert_eq!(run(&mut driver, &mut modem), Progress::Done(Ok(())));
    assert_eq!(modem.written, b"AT+SLEEP=2\r\n".to_vec());
    assert!(driver.power_up());
    assert_eq!(run(&mut driver, &mut modem), Progress::Done(Ok(())));
    assert_eq!(modem.written, b"AT+SLEEP=2\r\nAT+SLEEP=0\r\n".to_vec());
    assert_eq!(modem.timers, Vec::<u32>::new());
    assert_eq!(driver.state(), DriverState::Idle);
}

#[test]
fn the_state_is_connected_between_the_connect_and_the_close_step() {
    let mut modem = Modem::new();
    let mut driver = ready_driver(&mut modem);
    assert!(driver.send_data(ConnectionType::Tcp, "host", 80, "x"));
    let mut progress: Outcome = driver.current();
    let mut states = vec![driver.state()];
    while let Progress::Perform(action) = progress {
        // Nothing else is begun while the transmission is under way.
        assert!(!driver.power_down());
        assert!(!driver.send_at_command("+GMR"));
        progress = driver.resume(modem.perform(action));
        if states.last() != Some(&driver.state()) {
            states.push(driver.state());
        }
    }
    assert_eq!(progress, Progress::Sent(Ok(())));
    assert_eq!(states, vec![DriverState::Idle, DriverState::Connected, DriverState::Idle]);
}

#[test]
fn a_modem_that_sends_nothing_but_its_report_is_set_up() {
    let mut modem = Modem::new();
    modem.after_reset = b"WIFI GOT IP\r\n".to_vec();
    modem.command_reply = b"OK\r\n".to_vec();
    let mut driver = Esp8266::new();
    assert_eq!(run(&mut driver, &mut modem), Progress::Done(Ok(())));
    assert_eq!(driver.state(), DriverState::Idle);
    assert!(!driver.is_busy());
    assert_eq!(modem.pin, vec![false, true]);
    assert_eq!(modem.written, b"ATE0\r\n".to_vec());
    assert!(modem.incoming.is_empty());
}

#[test]
fn the_first_byte_after_a_reset_counts_towards_the_report() {
    let mut modem = Modem::new();
    let mut driver = ready_driver(&mut modem);
    modem.after_reset = b"WIFI GOT IP\r\n".to_vec();
    assert!(driver.reset());
    assert_eq!(run(&mut driver, &mut modem), Progress::Done(Ok(())));
    assert_eq!(driver.state(), DriverState::Idle);
    // One byte short at the front is no report.
    modem.after_reset = b"IFI GOT IP\r\n".to_vec();
    assert!(driver.reset());
    assert_eq!(run(&mut driver, &mut modem), Progress::Done(Err(Error::ResetTimeout)));
}

#[test]
fn faults_of_the_line_are_passed_over_in_the_middle_of_the_start_up() {
    let mut modem = Modem::new();
    let mut driver = Esp8266::new();
    let mut progress: Outcome = driver.current();
    let mut reads = 0;
    while let Progress::Perform(action) = progress {
        if action == Action::PollRead && modem.written.is_empty() {
            reads += 1;
            if reads % 5 == 0 {
                modem.read_fault = Some(reads as u8);
            }
        }
        progress = driver.resume(modem.perform(action));
    }
    assert!(reads > 20);
    assert_eq!(progress, Progress::Done(Ok(())));
    assert_eq!(modem.written, b"ATE0\r\n".to_vec());
}

#[test]
fn a_line_that_gives_nothing_but_faults_after_a_reset_times_out() {
    let mut modem = Modem::new();
    modem.after_reset = Vec::new();
    let mut driver = Esp8266::new();
    let mut progress: Outcome = driver.current();
    while let Progress::Perform(action) = progress {
        if action == Action::PollRead {
            modem.read_fault = Some(1);
        }
        progress = driver.resume(modem.perform(action));
    }
    assert_eq!(progress, Progress::Done(Err(Error::ResetTimeout)));
    assert_eq!(modem.now, 5010);
    // The countdown was started once for the wait, and not again after a fault.
    assert_eq!(modem.timers, vec![10, 5000]);
}

#[test]
fn a_fault_of_the_line_after_the_echo_command_fails_the_set_up() {
    let mut modem = Modem::new();
    let mut driver = Esp8266::new();
    let mut progress: Outcome = driver.current();
    let mut injected = false;
    while let Progress::Perform(action) = progress {
        if !injected && modem.written == b"ATE0\r\n".to_vec() {
            modem.read_fault = Some(6);
            injected = true;
        }
        progress = driver.resume(modem.perform(action));
    }
    assert_eq!(progress, Progress::Done(Err(Error::RxError(serial::Error::Serial(6)))));
    assert_eq!(driver.state(), DriverState::Uninitialized);
}

#[test]
fn an_acknowledgement_of_the_echo_command_that_does_not_come_is_a_reset_timeout() {
    let mut modem = Modem::new();
    modem.command_reply = Vec::new();
    let mut driver = Esp8266::new();
    assert_eq!(run(&mut driver, &mut modem), Progress::Done(Err(Error::ResetTimeout)));
    assert_eq!(modem.written, b"ATE0\r\n".to_vec());
    assert_eq!(driver.state(), DriverState::Uninitialized);
}
