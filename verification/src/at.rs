//! The text of the modem's AT protocol: the reply lines that are recognised, and the
//! command lines that are sent.

use vstd::prelude::*;
use vstd::string::StringSliceAdditionalSpecFns;
use crate::decimal::{decimal, format_integer};
use crate::pattern::{circular_index, compare_circular_buffer, from_end, tail_matches, Ring};

verus! {

/// Possible responses from an esp8266 AT command.
#[derive(Debug, Clone, Copy, PartialEq, Eq, Structural)]
pub enum ATResponse {
    Okay,
    Error,
    Busy,
    WiFiGotIp,
}

/// Maximum length of an AT response (length of message + CRLF).
///
/// Longest message: `WIFI GOT IP\r\n`
pub const AT_RESPONSE_BUFFER_SIZE: usize = 13;

/// The line that the modem sends for `response`, terminator included.
pub open spec fn response_text(response: ATResponse) -> Seq<u8> {
    match response {
        ATResponse::Okay => "OK\r\n".spec_bytes(),
        ATResponse::Error => "ERROR\r\n".spec_bytes(),
        ATResponse::Busy => "busy p...\r\n".spec_bytes(),
        ATResponse::WiFiGotIp => "WIFI GOT IP\r\n".spec_bytes(),
    }
}

/// The response whose line the ring ends with: the first, in the order `Okay`,
/// `Error`, `Busy`, `WiFiGotIp`, whose line agrees with the ring's tail.
pub open spec fn recognised_response(buffer: Seq<u8>, offset: int) -> Option<ATResponse> {
    if tail_matches(buffer, offset, response_text(ATResponse::Okay)) {
        Some(ATResponse::Okay)
    } else if tail_matches(buffer, offset, response_text(ATResponse::Error)) {
        Some(ATResponse::Error)
    } else if tail_matches(buffer, offset, response_text(ATResponse::Busy)) {
        Some(ATResponse::Busy)
    } else if tail_matches(buffer, offset, response_text(ATResponse::WiFiGotIp)) {
        Some(ATResponse::WiFiGotIp)
    } else {
        None
    }
}

/// Parses `buffer` as an AT command response, returning the response if the
/// ring ends with one and `None` otherwise.
pub fn parse_at_response(buffer: &[u8], offset: usize) -> (response: Option<ATResponse>)
    ensures
        response == recognised_response(buffer@, offset as int),
{
    if compare_circular_buffer(buffer, offset, "OK\r\n".as_bytes()) {
        Some(ATResponse::Okay)
    } else if compare_circular_buffer(buffer, offset, "ERROR\r\n".as_bytes()) {
        Some(ATResponse::Error)
    } else if compare_circular_buffer(buffer, offset, "busy p...\r\n".as_bytes()) {
        Some(ATResponse::Busy)
    } else if compare_circular_buffer(buffer, offset, "WIFI GOT IP\r\n".as_bytes()) {
        Some(ATResponse::WiFiGotIp)
    } else {
        None
    }
}

/// The bytes of the four response lines.
pub proof fn lemma_response_texts()
    ensures
        response_text(ATResponse::Okay) == seq![79u8, 75u8, 13u8, 10u8],
        response_text(ATResponse::Error) == seq![69u8, 82u8, 82u8, 79u8, 82u8, 13u8, 10u8],
        response_text(ATResponse::Busy) == seq![
            98u8,
            117u8,
            115u8,
            121u8,
            32u8,
            112u8,
            46u8,
            46u8,
            46u8,
            13u8,
            10u8,
        ],
        response_text(ATResponse::WiFiGotIp) == seq![
            87u8,
            73u8,
            70u8,
            73u8,
            32u8,
            71u8,
            79u8,
            84u8,
            32u8,
            73u8,
            80u8,
            13u8,
            10u8,
        ],
{
    reveal_strlit("OK\r\n");
    reveal_strlit("ERROR\r\n");
    reveal_strlit("busy p...\r\n");
    reveal_strlit("WIFI GOT IP\r\n");
    vstd::string::is_ascii_spec_bytes("OK\r\n");
    vstd::string::is_ascii_spec_bytes("ERROR\r\n");
    vstd::string::is_ascii_spec_bytes("busy p...\r\n");
    vstd::string::is_ascii_spec_bytes("WIFI GOT IP\r\n");
    assert(response_text(ATResponse::Okay) =~= seq![79u8, 75u8, 13u8, 10u8]);
    assert(response_text(ATResponse::Error) =~= seq![69u8, 82u8, 82u8, 79u8, 82u8, 13u8, 10u8]);
    assert(response_text(ATResponse::Busy) =~= seq![
        98u8,
        117u8,
        115u8,
        121u8,
        32u8,
        112u8,
        46u8,
        46u8,
        46u8,
        13u8,
        10u8,
    ]);
    assert(response_text(ATResponse::WiFiGotIp) =~= seq![
        87u8,
        73u8,
        70u8,
        73u8,
        32u8,
        71u8,
        79u8,
        84u8,
        32u8,
        73u8,
        80u8,
        13u8,
        10u8,
    ]);
}

proof fn lemma_other_line_differs(ring: Ring, response: ATResponse, other: ATResponse)
    requires
        ring.wf(),
        ring.capacity() >= response_text(response).len(),
        ring.matches(response_text(response)),
        other != response,
    ensures
        !tail_matches(ring.bytes, ring.cursor, response_text(other)),
{
    lemma_response_texts();
    let text = response_text(response);
    let differing = response_text(other);
    assert(from_end(ring.window(), 2) == from_end(text, 2));
    assert(from_end(text, 2) != from_end(differing, 2));
    let c = circular_index(ring.bytes.len() as int, ring.cursor, 2);
    assert(ring.window()[ring.filled - 1 - 2] == ring.bytes[c]) by {
        assert(ring.cursor + ring.bytes.len() - ring.filled + (ring.filled - 1 - 2)
            == ring.bytes.len() + ring.cursor - 1 - 2);
    }
    if tail_matches(ring.bytes, ring.cursor, differing) {
        assert(ring.bytes[c] == differing[differing.len() - 1 - 2]);
    }
}

/// Once the stream that a ring has seen ends with the line of a response,
/// that response is what is recognised in the ring, whatever came before the
/// line, provided that the ring is at least as long as the line.
pub proof fn lemma_response_line_is_recognised(ring: Ring, response: ATResponse)
    requires
        ring.wf(),
        ring.capacity() >= response_text(response).len(),
        ring.matches(response_text(response)),
    ensures
        recognised_response(ring.bytes, ring.cursor) == Some(response),
{
    lemma_response_texts();
    ring.lemma_window_is_tail(response_text(response));
    if response != ATResponse::Okay {
        lemma_other_line_differs(ring, response, ATResponse::Okay);
    }
    if response != ATResponse::Error {
        lemma_other_line_differs(ring, response, ATResponse::Error);
    }
    if response != ATResponse::Busy {
        lemma_other_line_differs(ring, response, ATResponse::Busy);
    }
}

/// No response is recognised before its whole line has arrived: in a ring
/// that was made empty and has seen fewer bytes than the line of a response
/// has, that response is not recognised, provided that the ring is at least
/// as long as the line.
pub proof fn lemma_no_response_on_short_stream(capacity: nat, stream: Seq<u8>, response: ATResponse)
    requires
        stream.len() < response_text(response).len() <= capacity,
    ensures
        !tail_matches(
            Ring::empty(capacity).push_all(stream).bytes,
            Ring::empty(capacity).push_all(stream).cursor,
            response_text(response),
        ),
        recognised_response(
            Ring::empty(capacity).push_all(stream).bytes,
            Ring::empty(capacity).push_all(stream).cursor,
        ) != Some(response),
{
    lemma_response_texts();
    let start = Ring::empty(capacity);
    let ring = start.push_all(stream);
    let text = response_text(response);
    start.lemma_untouched(stream);
    let len = ring.bytes.len() as int;
    let back = ring.filled;
    assert(ring.cursor == ring.filled);
    vstd::arithmetic::div_mod::lemma_small_mod((len - 1) as nat, len as nat);
    assert(circular_index(len, ring.cursor, back) == len - 1);
    assert(ring.bytes[len - 1] == 0);
    assert(text[text.len() - 1 - back] != 0);
    if tail_matches(ring.bytes, ring.cursor, text) {
        assert(ring.bytes[circular_index(len, ring.cursor, back)] == text[text.len() - 1 - back]);
    }
}

/// The transport over which the modem opens a connection.
#[derive(Debug, Clone, Copy, PartialEq, Eq, Structural)]
pub enum ConnectionType {
    Tcp,
    Udp,
}

impl ConnectionType {
    /// The name of the transport as the connect command spells it.
    pub open spec fn text(self) -> Seq<u8> {
        match self {
            ConnectionType::Tcp => "TCP".spec_bytes(),
            ConnectionType::Udp => "UDP".spec_bytes(),
        }
    }

    /// The name of the transport as the connect command spells it.
    pub fn as_str(&self) -> (name: &str)
        ensures
            name.spec_bytes() == self.text(),
            name@ == match *self {
                ConnectionType::Tcp => "TCP"@,
                ConnectionType::Udp => "UDP"@,
            },
    {
        match *self {
            ConnectionType::Tcp => "TCP",
            ConnectionType::Udp => "UDP",
        }
    }
}

/// The line `AT<command>` with its terminator.
pub open spec fn at_command_text(command: Seq<u8>) -> Seq<u8> {
    "AT".spec_bytes() + command + "\r\n".spec_bytes()
}

/// The line that asks the modem to open a connection:
/// `AT+CIPSTART="<TCP|UDP>","<address>",<port>`.
pub open spec fn connect_command_text(kind: ConnectionType, address: Seq<u8>, port: u16) -> Seq<
    u8,
> {
    "AT+CIPSTART=\"".spec_bytes() + kind.text() + "\",\"".spec_bytes() + address
        + "\",".spec_bytes() + decimal(port as nat) + "\r\n".spec_bytes()
}

/// The line that announces a payload of `length` bytes: `AT+CIPSEND=<length>`.
pub open spec fn send_length_command_text(length: nat) -> Seq<u8> {
    "AT+CIPSEND=".spec_bytes() + decimal(length) + "\r\n".spec_bytes()
}

/// The line that closes the connection.
pub open spec fn close_command_text() -> Seq<u8> {
    at_command_text("+CIPCLOSE".spec_bytes())
}

/// Appends `bytes` to `out`.
pub fn append_bytes(out: &mut Vec<u8>, bytes: &[u8])
    ensures
        final(out)@ == old(out)@ + bytes@,
{
    let mut i: usize = 0;
    while i < bytes.len()
        invariant
            i <= bytes@.len(),
            out@ == old(out)@ + bytes@.subrange(0, i as int),
        decreases bytes@.len() - i,
    {
        out.push(bytes[i]);
        i += 1;
        assert(out@ =~= old(out)@ + bytes@.subrange(0, i as int));
    }
    assert(bytes@.subrange(0, i as int) =~= bytes@);
}

/// Builds the line `AT<command>`, terminator included.
pub fn at_command(command: &str) -> (line: Vec<u8>)
    ensures
        line@ == at_command_text(command.spec_bytes()),
{
    let mut line: Vec<u8> = Vec::new();
    append_bytes(&mut line, "AT".as_bytes());
    append_bytes(&mut line, command.as_bytes());
    append_bytes(&mut line, "\r\n".as_bytes());
    assert(line@ =~= at_command_text(command.spec_bytes()));
    line
}

/// Builds the line that asks the modem to open a connection of `kind` to
/// `address` and `port`.
pub fn connect_command(kind: ConnectionType, address: &str, port: u16) -> (line: Vec<u8>)
    ensures
        line@ == connect_command_text(kind, address.spec_bytes(), port),
{
    let port_text = format_integer(port as i64);
    let mut line: Vec<u8> = Vec::new();
    append_bytes(&mut line, "AT+CIPSTART=\"".as_bytes());
    append_bytes(&mut line, kind.as_str().as_bytes());
    append_bytes(&mut line, "\",\"".as_bytes());
    append_bytes(&mut line, address.as_bytes());
    append_bytes(&mut line, "\",".as_bytes());
    append_bytes(&mut line, port_text.as_str().as_bytes());
    append_bytes(&mut line, "\r\n".as_bytes());
    assert(line@ =~= connect_command_text(kind, address.spec_bytes(), port));
    line
}

/// Builds the line that announces a payload of `length` bytes.
pub fn send_length_command(length: usize) -> (line: Vec<u8>)
    requires
        length < 2048,
    ensures
        line@ == send_length_command_text(length as nat),
{
    let length_text = format_integer(length as i64);
    let mut line: Vec<u8> = Vec::new();
    append_bytes(&mut line, "AT+CIPSEND=".as_bytes());
    append_bytes(&mut line, length_text.as_str().as_bytes());
    append_bytes(&mut line, "\r\n".as_bytes());
    assert(line@ =~= send_length_command_text(length as nat));
    line
}

} // verus!
