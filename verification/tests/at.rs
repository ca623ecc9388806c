use weather_node::at::{
    at_command, connect_command, parse_at_response, send_length_command, ATResponse,
    ConnectionType,
};
use weather_node::pattern::PatternMatcher;

fn parsed_after(stream: &[u8]) -> Option<ATResponse> {
    let mut matcher = PatternMatcher::new(13);
    for &byte in stream {
        matcher.push(byte);
    }
    parse_at_response(matcher.buffer(), matcher.cursor())
}

#[test]
fn each_response_line_is_recognised() {
    assert_eq!(parsed_after(b"OK\r\n"), Some(ATResponse::Okay));
    assert_eq!(parsed_after(b"ERROR\r\n"), Some(ATResponse::Error));
    assert_eq!(parsed_after(b"busy p...\r\n"), Some(ATResponse::Busy));
    assert_eq!(parsed_after(b"WIFI GOT IP\r\n"), Some(ATResponse::WiFiGotIp));
}

#[test]
fn a_response_line_is_recognised_after_other_text() {
    assert_eq!(parsed_after(b"AT+CIPCLOSE\r\r\nCLOSED\r\n\r\nOK\r\n"), Some(ATResponse::Okay));
    assert_eq!(parsed_after(b"WIFI CONNECTED\r\nWIFI GOT IP\r\n"), Some(ATResponse::WiFiGotIp));
    assert_eq!(parsed_after(b"link is not valid\r\n\r\nERROR\r\n"), Some(ATResponse::Error));
}

#[test]
fn an_unfinished_line_is_no_response() {
    assert_eq!(parsed_after(b""), None);
    assert_eq!(parsed_after(b"OK"), None);
    assert_eq!(parsed_after(b"OK\r"), None);
    assert_eq!(parsed_after(b"ERROR\r\nO"), None);
    assert_eq!(parsed_after(b"WIFI CONNECTED\r\n"), None);
}

#[test]
fn parse_at_response_reads_the_ring_from_the_cursor() {
    // "OK\r\n" written round the end of a ring of six bytes.
    let ring = [b'\r', b'\n', b'x', b'y', b'O', b'K'];
    assert_eq!(parse_at_response(&ring, 2), Some(ATResponse::Okay));
    assert_eq!(parse_at_response(&ring, 3), None);
}

#[test]
fn connection_types_are_spelled_in_capitals() {
    assert_eq!(ConnectionType::Tcp.as_str(), "TCP");
    assert_eq!(ConnectionType::Udp.as_str(), "UDP");
}

#[test]
fn an_at_command_is_framed_with_prefix_and_terminator() {
    assert_eq!(at_command("E0"), b"ATE0\r\n".to_vec());
    assert_eq!(at_command("+CIPCLOSE"), b"AT+CIPCLOSE\r\n".to_vec());
    assert_eq!(at_command(""), b"AT\r\n".to_vec());
}

#[test]
fn the_connect_command_carries_kind_address_and_port() {
    assert_eq!(
        connect_command(ConnectionType::Tcp, "192.168.0.11", 2000),
        b"AT+CIPSTART=\"TCP\",\"192.168.0.11\",2000\r\n".to_vec()
    );
    assert_eq!(
        connect_command(ConnectionType::Udp, "example.org", 65535),
        b"AT+CIPSTART=\"UDP\",\"example.org\",65535\r\n".to_vec()
    );
    assert_eq!(
        connect_command(ConnectionType::Tcp, "", 0),
        b"AT+CIPSTART=\"TCP\",\"\",0\r\n".to_vec()
    );
}

#[test]
fn the_send_length_command_carries_the_length_in_decimal() {
    assert_eq!(send_length_command(0), b"AT+CIPSEND=0\r\n".to_vec());
    assert_eq!(send_length_command(16), b"AT+CIPSEND=16\r\n".to_vec());
    assert_eq!(send_length_command(2047), b"AT+CIPSEND=2047\r\n".to_vec());
}

#[test]
fn no_response_is_recognised_before_its_whole_line_has_arrived() {
    for line in [&b"OK\r\n"[..], b"ERROR\r\n", b"busy p...\r\n", b"WIFI GOT IP\r\n"] {
        for arrived in 0..line.len() {
            assert_eq!(parsed_after(&line[..arrived]), None);
            // Nor is the end of the line alone the line.
            assert_eq!(parsed_after(&line[line.len() - arrived..]), None);
        }
    }
}

#[test]
fn a_response_is_recognised_in_a_ring_as_long_as_its_line() {
    for (line, response) in [
        (&b"OK\r\n"[..], ATResponse::Okay),
        (b"ERROR\r\n", ATResponse::Error),
        (b"busy p...\r\n", ATResponse::Busy),
    ] {
        let mut matcher = PatternMatcher::new(line.len());
        for &byte in b"what came before" {
            matcher.push(byte);
        }
        for &byte in line {
            matcher.push(byte);
        }
        assert_eq!(parse_at_response(matcher.buffer(), matcher.cursor()), Some(response));
    }
}
