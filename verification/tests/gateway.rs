use std::cell::RefCell;

use neutron::error::{AppError, AppResult};
use neutron::ip::IpAddr;
use neutron::portforward::{
    build_map_request, describe_result_code, exchange_error, gateway_for_address, map_protocol,
    parse_map_response, request_mapping, ExchangeFault, LIFETIME, NATPMP_PORT, OP_MAP_TCP,
    OP_MAP_UDP, READ_TIMEOUT_SECS, RENEW_INTERVAL, RESPONSE_LEN, RESPONSE_OPCODE_OFFSET,
};
use neutron::record::Recorder;

/// Build a well-formed reply so tests describe intent rather than offsets.
fn response(opcode: u8, result_code: u16, external_port: u16) -> [u8; RESPONSE_LEN] {
    let mut bytes = [0u8; RESPONSE_LEN];
    bytes[1] = opcode + RESPONSE_OPCODE_OFFSET;
    bytes[2..4].copy_from_slice(&result_code.to_be_bytes());
    bytes[10..12].copy_from_slice(&external_port.to_be_bytes());
    bytes
}

#[test]
fn request_encodes_the_rfc_layout() {
    let request = build_map_request(OP_MAP_UDP, 0, 0, LIFETIME);

    assert_eq!(request[0], 0, "version must be 0");
    assert_eq!(request[1], OP_MAP_UDP);
    assert_eq!(&request[2..4], &[0, 0], "reserved bytes must be zero");
    assert_eq!(&request[8..12], &LIFETIME.to_be_bytes());
}

#[test]
fn request_carries_the_requested_ports() {
    let request = build_map_request(OP_MAP_TCP, 4321, 1234, 60);

    assert_eq!(&request[4..6], &4321u16.to_be_bytes());
    assert_eq!(&request[6..8], &1234u16.to_be_bytes());
}

#[test]
fn parses_the_mapped_port_from_a_success_reply() {
    let reply = response(OP_MAP_UDP, 0, 51234);

    assert_eq!(parse_map_response(&reply, OP_MAP_UDP).unwrap(), 51234);
}

#[test]
fn rejects_a_truncated_reply() {
    let reply = response(OP_MAP_UDP, 0, 51234);

    let result = parse_map_response(&reply[..8], OP_MAP_UDP);

    assert!(matches!(result, Err(AppError::PortForward(message)) if message.contains("short")));
}

#[test]
fn rejects_a_reply_for_a_different_opcode() {
    // A TCP reply must never satisfy a UDP request, otherwise a stray
    // datagram could be read as this request's mapping.
    let reply = response(OP_MAP_TCP, 0, 51234);

    let result = parse_map_response(&reply, OP_MAP_UDP);

    assert!(
        matches!(result, Err(AppError::PortForward(message)) if message.contains("opcode"))
    );
}

#[test]
fn reports_the_gateway_refusal_reason() {
    // Result code 2 is what a server without port forwarding answers.
    let reply = response(OP_MAP_UDP, 2, 0);

    let result = parse_map_response(&reply, OP_MAP_UDP);

    assert!(
        matches!(result, Err(AppError::PortForward(message)) if message.contains("not authorized"))
    );
}

#[test]
fn rejects_a_success_reply_that_mapped_no_port() {
    let reply = response(OP_MAP_UDP, 0, 0);

    let result = parse_map_response(&reply, OP_MAP_UDP);

    assert!(
        matches!(result, Err(AppError::PortForward(message)) if message.contains("port 0"))
    );
}

#[test]
fn derives_the_gateway_from_a_tunnel_address() {
    assert_eq!(
        gateway_for_address("10.2.0.2/32"),
        Some(v4(10, 2, 0, 1))
    );
    // The prefix is optional and surrounding whitespace is tolerated.
    assert_eq!(
        gateway_for_address(" 10.2.0.2 "),
        Some(v4(10, 2, 0, 1))
    );
    assert_eq!(
        gateway_for_address("192.168.5.44/24"),
        Some(v4(192, 168, 5, 1))
    );
}

#[test]
fn returns_no_gateway_for_a_non_ipv4_address() {
    // IPv6-only tunnels and empty values have no derivable NAT-PMP gateway.
    assert_eq!(gateway_for_address("2a07:b944::2:2/128"), None);
    assert_eq!(gateway_for_address(""), None);
    assert_eq!(gateway_for_address("not-an-address"), None);
}


fn v4(a: u8, b: u8, c: u8, d: u8) -> IpAddr {
    IpAddr::V4(u32::from_be_bytes([a, b, c, d]))
}

#[test]
fn a_request_is_laid_out_byte_by_byte() {
    assert_eq!(
        build_map_request(OP_MAP_TCP, 0x1234, 0xabcd, 0x0102_0304),
        [0, 2, 0, 0, 0x12, 0x34, 0xab, 0xcd, 1, 2, 3, 4]
    );
}

#[test]
fn result_codes_are_described() {
    assert_eq!(describe_result_code(1), "unsupported protocol version");
    assert_eq!(describe_result_code(4), "out of resources");
    assert!(describe_result_code(77).contains("77"));
}

#[test]
fn one_port_is_mapped_for_both_protocols() {
    let sent = RefCell::new(Vec::new());
    let mut exchange = Recorder::new(|request: &[u8]| {
        sent.borrow_mut().push(request.to_vec());
        Ok(response(request[1], 0, 51234).to_vec())
    });
    assert_eq!(request_mapping(&mut exchange).unwrap(), 51234);
    let sent = sent.borrow();
    assert_eq!(sent.len(), 2);
    assert_eq!(sent[0], build_map_request(OP_MAP_UDP, 0, 0, LIFETIME).to_vec());
    assert_eq!(
        sent[1],
        build_map_request(OP_MAP_TCP, 51234, 51234, LIFETIME).to_vec()
    );
}

#[test]
fn a_gateway_that_is_silent_gives_no_port() {
    let mut silent = Recorder::new(|_: &[u8]| -> AppResult<Vec<u8>> {
        Err(exchange_error(ExchangeFault::Silent, v4(10, 2, 0, 1), "timed out"))
    });
    assert!(matches!(
        map_protocol(&mut silent, OP_MAP_UDP, 0),
        Err(AppError::PortForward(m)) if m == "no reply from 10.2.0.1; the server may not offer port forwarding (timed out)"
    ));
    assert!(request_mapping(&mut silent).is_err());
    assert!(matches!(
        exchange_error(ExchangeFault::Socket, v4(10, 2, 0, 1), "denied"),
        AppError::PortForward(m) if m == "could not open a socket: denied"
    ));
    assert!(matches!(
        exchange_error(ExchangeFault::Timeout, v4(10, 2, 0, 1), "denied"),
        AppError::PortForward(m) if m == "could not set a timeout: denied"
    ));
    assert!(matches!(
        exchange_error(ExchangeFault::Unreachable, v4(10, 2, 0, 1), "denied"),
        AppError::PortForward(m) if m == "could not reach the gateway 10.2.0.1: denied"
    ));
}

#[test]
fn the_lease_is_renewed_before_it_lapses() {
    assert!(RENEW_INTERVAL + READ_TIMEOUT_SECS < LIFETIME as u64);
    assert_eq!(NATPMP_PORT, 5351);
}

#[test]
fn addresses_are_read_and_written() {
    for text in ["0.0.0.0", "255.255.255.255", "10.2.0.1", "::", "::1", "2001:db8::1", "fe80::1:2:3"] {
        assert_eq!(IpAddr::parse(text).expect(text).text(), text);
    }
    for text in ["", "1.2.3", "1.2.3.4.5", "1.2.3.256", "01.2.3.4", "1::2::3", "12345::", "g::"] {
        assert!(IpAddr::parse(text).is_none(), "{text}");
    }
    assert_eq!(IpAddr::parse("::ffff:1.2.3.4").expect("mapped").text(), "::ffff:1.2.3.4");
}
