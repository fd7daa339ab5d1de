//! Asking the gateway of a tunnel for a forwarded port, by NAT-PMP (RFC 6886).
//!
//! A request has twelve bytes and a reply sixteen. The lease is short by design,
//! so it is renewed before it lapses. The port that a gateway maps has nothing to
//! do with the port of the tunnel's peer: it is given per session.

use vstd::prelude::*;
use vstd::string::*;

use crate::error::{AppError, AppResult};
use crate::ip::{lemma_concat_plain, lemma_v4_parts, parse_v4, v4_value, IpAddr};
use crate::record::{lemma_since_one, lemma_since_push, since, Recorder};
use crate::text::{cut, decimal, decimal_string, is_blank, is_space, law_trimming, lemma_decimal_value, lemma_first_at, lemma_first_at_is, split_once, trim, trimmed};

pub mod qbittorrent;
pub mod webui;

verus! {

/// The port on which a gateway answers.
pub const NATPMP_PORT: u16 = 5351;

/// The operation that maps a UDP port.
pub const OP_MAP_UDP: u8 = 1;

/// The operation that maps a TCP port.
pub const OP_MAP_TCP: u8 = 2;

/// What a reply adds to the operation that it answers.
pub const RESPONSE_OPCODE_OFFSET: u8 = 128;

/// The length of a reply.
pub const RESPONSE_LEN: usize = 16;

/// The lease that is asked for, in seconds.
pub const LIFETIME: u32 = 60;

/// How often the lease is renewed, in seconds.
pub const RENEW_INTERVAL: u64 = 45;

/// How long a reply is waited for, in seconds.
pub const READ_TIMEOUT_SECS: u64 = 3;

/// The lease is renewed before it lapses, with time to wait for the reply.
pub proof fn law_renewed_in_time()
    ensures
        RENEW_INTERVAL + READ_TIMEOUT_SECS < LIFETIME,
{
}

// ---------------------------------------------------------------------------
// The gateway
// ---------------------------------------------------------------------------

/// The host of an address with an optional prefix length.
pub open spec fn host_of(address: Seq<char>) -> Seq<char> {
    trimmed(
        match cut(address, '/') {
            Some((host, _)) => host,
            None => address,
        },
    )
}

/// The gateway of a tunnel: the first host of the network of its IPv4 address.
pub open spec fn gateway_of(address: Seq<char>) -> Option<u32> {
    match v4_value(host_of(address)) {
        Some(v) => Some((v - v % 256 + 1) as u32),
        None => None,
    }
}

/// The gateway of a tunnel with a local address. A tunnel is configured with an
/// address of its own only; the gateway answers at the `.1` of its network.
pub fn gateway_for_address(address: &str) -> (r: Option<IpAddr>)
    ensures
        r == match gateway_of(address@) {
            Some(v) => Some(IpAddr::V4(v)),
            None => None,
        },
{
    let host = match split_once(address, '/') {
        Some((host, _)) => host,
        None => address,
    };
    match parse_v4(trim(host)) {
        Some(v) => Some(IpAddr::V4((v - v % 256 + 1) as u32)),
        None => None,
    }
}

/// A dotted address reads as its octets, and has digits at both ends.
proof fn lemma_dotted(a: nat, b: nat, c: nat, d: nat)
    requires
        a <= 255,
        b <= 255,
        c <= 255,
        d <= 255,
    ensures
        ({
            let s = decimal(a) + seq!['.'] + decimal(b) + seq!['.'] + decimal(c) + seq!['.']
                + decimal(d);
            &&& v4_value(s) == Some(a * 0x1000000 + b * 0x10000 + c * 0x100 + d)
            &&& s.len() > 0 && !is_space(s[0]) && !is_space(s.last())
            &&& !s.contains('/')
        }),
{
    let s = decimal(a) + seq!['.'] + decimal(b) + seq!['.'] + decimal(c) + seq!['.'] + decimal(d);
    lemma_v4_parts(a, b, c, d);
    lemma_decimal_value(a, 255);
    lemma_decimal_value(b, 255);
    lemma_decimal_value(c, 255);
    lemma_decimal_value(d, 255);
    assert(s[0] == decimal(a)[0]);
    assert(s.last() == decimal(d)[decimal(d).len() - 1]);
    let dot = seq!['.'];
    assert(!dot.contains('/'));
    assert(!decimal(a).contains('/') && !decimal(b).contains('/'));
    assert(!decimal(c).contains('/') && !decimal(d).contains('/'));
    lemma_concat_plain(decimal(a), dot, '/');
    lemma_concat_plain(decimal(a) + dot, decimal(b), '/');
    lemma_concat_plain(decimal(a) + dot + decimal(b), dot, '/');
    lemma_concat_plain(decimal(a) + dot + decimal(b) + dot, decimal(c), '/');
    lemma_concat_plain(decimal(a) + dot + decimal(b) + dot + decimal(c), dot, '/');
    lemma_concat_plain(decimal(a) + dot + decimal(b) + dot + decimal(c) + dot, decimal(d), '/');
}

/// The first host of the network of an address, in terms of the octets.
proof fn lemma_first_host(a: nat, b: nat, c: nat, d: nat)
    requires
        a <= 255,
        b <= 255,
        c <= 255,
        d <= 255,
    ensures
        ({
            let v = a * 0x1000000 + b * 0x10000 + c * 0x100 + d;
            let first = (v - v % 256 + 1) as u32;
            IpAddr::V4(first).spec_text() == decimal(a) + seq!['.'] + decimal(b) + seq!['.']
                + decimal(c) + seq!['.'] + seq!['1']
        }),
{
    let v = a * 0x1000000 + b * 0x10000 + c * 0x100 + d;
    let n = a * 0x1000000 + b * 0x10000 + c * 0x100 + 1;
    assert(v - v % 256 + 1 == n);
    assert(n / 0x1000000 == a && n / 0x10000 % 256 == b && n / 0x100 % 256 == c && n % 256 == 1);
    assert(decimal(1) =~= seq!['1']);
}

/// The gateway of a tunnel with the address `a.b.c.d` is `a.b.c.1`, whatever `d`
/// is, whether or not a prefix length follows, and whatever it is.
pub proof fn law_gateway_shares_three_octets(
    a: nat,
    b: nat,
    c: nat,
    d: nat,
    before: Seq<char>,
    after: Seq<char>,
    prefix: Seq<char>,
)
    requires
        a <= 255,
        b <= 255,
        c <= 255,
        d <= 255,
        is_blank(before),
        is_blank(after),
        prefix.len() > 0 ==> prefix[0] == '/',
    ensures
        ({
            let network = decimal(a) + seq!['.'] + decimal(b) + seq!['.'] + decimal(c) + seq!['.'];
            let address = before + (network + decimal(d)) + after + prefix;
            gateway_of(address) matches Some(gateway) && IpAddr::V4(gateway).spec_text() == network
                + seq!['1']
        }),
{
    let network = decimal(a) + seq!['.'] + decimal(b) + seq!['.'] + decimal(c) + seq!['.'];
    let dotted = network + decimal(d);
    let padded = before + dotted + after;
    let address = padded + prefix;
    lemma_dotted(a, b, c, d);
    law_trimming(before, dotted, after);
    assert(!before.contains('/') && !after.contains('/'));
    lemma_concat_plain(before, dotted, '/');
    lemma_concat_plain(before + dotted, after, '/');
    assert forall|k: int| 0 <= k < padded.len() implies padded[k] != '/' by {
        assert(padded.contains(padded[k]));
    }
    if prefix.len() > 0 {
        assert forall|k: int| 0 <= k < padded.len() implies address[k] != '/' by {
            assert(address[k] == padded[k]);
        }
        lemma_first_at_is(address, '/', padded.len() as int);
        assert(address.take(padded.len() as int) =~= padded);
    } else {
        assert(address =~= padded);
        lemma_first_at(address, '/');
    }
    assert(host_of(address) == dotted);
    lemma_first_host(a, b, c, d);
}

// ---------------------------------------------------------------------------
// The wire format
// ---------------------------------------------------------------------------

/// Two bytes, the more significant one first.
pub open spec fn be16(n: u16) -> Seq<u8> {
    seq![(n / 256) as u8, (n % 256) as u8]
}

/// Four bytes, the most significant one first.
pub open spec fn be32(n: u32) -> Seq<u8> {
    seq![
        (n / 16777216) as u8,
        (n / 65536 % 256) as u8,
        (n / 256 % 256) as u8,
        (n % 256) as u8,
    ]
}

/// The number that two bytes at `i` hold.
pub open spec fn u16_at(bytes: Seq<u8>, i: int) -> int {
    bytes[i] * 256 + bytes[i + 1]
}

/// A request: version zero, the operation, two reserved bytes, the internal and
/// the external port, and the lease.
pub open spec fn request_bytes(
    opcode: u8,
    internal_port: u16,
    external_port: u16,
    lifetime: u32,
) -> Seq<u8> {
    seq![0u8, opcode, 0u8, 0u8] + be16(internal_port) + be16(external_port) + be32(lifetime)
}

/// Encode a request. The port zero asks for any port.
pub fn build_map_request(opcode: u8, internal_port: u16, external_port: u16, lifetime: u32) -> (r:
    [u8; 12])
    ensures
        r@ == request_bytes(opcode, internal_port, external_port, lifetime),
{
    let r = [
        0u8,
        opcode,
        0u8,
        0u8,
        (internal_port / 256) as u8,
        (internal_port % 256) as u8,
        (external_port / 256) as u8,
        (external_port % 256) as u8,
        (lifetime / 16777216) as u8,
        (lifetime / 65536 % 256) as u8,
        (lifetime / 256 % 256) as u8,
        (lifetime % 256) as u8,
    ];
    assert(r@ =~= request_bytes(opcode, internal_port, external_port, lifetime));
    r
}

/// What a result code means.
pub open spec fn result_text(code: int) -> Seq<char> {
    if code == 1 {
        "unsupported protocol version"@
    } else if code == 2 {
        "not authorized (port forwarding may be off for this server)"@
    } else if code == 3 {
        "network failure"@
    } else if code == 4 {
        "out of resources"@
    } else if code == 5 {
        "unsupported opcode"@
    } else {
        "result code "@ + decimal(code as nat)
    }
}

/// What a result code means.
pub fn describe_result_code(code: u16) -> (r: String)
    ensures
        r@ == result_text(code as int),
{
    match code {
        1 => "unsupported protocol version".to_owned(),
        2 => "not authorized (port forwarding may be off for this server)".to_owned(),
        3 => "network failure".to_owned(),
        4 => "out of resources".to_owned(),
        5 => "unsupported opcode".to_owned(),
        other => {
            let n = decimal_string(other as u128);
            "result code ".to_owned().concat(n.as_str())
        },
    }
}

/// What a reply to an operation comes to: the mapped port, or what is wrong with
/// the reply. A reply that is too short, that answers another operation, that
/// carries a refusal or that maps no port is no success.
pub open spec fn reply_value(bytes: Seq<u8>, opcode: u8) -> Result<int, Seq<char>> {
    if bytes.len() < 16 {
        Err("short NAT-PMP reply ("@ + decimal(bytes.len()) + " bytes, expected 16)"@)
    } else if bytes[1] != opcode + 128 {
        Err(
            "unexpected NAT-PMP opcode "@ + decimal(bytes[1] as nat) + " (expected "@ + decimal(
                (opcode + 128) as nat,
            ) + ")"@,
        )
    } else if u16_at(bytes, 2) != 0 {
        Err("gateway refused the mapping: "@ + result_text(u16_at(bytes, 2)))
    } else if u16_at(bytes, 10) == 0 {
        Err("gateway mapped port 0, so no port is forwarded"@)
    } else {
        Ok(u16_at(bytes, 10))
    }
}

/// Whether a result says what a reply comes to.
pub open spec fn reads(r: AppResult<u16>, value: Result<int, Seq<char>>) -> bool {
    match r {
        Ok(port) => value == Ok::<int, Seq<char>>(port as int),
        Err(e) => e matches AppError::PortForward(m) && value == Err::<int, Seq<char>>(m@),
    }
}

/// Decode the reply to an operation.
pub fn parse_map_response(bytes: &[u8], request_opcode: u8) -> (r: AppResult<u16>)
    requires
        request_opcode < 128,
    ensures
        reads(r, reply_value(bytes@, request_opcode)),
{
    if bytes.len() < RESPONSE_LEN {
        let n = decimal_string(bytes.len() as u128);
        return Err(
            AppError::PortForward(
                "short NAT-PMP reply (".to_owned().concat(n.as_str()).concat(" bytes, expected 16)"),
            ),
        );
    }
    let expected: u8 = request_opcode + RESPONSE_OPCODE_OFFSET;
    if bytes[1] != expected {
        let got = decimal_string(bytes[1] as u128);
        let want = decimal_string(expected as u128);
        return Err(
            AppError::PortForward(
                "unexpected NAT-PMP opcode ".to_owned().concat(got.as_str()).concat(
                    " (expected ",
                ).concat(want.as_str()).concat(")"),
            ),
        );
    }
    let result_code: u16 = bytes[2] as u16 * 256 + bytes[3] as u16;
    if result_code != 0 {
        let why = describe_result_code(result_code);
        return Err(
            AppError::PortForward("gateway refused the mapping: ".to_owned().concat(why.as_str())),
        );
    }
    let external_port: u16 = bytes[10] as u16 * 256 + bytes[11] as u16;
    if external_port == 0 {
        return Err(
            AppError::PortForward("gateway mapped port 0, so no port is forwarded".to_owned()),
        );
    }
    Ok(external_port)
}

/// The ports and the lease of a request read back from its bytes.
pub proof fn law_request_reads_back(
    opcode: u8,
    internal_port: u16,
    external_port: u16,
    lifetime: u32,
)
    ensures
        ({
            let bytes = request_bytes(opcode, internal_port, external_port, lifetime);
            &&& bytes.len() == 12
            &&& bytes[0] == 0 && bytes[1] == opcode && bytes[2] == 0 && bytes[3] == 0
            &&& u16_at(bytes, 4) == internal_port
            &&& u16_at(bytes, 6) == external_port
            &&& u16_at(bytes, 8) * 65536 + u16_at(bytes, 10) == lifetime
        }),
{
    assert(lifetime / 16777216 == lifetime / 65536 / 256);
}

/// A reply that reports a port is read as that port, and as a success only where
/// it answers the operation that was asked for.
pub proof fn law_reply_reads_back(bytes: Seq<u8>, answered: u8, asked: u8, port: u16)
    requires
        bytes.len() >= 16,
        answered < 128,
        asked < 128,
        bytes[1] == answered + 128,
        bytes.subrange(2, 4) == be16(0),
        bytes.subrange(10, 12) == be16(port),
        port != 0,
    ensures
        asked == answered ==> reply_value(bytes, asked) == Ok::<int, Seq<char>>(port as int),
        asked != answered ==> reply_value(bytes, asked) is Err,
{
    assert(bytes[2] == bytes.subrange(2, 4)[0]);
    assert(bytes[3] == bytes.subrange(2, 4)[1]);
    assert(bytes[10] == bytes.subrange(10, 12)[0]);
    assert(bytes[11] == bytes.subrange(10, 12)[1]);
}

// ---------------------------------------------------------------------------
// Asking for a port
// ---------------------------------------------------------------------------

/// What a reply comes to, where there is one.
pub open spec fn mapped(reply: AppResult<Vec<u8>>, opcode: u8, r: AppResult<u16>) -> bool {
    match reply {
        Ok(bytes) => reads(r, reply_value(bytes@, opcode)),
        Err(e) => r == Err::<u16, AppError>(e),
    }
}

/// Ask for one protocol, where `exchange` sends a request to the gateway and
/// waits for the reply.
pub fn map_protocol<E: Fn(&[u8]) -> AppResult<Vec<u8>>>(
    exchange: &mut Recorder<[u8], AppResult<Vec<u8>>, E>,
    opcode: u8,
    requested_port: u16,
) -> (r: AppResult<u16>)
    requires
        opcode < 128,
    ensures
        final(exchange).follows(*old(exchange)),
        exists|reply: AppResult<Vec<u8>>| #[trigger]
            mapped(reply, opcode, r) && final(exchange).calls() == old(exchange).calls().push(
                (request_bytes(opcode, requested_port, requested_port, LIFETIME), reply),
            ),
{
    let request = build_map_request(opcode, requested_port, requested_port, LIFETIME);
    let sent: &[u8] = &request;
    let reply = exchange.ask(sent);
    let ghost given = reply;
    let r = match reply {
        Ok(bytes) => parse_map_response(bytes.as_slice(), opcode),
        Err(e) => Err(e),
    };
    assert(mapped(given, opcode, r));
    r
}

/// Whether the exchanges ask for a port and come to `r`: UDP is asked for first,
/// and where that gives a port, that port is asked for TCP, whatever comes of it.
pub open spec fn mapping_run(t: Seq<(Seq<u8>, AppResult<Vec<u8>>)>, r: AppResult<u16>) -> bool {
    t.len() > 0 && t[0].0 == request_bytes(1, 0, 0, 60) && mapped(t[0].1, 1, r) && match r {
        Err(_) => t.len() == 1,
        Ok(port) => t.len() == 2 && t[1].0 == request_bytes(2, port, port, 60),
    }
}

/// Whether bytes are a reply that maps a UDP port: long enough, of the operation,
/// without a refusal, and with a port.
pub open spec fn grants(bytes: Seq<u8>, port: int) -> bool {
    &&& bytes.len() >= 16
    &&& bytes[1] == 129
    &&& bytes[2] == 0 && bytes[3] == 0
    &&& bytes[10] * 256 + bytes[11] == port
    &&& port != 0
}

/// A port is asked for by version zero of the protocol: any UDP port first, for a
/// minute. It is had exactly where the gateway grants one, and it is the one that
/// the gateway grants; the same port is then asked for TCP, and nothing else is
/// asked.
pub proof fn law_port_is_the_granted_one(t: Seq<(Seq<u8>, AppResult<Vec<u8>>)>, r: AppResult<u16>)
    requires
        mapping_run(t, r),
    ensures
        t.len() > 0,
        t[0].0 == seq![0u8, 1, 0, 0, 0, 0, 0, 0, 0, 0, 0, 60],
        match r {
            Ok(port) => t.len() == 2 && (t[0].1 matches Ok(bytes) && grants(bytes@, port as int))
                && t[1].0 == seq![
                0u8,
                2,
                0,
                0,
                (port / 256) as u8,
                (port % 256) as u8,
                (port / 256) as u8,
                (port % 256) as u8,
                0,
                0,
                0,
                60,
            ],
            Err(_) => t.len() == 1 && (t[0].1 matches Ok(bytes) ==> forall|port: int|
                !#[trigger] grants(bytes@, port)),
        },
{
    assert(request_bytes(1, 0, 0, 60) =~= seq![0u8, 1, 0, 0, 0, 0, 0, 0, 0, 0, 0, 60]);
    if let Ok(port) = r {
        assert(request_bytes(2, port, port, 60) =~= seq![
            0u8,
            2,
            0,
            0,
            (port / 256) as u8,
            (port % 256) as u8,
            (port / 256) as u8,
            (port % 256) as u8,
            0,
            0,
            0,
            60,
        ]);
    }
}

/// Ask for a forwarded port, or renew it. The UDP mapping decides over the port;
/// the same port is then asked for TCP, and a gateway that forwards UDP only
/// still gives a usable one.
pub fn request_mapping<E: Fn(&[u8]) -> AppResult<Vec<u8>>>(
    exchange: &mut Recorder<[u8], AppResult<Vec<u8>>, E>,
) -> (r: AppResult<u16>)
    ensures
        final(exchange).follows(*old(exchange)),
        mapping_run(since(old(exchange).calls(), final(exchange).calls()), r),
{
    let ghost start = exchange.calls();
    let first = map_protocol(exchange, OP_MAP_UDP, 0);
    let ghost middle = exchange.calls();
    proof {
        lemma_since_one(start, middle.last());
        assert(middle =~= start.push(middle.last()));
    }
    let port = match first {
        Ok(port) => port,
        Err(e) => {
            return Err(e);
        },
    };
    let _ = map_protocol(exchange, OP_MAP_TCP, port);
    proof {
        let end = exchange.calls();
        lemma_since_push(start, middle, end.last());
        assert(end =~= middle.push(end.last()));
    }
    Ok(port)
}

/// What is said when no request can be sent or no reply comes.
#[derive(Debug, Clone, Copy, PartialEq, Eq, Structural)]
pub enum ExchangeFault {
    Socket,
    Timeout,
    Unreachable,
    Silent,
}

/// What is said when the exchange with a gateway fails, with what the system said.
pub fn exchange_error(fault: ExchangeFault, gateway: IpAddr, detail: &str) -> (r: AppError)
    ensures
        r matches AppError::PortForward(m) && m@ == match fault {
            ExchangeFault::Socket => "could not open a socket: "@ + detail@,
            ExchangeFault::Timeout => "could not set a timeout: "@ + detail@,
            ExchangeFault::Unreachable => "could not reach the gateway "@ + gateway.spec_text()
                + ": "@ + detail@,
            ExchangeFault::Silent => "no reply from "@ + gateway.spec_text()
                + "; the server may not offer port forwarding ("@ + detail@ + ")"@,
        },
{
    let name = gateway.text();
    AppError::PortForward(
        match fault {
            ExchangeFault::Socket => "could not open a socket: ".to_owned().concat(detail),
            ExchangeFault::Timeout => "could not set a timeout: ".to_owned().concat(detail),
            ExchangeFault::Unreachable => "could not reach the gateway ".to_owned().concat(
                name.as_str(),
            ).concat(": ").concat(detail),
            ExchangeFault::Silent => "no reply from ".to_owned().concat(name.as_str()).concat(
                "; the server may not offer port forwarding (",
            ).concat(detail).concat(")"),
        },
    )
}

/// The result codes of the protocol have a meaning each; others are told by number.
pub proof fn law_result_codes(code: u16)
    ensures
        result_text(1) == "unsupported protocol version"@,
        result_text(2) == "not authorized (port forwarding may be off for this server)"@,
        result_text(3) == "network failure"@,
        result_text(4) == "out of resources"@,
        result_text(5) == "unsupported opcode"@,
        code == 0 || code > 5 ==> result_text(code as int) == "result code "@ + decimal(code as nat),
{
}

} // verus!
