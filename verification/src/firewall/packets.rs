//! What the rules of the lockdown do to packets that leave the machine.
//!
//! A rule is a command line that adds it: it names a family, a table, a chain and
//! a priority, and then options, each with its value, which a packet has to meet.
//! The rules of the packet's family are tried by priority, and those of one
//! priority in the order in which they were added; the first that a packet meets
//! decides over it.

use vstd::prelude::*;
use vstd::string::*;

use crate::firewall::protection::{is_rule_of, law_every_rule_is_marked};
use crate::firewall::rules::{accept_through, accept_to, added, addresses_of, drop_all, family_rules, handshake, in_family, interface_rules, local_networks_of, local_rules, lockdown_rules, marked, marker, peer_rules, peers_rules, resolution, resolution_rules, resolved_rules, tunnels_rules, Batch, HostView};
use crate::firewall::teardown::guard;
use crate::ip::{address_of, best_run, groups_of, groups_text, law_text_reads_back, lemma_slash_is_no_address, v6_text, zero_run, IpAddr};
use crate::nm::endpoints::{EndpointView, TunnelView};
use crate::nm::split_tunnel::{cidr_text, law_block_reads_back, range_of, span};
use crate::text::{decimal, digits_value, hexadecimal, lemma_decimal_value, signed};
use vstd::arithmetic::power2::pow2;

verus! {

/// A packet that leaves the machine.
pub struct Packet {
    /// The name of its protocol.
    pub protocol: Seq<char>,
    /// Where it goes to.
    pub destination: IpAddr,
    /// The port that it goes to, where its protocol has ports.
    pub port: nat,
    /// The interface that it leaves through.
    pub interface: Seq<char>,
}

// ---------------------------------------------------------------------------
// How a rule is read
// ---------------------------------------------------------------------------

/// The name of the family of an address.
pub open spec fn family_of(ip: IpAddr) -> Seq<char> {
    match ip {
        IpAddr::V4(_) => "ipv4"@,
        IpAddr::V6(_) => "ipv6"@,
    }
}

/// Whether a destination of a rule, which is an address or a block, holds an
/// address.
#[verifier::opaque]
pub open spec fn reaches(destination: Seq<char>, ip: IpAddr) -> bool {
    if destination.contains('/') {
        range_of(destination, ip is V6) matches Some((first, last)) && first <= ip.spec_value()
            <= last
    } else {
        address_of(destination) == Some(ip)
    }
}

/// Whether a packet meets an option of a rule. The comment and the jump are met by
/// every packet.
pub open spec fn meets(option: Seq<char>, value: Seq<char>, p: Packet) -> bool {
    if option == "-p"@ {
        value == p.protocol
    } else if option == "-d"@ {
        reaches(value, p.destination)
    } else if option == "--dport"@ {
        value == decimal(p.port)
    } else if option == "-o"@ {
        value == p.interface
    } else {
        option == "-m"@ && value == "comment"@ || option == "--comment"@ || option == "-j"@
    }
}

/// Whether a packet meets all options.
pub open spec fn meets_all(options: Seq<Seq<char>>, p: Packet) -> bool
    decreases options.len(),
{
    if options.len() == 0 {
        true
    } else {
        options.len() >= 2 && meets(options[0], options[1], p) && meets_all(options.skip(2), p)
    }
}

/// Whether a rule is for a packet: it is one of the output chain of the packet's
/// family, and the packet meets its options.
#[verifier::opaque]
pub open spec fn covers(rule: Batch, p: Packet) -> bool {
    &&& rule.len() >= 9
    &&& rule[0] == "--permanent"@
    &&& rule[1] == "--direct"@
    &&& rule[2] == "--add-rule"@
    &&& rule[3] == family_of(p.destination)
    &&& rule[4] == "mangle"@
    &&& rule[5] == "OUTPUT"@
    &&& rule[rule.len() - 2] == "-j"@
    &&& meets_all(rule.skip(7), p)
}

/// The number that a text with an optional minus sign denotes.
pub open spec fn signed_value(text: Seq<char>) -> int {
    if text.len() > 0 && text[0] == '-' {
        match digits_value(text.skip(1), 32768) {
            Ok(n) => -n,
            Err(_) => 0,
        }
    } else {
        match digits_value(text, 32767) {
            Ok(n) => n as int,
            Err(_) => 0,
        }
    }
}

/// The priority of a rule; the lower come first.
#[verifier::opaque]
pub open spec fn priority_of(rule: Batch) -> int {
    signed_value(rule[6])
}

/// Whether the rule at `i` decides over a packet: no rule that is for the packet
/// comes before it.
pub open spec fn decides(rules: Seq<Batch>, p: Packet, i: int) -> bool {
    &&& 0 <= i < rules.len()
    &&& covers(rules[i], p)
    &&& forall|j: int|
        0 <= j < rules.len() && j != i && covers(#[trigger] rules[j], p) ==> priority_of(rules[i])
            < priority_of(rules[j]) || priority_of(rules[i]) == priority_of(rules[j]) && i < j
}

/// Whether rules decide that a packet meets an end.
pub open spec fn ends_in(rules: Seq<Batch>, p: Packet, verdict: Seq<char>) -> bool {
    exists|i: int| #[trigger] decides(rules, p, i) && rules[i].last() == verdict
}

/// Whether rules let a packet leave.
pub open spec fn accepts(rules: Seq<Batch>, p: Packet) -> bool {
    ends_in(rules, p, "ACCEPT"@)
}

/// Whether rules keep a packet from leaving.
pub open spec fn drops(rules: Seq<Batch>, p: Packet) -> bool {
    ends_in(rules, p, "DROP"@)
}

/// Some rule decides over a packet that a rule is for, and none of a higher
/// priority number.
proof fn lemma_some_decides(rules: Seq<Batch>, p: Packet, at: int) -> (i: int)
    requires
        0 <= at < rules.len(),
        covers(rules[at], p),
    ensures
        decides(rules, p, i),
        priority_of(rules[i]) <= priority_of(rules[at]),
    decreases rules.len(),
{
    let less = rules.drop_last();
    let n = less.len() as int;
    assert(forall|j: int| 0 <= j < n ==> less[j] == rules[j]);
    if at < n {
        let k = lemma_some_decides(less, p, at);
        assert(less[k] == rules[k] && less[at] == rules[at]);
        if covers(rules[n], p) && priority_of(rules[n]) < priority_of(rules[k]) {
            assert forall|j: int|
                0 <= j < rules.len() && j != n && covers(#[trigger] rules[j], p) implies priority_of(
                rules[n],
            ) < priority_of(rules[j]) by {
                assert(less[j] == rules[j]);
            }
            n
        } else {
            assert forall|j: int|
                0 <= j < rules.len() && j != k && covers(#[trigger] rules[j], p) implies priority_of(
                rules[k],
            ) < priority_of(rules[j]) || priority_of(rules[k]) == priority_of(rules[j]) && k
                < j by {
                if j < n {
                    assert(less[j] == rules[j]);
                }
            }
            k
        }
    } else if exists|j: int| 0 <= j < n && covers(#[trigger] less[j], p) {
        let j = choose|j: int| 0 <= j < n && covers(#[trigger] less[j], p);
        let k = lemma_some_decides(less, p, j);
        assert(less[k] == rules[k]);
        if priority_of(rules[n]) < priority_of(rules[k]) {
            assert forall|j: int|
                0 <= j < rules.len() && j != n && covers(#[trigger] rules[j], p) implies priority_of(
                rules[n],
            ) < priority_of(rules[j]) by {
                assert(less[j] == rules[j]);
            }
            n
        } else {
            assert forall|j: int|
                0 <= j < rules.len() && j != k && covers(#[trigger] rules[j], p) implies priority_of(
                rules[k],
            ) < priority_of(rules[j]) || priority_of(rules[k]) == priority_of(rules[j]) && k
                < j by {
                if j < n {
                    assert(less[j] == rules[j]);
                }
            }
            k
        }
    } else {
        assert forall|j: int|
            0 <= j < rules.len() && j != n && covers(#[trigger] rules[j], p) implies false by {
            assert(less[j] == rules[j]);
        }
        n
    }
}

/// At most one rule decides over a packet, so that no packet is both let out and
/// held back.
pub proof fn law_one_verdict(rules: Seq<Batch>, p: Packet)
    ensures
        !(accepts(rules, p) && drops(rules, p)),
{
    if accepts(rules, p) && drops(rules, p) {
        let i = choose|i: int| #[trigger] decides(rules, p, i) && rules[i].last() == "ACCEPT"@;
        let j = choose|j: int| #[trigger] decides(rules, p, j) && rules[j].last() == "DROP"@;
        assert(i == j);
        reveal_strlit("ACCEPT");
        reveal_strlit("DROP");
        assert("ACCEPT"@.len() == 6 && "DROP"@.len() == 4);
    }
}

// ---------------------------------------------------------------------------
// The rules, read
// ---------------------------------------------------------------------------

/// The options differ.
proof fn lemma_options()
    ensures
        "-p"@ != "-d"@,
        "-p"@ != "-o"@,
        "-p"@ != "-m"@,
        "-p"@ != "-j"@,
        "-d"@ != "-o"@,
        "-d"@ != "-m"@,
        "-d"@ != "-j"@,
        "-o"@ != "-m"@,
        "-o"@ != "-j"@,
        "-m"@ != "-j"@,
        "-p"@.len() == 2,
        "-d"@.len() == 2,
        "-o"@.len() == 2,
        "-m"@.len() == 2,
        "-j"@.len() == 2,
        "--dport"@.len() == 7,
        "--comment"@.len() == 9,
        "ipv4"@ != "ipv6"@,
        "ACCEPT"@ != "DROP"@,
        "udp"@ != "tcp"@,
{
    reveal_strlit("-p");
    reveal_strlit("-d");
    reveal_strlit("-o");
    reveal_strlit("-m");
    reveal_strlit("-j");
    reveal_strlit("--dport");
    reveal_strlit("--comment");
    reveal_strlit("ipv4");
    reveal_strlit("ipv6");
    reveal_strlit("ACCEPT");
    reveal_strlit("DROP");
    reveal_strlit("udp");
    reveal_strlit("tcp");
    assert("-p"@[1] == 'p' && "-d"@[1] == 'd' && "-o"@[1] == 'o' && "-m"@[1] == 'm' && "-j"@[1]
        == 'j');
    assert("ipv4"@[3] != "ipv6"@[3]);
    assert("ACCEPT"@.len() != "DROP"@.len());
    assert("udp"@[0] != "tcp"@[0]);
}

/// What a rule of the lockdown is for: the options before its jump decide.
proof fn lemma_covers(family: Seq<char>, priority: int, rule: Batch, p: Packet)
    requires
        rule.len() >= 2,
        rule[rule.len() - 2] == "-j"@,
        -32768 <= priority <= 32767,
    ensures
        ({
            let batch = added(family, priority, rule);
            &&& covers(batch, p) <==> family == family_of(p.destination) && meets_all(
                marked(rule),
                p,
            )
            &&& priority_of(batch) == priority
            &&& batch.last() == rule.last()
            &&& batch.len() >= 9
        }),
{
    reveal(covers);
    reveal(priority_of);
    let batch = added(family, priority, rule);
    assert(batch.skip(7) =~= marked(rule));
    assert(batch[6] == signed(priority));
    if priority < 0 {
        let size = (-priority) as nat;
        reveal_strlit("-");
        lemma_decimal_value(size, 32768);
        assert(signed(priority)[0] == '-');
        assert(signed(priority).skip(1) =~= decimal(size));
    } else {
        lemma_decimal_value(priority as nat, 32767);
        assert('0' <= decimal(priority as nat)[0]);
    }
    assert(batch[3] == family);
}

/// The marker is met by every packet.
proof fn lemma_marker(jump: Seq<char>, p: Packet)
    ensures
        meets_all(marker() + seq!["-j"@, jump], p),
{
    lemma_options();
    let m = marker() + seq!["-j"@, jump];
    reveal_with_fuel(meets_all, 4);
    assert(m.skip(2) =~= seq!["--comment"@, "neutron-lockdown"@, "-j"@, jump]);
    assert(m.skip(2).skip(2) =~= seq!["-j"@, jump]);
    assert(m.skip(2).skip(2).skip(2).len() == 0);
}

/// The rule for an interface is for what leaves through it.
proof fn lemma_through(family: Seq<char>, interface: Seq<char>, p: Packet)
    ensures
        ({
            let batch = added(family, 0, accept_through(interface));
            &&& covers(batch, p) <==> family == family_of(p.destination) && interface == p.interface
            &&& priority_of(batch) == 0
            &&& batch.last() == "ACCEPT"@
        }),
{
    lemma_options();
    let rule = accept_through(interface);
    lemma_covers(family, 0, rule, p);
    lemma_marker("ACCEPT"@, p);
    assert(marked(rule).skip(2) =~= marker() + seq!["-j"@, "ACCEPT"@]);
    assert(marked(rule)[0] == "-o"@ && marked(rule)[1] == interface);
}

/// The rule for a destination is for what goes there.
proof fn lemma_to(family: Seq<char>, network: Seq<char>, p: Packet)
    ensures
        ({
            let batch = added(family, 1, accept_to(network));
            &&& covers(batch, p) <==> family == family_of(p.destination) && reaches(
                network,
                p.destination,
            )
            &&& priority_of(batch) == 1
            &&& batch.last() == "ACCEPT"@
        }),
{
    lemma_options();
    let rule = accept_to(network);
    lemma_covers(family, 1, rule, p);
    lemma_marker("ACCEPT"@, p);
    assert(marked(rule).skip(2) =~= marker() + seq!["-j"@, "ACCEPT"@]);
    assert(marked(rule)[0] == "-d"@ && marked(rule)[1] == network);
}

/// The rule for name resolution is for what goes to its port.
proof fn lemma_resolution(family: Seq<char>, protocol: Seq<char>, verdict: Seq<char>, p: Packet)
    ensures
        ({
            let batch = added(family, 1, resolution(protocol, verdict));
            &&& covers(batch, p) <==> family == family_of(p.destination) && protocol == p.protocol
                && p.port == 53
            &&& priority_of(batch) == 1
            &&& batch.last() == verdict
        }),
{
    lemma_options();
    let rule = resolution(protocol, verdict);
    lemma_covers(family, 1, rule, p);
    lemma_marker(verdict, p);
    let m = marked(rule);
    assert(m[0] == "-p"@ && m[1] == protocol && m[2] == "--dport"@ && m[3] == "53"@);
    assert(m.skip(2).skip(2) =~= marker() + seq!["-j"@, verdict]);
    reveal_with_fuel(meets_all, 3);
    reveal_strlit("53");
    reveal_with_fuel(decimal, 3);
    assert(decimal(53) =~= "53"@);
    lemma_decimal_value(53, 53 + p.port);
    lemma_decimal_value(p.port, 53 + p.port);
}

/// The rule for a handshake is for UDP to the address and the port.
proof fn lemma_handshake(family: Seq<char>, address: Seq<char>, port: nat, p: Packet)
    ensures
        ({
            let batch = added(family, 1, handshake(address, decimal(port)));
            &&& covers(batch, p) <==> family == family_of(p.destination) && p.protocol == "udp"@
                && reaches(address, p.destination) && p.port == port
            &&& priority_of(batch) == 1
            &&& batch.last() == "ACCEPT"@
        }),
{
    lemma_options();
    let rule = handshake(address, decimal(port));
    lemma_covers(family, 1, rule, p);
    lemma_marker("ACCEPT"@, p);
    let m = marked(rule);
    assert(m[0] == "-p"@ && m[1] == "udp"@ && m[2] == "-d"@ && m[3] == address);
    assert(m[4] == "--dport"@ && m[5] == decimal(port));
    assert(m.skip(2).skip(2).skip(2) =~= marker() + seq!["-j"@, "ACCEPT"@]);
    assert(m.skip(2).skip(2)[0] == m[4] && m.skip(2).skip(2)[1] == m[5]);
    assert(m.skip(2)[0] == m[2] && m.skip(2)[1] == m[3]);
    reveal_with_fuel(meets_all, 4);
    lemma_decimal_value(port, port + p.port);
    lemma_decimal_value(p.port, port + p.port);
}

/// The rule that comes last is for every packet.
proof fn lemma_last_rule(family: Seq<char>, p: Packet)
    ensures
        ({
            let batch = added(family, 10, drop_all());
            &&& covers(batch, p) <==> family == family_of(p.destination)
            &&& priority_of(batch) == 10
            &&& batch.last() == "DROP"@
        }),
{
    lemma_options();
    let rule = drop_all();
    lemma_covers(family, 10, rule, p);
    lemma_marker("DROP"@, p);
    assert(marked(rule) =~= marker() + seq!["-j"@, "DROP"@]);
}

// ---------------------------------------------------------------------------
// Local networks
// ---------------------------------------------------------------------------

/// Whether an address is one that is not routed on the internet: a private or a
/// link-local one, multicast, or the limited broadcast.
pub open spec fn is_local(ip: IpAddr) -> bool {
    match ip {
        IpAddr::V4(n) => {
            let (a, b) = (n / 0x1000000, n / 0x10000 % 256);
            ||| a == 10
            ||| a == 172 && 16 <= b <= 31
            ||| a == 192 && b == 168
            ||| a == 169 && b == 254
            ||| 224 <= a <= 239
            ||| n == 0xffff_ffff
        },
        IpAddr::V6(n) => {
            let first = n / 0x1_0000_0000_0000_0000_0000_0000_0000;
            ||| 0xfe80 <= first <= 0xfebf
            ||| 0xfc00 <= first <= 0xfdff
            ||| 0xff00 <= first
        },
    }
}

/// The sizes of the local networks.
proof fn lemma_sizes()
    ensures
        span(32, 8) == 0x1000000,
        span(32, 12) == 0x100000,
        span(32, 16) == 0x10000,
        span(32, 4) == 0x10000000,
        span(32, 32) == 1,
        span(128, 10) == 0x40_0000_0000_0000_0000_0000_0000_0000,
        span(128, 7) == 0x200_0000_0000_0000_0000_0000_0000_0000,
        span(128, 8) == 0x100_0000_0000_0000_0000_0000_0000_0000,
{
    vstd::arithmetic::power2::lemma2_to64();
    vstd::arithmetic::power2::lemma2_to64_rest();
    vstd::arithmetic::power2::lemma_pow2_adds(64, 54);
    vstd::arithmetic::power2::lemma_pow2_adds(64, 57);
    vstd::arithmetic::power2::lemma_pow2_adds(64, 56);
    assert(pow2(54) == 0x40_0000_0000_0000);
    assert(pow2(56) == 0x100_0000_0000_0000);
    assert(pow2(57) == 0x200_0000_0000_0000);
    assert(pow2(64) == 0x1_0000_0000_0000_0000);
}

/// A block in normal form holds the addresses from its first one on.
proof fn lemma_block_reaches(text: Seq<char>, first: IpAddr, prefix: nat, ip: IpAddr)
    requires
        prefix <= first.spec_bits(),
        first.spec_value() % span(first.spec_bits(), prefix as int) == 0,
        first.spec_value() + span(first.spec_bits(), prefix as int) - 1 <= u128::MAX,
        span(first.spec_bits(), prefix as int) > 0,
        text == cidr_text(first, prefix),
    ensures
        reaches(text, ip) <==> (ip is V6) == (first is V6) && first.spec_value() <= ip.spec_value()
            < first.spec_value() + span(first.spec_bits(), prefix as int),
{
    reveal(reaches);
    law_block_reads_back(first, prefix);
    reveal_strlit("/");
    assert(text[first.spec_text().len() as int] == '/');
    assert(text.contains('/'));
}

/// The ranges of the local IPv4 networks, in terms of the leading octets.
proof fn lemma_octets_of(n: u32)
    ensures
        0x0a00_0000 <= n < 0x0a00_0000 + 0x1000000 <==> n / 0x1000000 == 10,
        0xac10_0000 <= n < 0xac10_0000 + 0x100000 <==> n / 0x1000000 == 172 && 16 <= n / 0x10000
            % 256 <= 31,
        0xc0a8_0000 <= n < 0xc0a8_0000 + 0x10000 <==> n / 0x1000000 == 192 && n / 0x10000 % 256
            == 168,
        0xa9fe_0000 <= n < 0xa9fe_0000 + 0x10000 <==> n / 0x1000000 == 169 && n / 0x10000 % 256
            == 254,
        0xe000_0000 <= n < 0xe000_0000 + 0x10000000 <==> 224 <= n / 0x1000000 <= 239,
{
}

/// What each of the IPv4 networks that stay reachable holds.
proof fn lemma_nets_v4(ip: IpAddr)
    ensures
        reaches("10.0.0.0/8"@, ip) <==> ip is V4 && 0x0a00_0000 <= ip.spec_value() < 0x0a00_0000
            + 0x1000000,
        reaches("172.16.0.0/12"@, ip) <==> ip is V4 && 0xac10_0000 <= ip.spec_value() < 0xac10_0000
            + 0x100000,
        reaches("192.168.0.0/16"@, ip) <==> ip is V4 && 0xc0a8_0000 <= ip.spec_value() < 0xc0a8_0000
            + 0x10000,
        reaches("169.254.0.0/16"@, ip) <==> ip is V4 && 0xa9fe_0000 <= ip.spec_value() < 0xa9fe_0000
            + 0x10000,
        reaches("224.0.0.0/4"@, ip) <==> ip is V4 && 0xe000_0000 <= ip.spec_value() < 0xe000_0000
            + 0x10000000,
        reaches("255.255.255.255/32"@, ip) <==> ip is V4 && ip.spec_value() == 0xffff_ffff,
{
    lemma_sizes();
    lemma_v4_texts();
    lemma_block_reaches("10.0.0.0/8"@, IpAddr::V4(0x0a00_0000), 8, ip);
    lemma_block_reaches("172.16.0.0/12"@, IpAddr::V4(0xac10_0000), 12, ip);
    lemma_block_reaches("192.168.0.0/16"@, IpAddr::V4(0xc0a8_0000), 16, ip);
    lemma_block_reaches("169.254.0.0/16"@, IpAddr::V4(0xa9fe_0000), 16, ip);
    lemma_block_reaches("224.0.0.0/4"@, IpAddr::V4(0xe000_0000), 4, ip);
    lemma_block_reaches("255.255.255.255/32"@, IpAddr::V4(0xffff_ffff), 32, ip);
}

/// Whether one of the networks of a family that stay reachable holds an address.
spec fn in_some_network(family: Seq<char>, ip: IpAddr) -> bool {
    exists|i: int|
        0 <= i < local_networks_of(family).len() && reaches(
            #[trigger] local_networks_of(family)[i],
            ip,
        )
}

/// The IPv4 networks that stay reachable are the local ones.
proof fn lemma_local_v4(n: u32)
    ensures
        in_some_network("ipv4"@, IpAddr::V4(n)) <==> is_local(IpAddr::V4(n)),
{
    let nets = local_networks_of("ipv4"@);
    let ip = IpAddr::V4(n);
    lemma_nets_v4(ip);
    lemma_octets_of(n);
    assert(nets.len() == 6);
    assert(nets[0] == "10.0.0.0/8"@ && nets[1] == "172.16.0.0/12"@ && nets[2]
        == "192.168.0.0/16"@);
    assert(nets[3] == "169.254.0.0/16"@ && nets[4] == "224.0.0.0/4"@ && nets[5]
        == "255.255.255.255/32"@);
}

/// What each of the IPv6 networks that stay reachable holds.
proof fn lemma_nets_v6(ip: IpAddr)
    ensures
        reaches("fe80::/10"@, ip) <==> ip is V6 && 0xfe80_0000_0000_0000_0000_0000_0000_0000
            <= ip.spec_value() < 0xfe80_0000_0000_0000_0000_0000_0000_0000
            + 0x40_0000_0000_0000_0000_0000_0000_0000,
        reaches("fc00::/7"@, ip) <==> ip is V6 && 0xfc00_0000_0000_0000_0000_0000_0000_0000
            <= ip.spec_value() < 0xfc00_0000_0000_0000_0000_0000_0000_0000
            + 0x200_0000_0000_0000_0000_0000_0000_0000,
        reaches("ff00::/8"@, ip) <==> ip is V6 && 0xff00_0000_0000_0000_0000_0000_0000_0000
            <= ip.spec_value() < 0xff00_0000_0000_0000_0000_0000_0000_0000
            + 0x100_0000_0000_0000_0000_0000_0000_0000,
{
    lemma_sizes();
    lemma_v6_texts();
    lemma_block_reaches(
        "fe80::/10"@,
        IpAddr::V6(0xfe80_0000_0000_0000_0000_0000_0000_0000),
        10,
        ip,
    );
    lemma_block_reaches(
        "fc00::/7"@,
        IpAddr::V6(0xfc00_0000_0000_0000_0000_0000_0000_0000),
        7,
        ip,
    );
    lemma_block_reaches(
        "ff00::/8"@,
        IpAddr::V6(0xff00_0000_0000_0000_0000_0000_0000_0000),
        8,
        ip,
    );
}

/// The text of an IPv6 address of which only the first group is set.
proof fn lemma_one_group(n: nat, first: nat)
    requires
        0 < first < 0x10000,
        n == first * 0x1_0000_0000_0000_0000_0000_0000_0000,
    ensures
        v6_text(n) == hexadecimal(first) + "::"@,
{
    reveal_with_fuel(groups_of, 9);
    let g = groups_of(n, 8);
    assert(g.len() == 8);
    assert(g[0] == first);
    assert(forall|i: int| 1 <= i < 8 ==> g[i] == 0);
    lemma_zeros_from(g, 1);
    assert(zero_run(g, 0) == 0);
    assert(best_run(g, 0) == 1);
    assert(n / 0x1_0000_0000 != 0xffff);
    assert(g.take(1).len() == 1 && g.take(1)[0] == first);
    assert(groups_text(g.take(1)) == hexadecimal(first));
    assert(groups_text(g.skip(8)) =~= Seq::<char>::empty());
    assert(hexadecimal(first) + "::"@ + Seq::<char>::empty() =~= hexadecimal(first) + "::"@);
}

/// The longest run in groups that are zero from some index on.
proof fn lemma_zeros_from(g: Seq<nat>, i: int)
    requires
        1 <= i <= g.len(),
        forall|j: int| i <= j < g.len() ==> g[j] == 0,
    ensures
        zero_run(g, i) == g.len() - i,
        best_run(g, i) == i,
    decreases g.len() - i,
{
    if i < g.len() {
        lemma_zeros_from(g, i + 1);
    }
}

/// The texts of the IPv6 networks.
proof fn lemma_v6_texts()
    ensures
        "fe80::/10"@ == cidr_text(IpAddr::V6(0xfe80_0000_0000_0000_0000_0000_0000_0000), 10),
        "fc00::/7"@ == cidr_text(IpAddr::V6(0xfc00_0000_0000_0000_0000_0000_0000_0000), 7),
        "ff00::/8"@ == cidr_text(IpAddr::V6(0xff00_0000_0000_0000_0000_0000_0000_0000), 8),
{
    lemma_one_group(0xfe80_0000_0000_0000_0000_0000_0000_0000, 0xfe80);
    lemma_one_group(0xfc00_0000_0000_0000_0000_0000_0000_0000, 0xfc00);
    lemma_one_group(0xff00_0000_0000_0000_0000_0000_0000_0000, 0xff00);
    reveal_with_fuel(hexadecimal, 5);
    assert(hexadecimal(0xfe80) =~= seq!['f', 'e', '8', '0']);
    assert(hexadecimal(0xfc00) =~= seq!['f', 'c', '0', '0']);
    assert(hexadecimal(0xff00) =~= seq!['f', 'f', '0', '0']);
    lemma_digits();
    reveal_strlit("/");
    reveal_strlit("::");
    reveal_strlit("fe80::/10");
    reveal_strlit("fc00::/7");
    reveal_strlit("ff00::/8");
    assert("fe80::/10"@ =~= hexadecimal(0xfe80) + "::"@ + "/"@ + decimal(10));
    assert("fc00::/7"@ =~= hexadecimal(0xfc00) + "::"@ + "/"@ + decimal(7));
    assert("ff00::/8"@ =~= hexadecimal(0xff00) + "::"@ + "/"@ + decimal(8));
}

/// The ranges of the local IPv6 networks, in terms of the first group.
proof fn lemma_group_of(n: u128)
    ensures
        0xfe80_0000_0000_0000_0000_0000_0000_0000 <= n
            < 0xfe80_0000_0000_0000_0000_0000_0000_0000 + 0x40_0000_0000_0000_0000_0000_0000_0000
            <==> 0xfe80 <= n / 0x1_0000_0000_0000_0000_0000_0000_0000 <= 0xfebf,
        0xfc00_0000_0000_0000_0000_0000_0000_0000 <= n
            < 0xfc00_0000_0000_0000_0000_0000_0000_0000 + 0x200_0000_0000_0000_0000_0000_0000_0000
            <==> 0xfc00 <= n / 0x1_0000_0000_0000_0000_0000_0000_0000 <= 0xfdff,
        0xff00_0000_0000_0000_0000_0000_0000_0000 <= n
            < 0xff00_0000_0000_0000_0000_0000_0000_0000 + 0x100_0000_0000_0000_0000_0000_0000_0000
            <==> 0xff00 <= n / 0x1_0000_0000_0000_0000_0000_0000_0000,
{
}

/// The IPv6 networks that stay reachable are the local ones.
proof fn lemma_local_v6(n: u128)
    ensures
        in_some_network("ipv6"@, IpAddr::V6(n)) <==> is_local(IpAddr::V6(n)),
{
    let nets = local_networks_of("ipv6"@);
    let ip = IpAddr::V6(n);
    lemma_options();
    lemma_nets_v6(ip);
    lemma_group_of(n);
    assert(nets.len() == 3);
    assert(nets[0] == "fe80::/10"@ && nets[1] == "fc00::/7"@ && nets[2] == "ff00::/8"@);
}

/// The texts of the IPv4 networks.
proof fn lemma_v4_texts()
    ensures
        "10.0.0.0/8"@ == cidr_text(IpAddr::V4(0x0a00_0000), 8),
        "172.16.0.0/12"@ == cidr_text(IpAddr::V4(0xac10_0000), 12),
        "192.168.0.0/16"@ == cidr_text(IpAddr::V4(0xc0a8_0000), 16),
        "169.254.0.0/16"@ == cidr_text(IpAddr::V4(0xa9fe_0000), 16),
        "224.0.0.0/4"@ == cidr_text(IpAddr::V4(0xe000_0000), 4),
        "255.255.255.255/32"@ == cidr_text(IpAddr::V4(0xffff_ffff), 32),
{
    reveal_with_fuel(decimal, 4);
    reveal_strlit("/");
    reveal_strlit("10.0.0.0/8");
    reveal_strlit("172.16.0.0/12");
    reveal_strlit("192.168.0.0/16");
    reveal_strlit("169.254.0.0/16");
    reveal_strlit("224.0.0.0/4");
    reveal_strlit("255.255.255.255/32");
    lemma_digits();
    assert("10.0.0.0/8"@ =~= cidr_text(IpAddr::V4(0x0a00_0000), 8));
    assert("172.16.0.0/12"@ =~= cidr_text(IpAddr::V4(0xac10_0000), 12));
    assert("192.168.0.0/16"@ =~= cidr_text(IpAddr::V4(0xc0a8_0000), 16));
    assert("169.254.0.0/16"@ =~= cidr_text(IpAddr::V4(0xa9fe_0000), 16));
    assert("224.0.0.0/4"@ =~= cidr_text(IpAddr::V4(0xe000_0000), 4));
    assert("255.255.255.255/32"@ =~= cidr_text(IpAddr::V4(0xffff_ffff), 32));
}

/// The numbers that stand in the texts of networks.
proof fn lemma_digits()
    ensures
        decimal(0) == seq!['0'],
        decimal(4) == seq!['4'],
        decimal(7) == seq!['7'],
        decimal(8) == seq!['8'],
        decimal(10) == seq!['1', '0'],
        decimal(12) == seq!['1', '2'],
        decimal(16) == seq!['1', '6'],
        decimal(32) == seq!['3', '2'],
        decimal(168) == seq!['1', '6', '8'],
        decimal(169) == seq!['1', '6', '9'],
        decimal(172) == seq!['1', '7', '2'],
        decimal(192) == seq!['1', '9', '2'],
        decimal(224) == seq!['2', '2', '4'],
        decimal(254) == seq!['2', '5', '4'],
        decimal(255) == seq!['2', '5', '5'],
{
    reveal_with_fuel(decimal, 4);
}

// ---------------------------------------------------------------------------
// What leaves the machine
// ---------------------------------------------------------------------------

/// Whether a tunnel is up.
pub open spec fn some_tunnel_up(tunnels: Seq<TunnelView>) -> bool {
    exists|i: int| 0 <= i < tunnels.len() && (#[trigger] tunnels[i]).is_active
}

/// Whether a packet leaves through a tunnel that is up, or stays on the machine.
pub open spec fn in_tunnel(p: Packet, tunnels: Seq<TunnelView>) -> bool {
    p.interface == "lo"@ || exists|i: int|
        0 <= i < tunnels.len() && (#[trigger] tunnels[i]).is_active && tunnels[i].interface == Some(
            p.interface,
        )
}

/// Whether a packet asks for the resolution of a name.
pub open spec fn is_lookup(p: Packet) -> bool {
    (p.protocol == "udp"@ || p.protocol == "tcp"@) && p.port == 53
}

/// Whether a host name resolved to an address: its first entry has it.
pub open spec fn resolved_to(hosts: Seq<HostView>, host: Seq<char>, ip: IpAddr) -> bool {
    exists|k: int|
        0 <= k < hosts.len() && (#[trigger] hosts[k]).host == host && (forall|j: int|
            0 <= j < k ==> (#[trigger] hosts[j]).host != host) && hosts[k].addresses.contains(ip)
}

/// Whether an address is that of a peer, or one that its host name resolved to.
pub open spec fn is_peer_at(e: EndpointView, hosts: Seq<HostView>, ip: IpAddr) -> bool {
    match address_of(e.host) {
        Some(a) => a == ip,
        None => resolved_to(hosts, e.host, ip),
    }
}

/// Whether a packet may be of the handshake with one of some peers: it is UDP to
/// the address and the port of the peer.
pub open spec fn is_handshake_with(
    p: Packet,
    endpoints: Seq<EndpointView>,
    hosts: Seq<HostView>,
) -> bool {
    p.protocol == "udp"@ && exists|k: int|
        0 <= k < endpoints.len() && is_peer_at(#[trigger] endpoints[k], hosts, p.destination)
            && endpoints[k].port == p.port
}

/// Whether a packet may be of the handshake of one of the tunnels, up or not.
pub open spec fn is_handshake(p: Packet, tunnels: Seq<TunnelView>, hosts: Seq<HostView>) -> bool {
    exists|i: int|
        0 <= i < tunnels.len() && is_handshake_with(p, (#[trigger] tunnels[i]).endpoints, hosts)
}

/// Whether a packet may leave while the lockdown is on. What goes through a tunnel
/// may. Outside of the tunnels, names are resolved only while no tunnel is up; of
/// the rest, only what stays on local networks and the handshakes may leave.
pub open spec fn may_leave(p: Packet, tunnels: Seq<TunnelView>, hosts: Seq<HostView>) -> bool {
    in_tunnel(p, tunnels) || if is_lookup(p) {
        !some_tunnel_up(tunnels)
    } else {
        is_local(p.destination) || is_handshake(p, tunnels, hosts)
    }
}

/// Whether some rule is for a packet.
spec fn some_covers(rules: Seq<Batch>, p: Packet) -> bool {
    exists|i: int| 0 <= i < rules.len() && covers(#[trigger] rules[i], p)
}

/// Whether all rules that are for a packet have a priority and a verdict.
spec fn all_say(rules: Seq<Batch>, p: Packet, priority: int, verdict: Seq<char>) -> bool {
    forall|i: int|
        0 <= i < rules.len() && covers(#[trigger] rules[i], p) ==> priority_of(rules[i]) == priority
            && rules[i].last() == verdict
}

/// Rules behind each other.
proof fn lemma_both(a: Seq<Batch>, b: Seq<Batch>, p: Packet, priority: int, verdict: Seq<char>)
    ensures
        some_covers(a + b, p) <==> some_covers(a, p) || some_covers(b, p),
        all_say(a, p, priority, verdict) && all_say(b, p, priority, verdict) ==> all_say(
            a + b,
            p,
            priority,
            verdict,
        ),
{
    let all = a + b;
    if some_covers(a, p) {
        let i = choose|i: int| 0 <= i < a.len() && covers(#[trigger] a[i], p);
        assert(all[i] == a[i]);
    }
    if some_covers(b, p) {
        let i = choose|i: int| 0 <= i < b.len() && covers(#[trigger] b[i], p);
        assert(all[a.len() + i] == b[i]);
    }
    if some_covers(all, p) {
        let i = choose|i: int| 0 <= i < all.len() && covers(#[trigger] all[i], p);
        if i < a.len() {
            assert(a[i] == all[i]);
        } else {
            assert(b[i - a.len()] == all[i]);
        }
    }
    if all_say(a, p, priority, verdict) && all_say(b, p, priority, verdict) {
        assert forall|i: int| 0 <= i < all.len() && covers(#[trigger] all[i], p) implies priority_of(
            all[i],
        ) == priority && all[i].last() == verdict by {
            if i < a.len() {
                assert(a[i] == all[i]);
            } else {
                assert(b[i - a.len()] == all[i]);
            }
        }
    }
}

/// One more rule.
proof fn lemma_one_more(
    a: Seq<Batch>,
    rule: Batch,
    p: Packet,
    priority: int,
    verdict: Seq<char>,
)
    requires
        covers(rule, p) ==> priority_of(rule) == priority && rule.last() == verdict,
    ensures
        some_covers(a.push(rule), p) <==> some_covers(a, p) || covers(rule, p),
        all_say(a, p, priority, verdict) ==> all_say(a.push(rule), p, priority, verdict),
{
    let b = seq![rule];
    lemma_both(a, b, p, priority, verdict);
    assert(a.push(rule) =~= a + b);
    assert(b[0] == rule);
    if covers(rule, p) {
        assert(some_covers(b, p));
    }
}

/// The rules for the interfaces of the tunnels that are up.
proof fn lemma_interface_rules(family: Seq<char>, tunnels: Seq<TunnelView>, p: Packet)
    requires
        family == family_of(p.destination),
    ensures
        all_say(interface_rules(family, tunnels), p, 0, "ACCEPT"@),
        some_covers(interface_rules(family, tunnels), p) <==> exists|i: int|
            0 <= i < tunnels.len() && (#[trigger] tunnels[i]).is_active && tunnels[i].interface
                == Some(p.interface),
    decreases tunnels.len(),
{
    if tunnels.len() > 0 {
        let less = tunnels.drop_last();
        let t = tunnels.last();
        lemma_interface_rules(family, less, p);
        assert(forall|i: int| 0 <= i < less.len() ==> less[i] == tunnels[i]);
        assert(t == tunnels[tunnels.len() - 1]);
        if t.is_active && t.interface is Some {
            let name = t.interface->0;
            lemma_through(family, name, p);
            lemma_one_more(
                interface_rules(family, less),
                added(family, 0, accept_through(name)),
                p,
                0,
                "ACCEPT"@,
            );
        }
    }
}

/// A text form reaches the address that it denotes.
proof fn lemma_reaches(text: Seq<char>, ip: IpAddr, to: IpAddr)
    requires
        address_of(text) == Some(ip),
    ensures
        reaches(text, to) <==> ip == to,
{
    reveal(reaches);
    if text.contains('/') {
        lemma_slash_is_no_address(text);
    }
}

/// The rules for the addresses that a host name resolved to.
proof fn lemma_resolved_rules(family: Seq<char>, port: nat, resolved: Seq<IpAddr>, p: Packet)
    requires
        family == family_of(p.destination),
    ensures
        all_say(resolved_rules(family, decimal(port), resolved), p, 1, "ACCEPT"@),
        some_covers(resolved_rules(family, decimal(port), resolved), p) <==> p.protocol == "udp"@
            && p.port == port && resolved.contains(p.destination),
    decreases resolved.len(),
{
    if resolved.len() > 0 {
        let less = resolved.drop_last();
        let ip = resolved.last();
        lemma_resolved_rules(family, port, less, p);
        assert(resolved.contains(p.destination) <==> less.contains(p.destination) || ip
            == p.destination) by {
            if less.contains(p.destination) {
                let k = choose|k: int| 0 <= k < less.len() && less[k] == p.destination;
                assert(resolved[k] == p.destination);
            }
            if ip == p.destination {
                assert(resolved[resolved.len() - 1] == p.destination);
            }
            if resolved.contains(p.destination) && ip != p.destination {
                let k = choose|k: int| 0 <= k < resolved.len() && resolved[k] == p.destination;
                assert(less[k] == p.destination);
            }
        }
        if in_family(ip, family) {
            law_text_reads_back(ip);
            lemma_reaches(ip.spec_text(), ip, p.destination);
            lemma_handshake(family, ip.spec_text(), port, p);
            lemma_one_more(
                resolved_rules(family, decimal(port), less),
                added(family, 1, handshake(ip.spec_text(), decimal(port))),
                p,
                1,
                "ACCEPT"@,
            );
        }
    }
}

/// The addresses of a host name are those of its first entry.
proof fn lemma_addresses(hosts: Seq<HostView>, host: Seq<char>, i: int, ip: IpAddr)
    requires
        0 <= i <= hosts.len(),
        forall|j: int| 0 <= j < i ==> (#[trigger] hosts[j]).host != host,
    ensures
        addresses_of(hosts, host, i).contains(ip) <==> resolved_to(hosts, host, ip),
    decreases hosts.len() - i,
{
    if i < hosts.len() && hosts[i].host != host {
        lemma_addresses(hosts, host, i + 1, ip);
    } else if i < hosts.len() {
        if resolved_to(hosts, host, ip) {
            let k = choose|k: int|
                0 <= k < hosts.len() && (#[trigger] hosts[k]).host == host && (forall|j: int|
                    0 <= j < k ==> (#[trigger] hosts[j]).host != host)
                    && hosts[k].addresses.contains(ip);
            assert(k == i);
        }
    }
}

/// The rules for the handshake with one peer.
proof fn lemma_peer_rules(family: Seq<char>, e: EndpointView, hosts: Seq<HostView>, p: Packet)
    requires
        family == family_of(p.destination),
    ensures
        all_say(peer_rules(family, e, addresses_of(hosts, e.host, 0)), p, 1, "ACCEPT"@),
        some_covers(peer_rules(family, e, addresses_of(hosts, e.host, 0)), p) <==> p.protocol
            == "udp"@ && p.port == e.port && is_peer_at(e, hosts, p.destination),
{
    lemma_options();
    lemma_addresses(hosts, e.host, 0, p.destination);
    match address_of(e.host) {
        Some(ip) => {
            lemma_reaches(e.host, ip, p.destination);
            let none = Seq::<Batch>::empty();
            if in_family(ip, family) {
                lemma_handshake(family, e.host, e.port as nat, p);
                let rule = added(family, 1, handshake(e.host, decimal(e.port as nat)));
                lemma_one_more(none, rule, p, 1, "ACCEPT"@);
                assert(none.push(rule) =~= seq![rule]);
            }
        },
        None => {
            lemma_resolved_rules(family, e.port as nat, addresses_of(hosts, e.host, 0), p);
        },
    }
}

/// The rules for the handshakes with some peers.
proof fn lemma_peers_rules(
    family: Seq<char>,
    endpoints: Seq<EndpointView>,
    hosts: Seq<HostView>,
    p: Packet,
)
    requires
        family == family_of(p.destination),
    ensures
        all_say(peers_rules(family, endpoints, hosts), p, 1, "ACCEPT"@),
        some_covers(peers_rules(family, endpoints, hosts), p) <==> is_handshake_with(
            p,
            endpoints,
            hosts,
        ),
    decreases endpoints.len(),
{
    if endpoints.len() > 0 {
        let less = endpoints.drop_last();
        let e = endpoints.last();
        lemma_peers_rules(family, less, hosts, p);
        lemma_peer_rules(family, e, hosts, p);
        lemma_both(
            peers_rules(family, less, hosts),
            peer_rules(family, e, addresses_of(hosts, e.host, 0)),
            p,
            1,
            "ACCEPT"@,
        );
        assert(forall|i: int| 0 <= i < less.len() ==> less[i] == endpoints[i]);
        assert(e == endpoints[endpoints.len() - 1]);
        if is_handshake_with(p, less, hosts) {
            let k = choose|k: int|
                0 <= k < less.len() && is_peer_at(#[trigger] less[k], hosts, p.destination)
                    && less[k].port == p.port;
            assert(is_peer_at(endpoints[k], hosts, p.destination));
        }
        if is_handshake_with(p, endpoints, hosts) {
            let k = choose|k: int|
                0 <= k < endpoints.len() && is_peer_at(
                    #[trigger] endpoints[k],
                    hosts,
                    p.destination,
                ) && endpoints[k].port == p.port;
            if k < less.len() {
                assert(is_peer_at(less[k], hosts, p.destination));
            }
        }
    }
}

/// The rules for the handshakes of all tunnels.
proof fn lemma_tunnels_rules(
    family: Seq<char>,
    tunnels: Seq<TunnelView>,
    hosts: Seq<HostView>,
    p: Packet,
)
    requires
        family == family_of(p.destination),
    ensures
        all_say(tunnels_rules(family, tunnels, hosts), p, 1, "ACCEPT"@),
        some_covers(tunnels_rules(family, tunnels, hosts), p) <==> is_handshake(p, tunnels, hosts),
    decreases tunnels.len(),
{
    if tunnels.len() > 0 {
        let less = tunnels.drop_last();
        let t = tunnels.last();
        lemma_tunnels_rules(family, less, hosts, p);
        lemma_peers_rules(family, t.endpoints, hosts, p);
        lemma_both(
            tunnels_rules(family, less, hosts),
            peers_rules(family, t.endpoints, hosts),
            p,
            1,
            "ACCEPT"@,
        );
        assert(forall|i: int| 0 <= i < less.len() ==> less[i] == tunnels[i]);
        assert(t == tunnels[tunnels.len() - 1]);
        if is_handshake(p, less, hosts) {
            let k = choose|k: int|
                0 <= k < less.len() && is_handshake_with(p, (#[trigger] less[k]).endpoints, hosts);
            assert(is_handshake_with(p, tunnels[k].endpoints, hosts));
        }
        if is_handshake(p, tunnels, hosts) {
            let k = choose|k: int|
                0 <= k < tunnels.len() && is_handshake_with(
                    p,
                    (#[trigger] tunnels[k]).endpoints,
                    hosts,
                );
            if k < less.len() {
                assert(is_handshake_with(p, less[k].endpoints, hosts));
            }
        }
    }
}

/// The rules for the local networks.
proof fn lemma_local_rules(family: Seq<char>, p: Packet)
    requires
        family == family_of(p.destination),
    ensures
        all_say(local_rules(family), p, 1, "ACCEPT"@),
        some_covers(local_rules(family), p) <==> is_local(p.destination),
{
    match p.destination {
        IpAddr::V4(n) => lemma_local_v4(n),
        IpAddr::V6(n) => lemma_local_v6(n),
    }
    let nets = local_networks_of(family);
    let rules = local_rules(family);
    assert forall|i: int| 0 <= i < rules.len() implies (covers(#[trigger] rules[i], p) <==> reaches(
        nets[i],
        p.destination,
    )) && priority_of(rules[i]) == 1 && rules[i].last() == "ACCEPT"@ by {
        lemma_to(family, nets[i], p);
    }
    if in_some_network(family, p.destination) {
        let i = choose|i: int|
            0 <= i < nets.len() && reaches(#[trigger] local_networks_of(family)[i], p.destination);
        assert(covers(rules[i], p));
    }
    if some_covers(rules, p) {
        let i = choose|i: int| 0 <= i < rules.len() && covers(#[trigger] rules[i], p);
        assert(reaches(local_networks_of(family)[i], p.destination));
    }
}

/// The rules that come first: those for interfaces, then those for name
/// resolution.
spec fn head_rules(family: Seq<char>, tunnels: Seq<TunnelView>) -> Seq<Batch> {
    seq![added(family, 0, accept_through("lo"@))] + resolution_rules(family, tunnels)
}

/// What becomes of name resolution outside of the tunnels.
spec fn lookup_verdict(tunnels: Seq<TunnelView>) -> Seq<char> {
    if some_tunnel_up(tunnels) {
        "DROP"@
    } else {
        "ACCEPT"@
    }
}

/// Whether a rule that is for a packet is one for an interface, or one for name
/// resolution.
spec fn is_head_rule(rule: Batch, p: Packet, tunnels: Seq<TunnelView>) -> bool {
    ||| priority_of(rule) == 0 && rule.last() == "ACCEPT"@ && in_tunnel(p, tunnels)
    ||| priority_of(rule) == 1 && rule.last() == lookup_verdict(tunnels) && is_lookup(p)
}

/// The two rules for name resolution.
proof fn lemma_lookup_rules(family: Seq<char>, verdict: Seq<char>, p: Packet)
    requires
        family == family_of(p.destination),
    ensures
        ({
            let rules = seq![
                added(family, 1, resolution("udp"@, verdict)),
                added(family, 1, resolution("tcp"@, verdict)),
            ];
            all_say(rules, p, 1, verdict) && (some_covers(rules, p) <==> is_lookup(p))
        }),
{
    let udp = added(family, 1, resolution("udp"@, verdict));
    let tcp = added(family, 1, resolution("tcp"@, verdict));
    let none = Seq::<Batch>::empty();
    lemma_resolution(family, "udp"@, verdict, p);
    lemma_resolution(family, "tcp"@, verdict, p);
    lemma_one_more(none, udp, p, 1, verdict);
    lemma_one_more(none.push(udp), tcp, p, 1, verdict);
    assert(none.push(udp).push(tcp) =~= seq![udp, tcp]);
}

/// What the rules that come first are for.
proof fn lemma_head(family: Seq<char>, tunnels: Seq<TunnelView>, p: Packet)
    requires
        family == family_of(p.destination),
    ensures
        forall|i: int|
            0 <= i < head_rules(family, tunnels).len() && covers(
                #[trigger] head_rules(family, tunnels)[i],
                p,
            ) ==> is_head_rule(head_rules(family, tunnels)[i], p, tunnels),
        in_tunnel(p, tunnels) ==> exists|i: int|
            0 <= i < head_rules(family, tunnels).len() && covers(
                #[trigger] head_rules(family, tunnels)[i],
                p,
            ) && priority_of(head_rules(family, tunnels)[i]) == 0,
        is_lookup(p) ==> exists|i: int|
            0 <= i < head_rules(family, tunnels).len() && covers(
                #[trigger] head_rules(family, tunnels)[i],
                p,
            ) && priority_of(head_rules(family, tunnels)[i]) == 1,
{
    let head = head_rules(family, tunnels);
    let lo = added(family, 0, accept_through("lo"@));
    let verdict = lookup_verdict(tunnels);
    let lookups = seq![
        added(family, 1, resolution("udp"@, verdict)),
        added(family, 1, resolution("tcp"@, verdict)),
    ];
    let through = if some_tunnel_up(tunnels) {
        interface_rules(family, tunnels)
    } else {
        Seq::empty()
    };
    assert(head =~= seq![lo] + through + lookups);
    lemma_through(family, "lo"@, p);
    lemma_interface_rules(family, tunnels, p);
    lemma_lookup_rules(family, verdict, p);
    let n = 1 + through.len() as int;
    assert forall|i: int| 0 <= i < head.len() && covers(#[trigger] head[i], p) implies is_head_rule(
        head[i],
        p,
        tunnels,
    ) by {
        if i == 0 {
            assert(head[0] == lo);
        } else if i < n {
            assert(head[i] == through[i - 1]);
            assert(some_covers(through, p));
        } else {
            assert(head[i] == lookups[i - n]);
            assert(some_covers(lookups, p));
        }
    }
    if in_tunnel(p, tunnels) {
        if p.interface == "lo"@ {
            assert(covers(head[0], p));
        } else {
            let k = choose|k: int|
                0 <= k < through.len() && covers(#[trigger] interface_rules(family, tunnels)[k], p);
            assert(head[k + 1] == through[k]);
            assert(covers(head[k + 1], p));
        }
    }
    if is_lookup(p) {
        let k = choose|k: int| 0 <= k < lookups.len() && covers(#[trigger] lookups[k], p);
        assert(head[n + k] == lookups[k]);
        assert(covers(head[n + k], p));
    }
}

/// What the rules of a family decide.
proof fn lemma_family(
    family: Seq<char>,
    tunnels: Seq<TunnelView>,
    hosts: Seq<HostView>,
    p: Packet,
)
    requires
        family == family_of(p.destination),
    ensures
        may_leave(p, tunnels, hosts) ==> accepts(family_rules(family, tunnels, hosts), p),
        !may_leave(p, tunnels, hosts) ==> drops(family_rules(family, tunnels, hosts), p),
{
    let rules = family_rules(family, tunnels, hosts);
    let head = head_rules(family, tunnels);
    let local = local_rules(family);
    let peers = tunnels_rules(family, tunnels, hosts);
    let last = added(family, 10, drop_all());
    let reachable = local + peers;
    let n = head.len() as int;
    let e = rules.len() - 1;
    assert(rules =~= head + reachable + seq![last]);
    lemma_options();
    lemma_head(family, tunnels, p);
    lemma_local_rules(family, p);
    lemma_tunnels_rules(family, tunnels, hosts, p);
    lemma_both(local, peers, p, 1, "ACCEPT"@);
    lemma_last_rule(family, p);
    assert(rules[e] == last);
    assert(forall|i: int| 0 <= i < n ==> rules[i] == head[i]);
    assert(forall|i: int| n <= i < e ==> rules[i] == reachable[i - n]);
    if in_tunnel(p, tunnels) {
        let k = choose|k: int|
            0 <= k < head.len() && covers(#[trigger] head_rules(family, tunnels)[k], p)
                && priority_of(head_rules(family, tunnels)[k]) == 0;
        assert(rules[k] == head[k]);
        let i = lemma_some_decides(rules, p, k);
        if n <= i < e {
            assert(covers(reachable[i - n], p));
        }
        assert(rules[i].last() == "ACCEPT"@);
        assert(decides(rules, p, i));
    } else if is_lookup(p) {
        let k = choose|k: int|
            0 <= k < head.len() && covers(#[trigger] head_rules(family, tunnels)[k], p)
                && priority_of(head_rules(family, tunnels)[k]) == 1;
        assert(rules[k] == head[k]);
        let i = lemma_some_decides(rules, p, k);
        if i >= n {
            assert(covers(rules[k], p));
            if i < e {
                assert(covers(reachable[i - n], p));
            }
            assert(false);
        }
        assert(is_head_rule(head[i], p, tunnels));
        assert(rules[i].last() == lookup_verdict(tunnels));
        assert(decides(rules, p, i));
    } else if is_local(p.destination) || is_handshake(p, tunnels, hosts) {
        assert(some_covers(reachable, p));
        let k = choose|k: int| 0 <= k < reachable.len() && covers(#[trigger] reachable[k], p);
        assert(rules[n + k] == reachable[k]);
        let i = lemma_some_decides(rules, p, n + k);
        if i < n {
            assert(is_head_rule(head[i], p, tunnels));
            assert(false);
        }
        if i < e {
            assert(covers(reachable[i - n], p));
        }
        assert(rules[i].last() == "ACCEPT"@);
        assert(decides(rules, p, i));
    } else {
        let i = lemma_some_decides(rules, p, e);
        if i < n {
            assert(is_head_rule(head[i], p, tunnels));
            assert(false);
        } else if i < e {
            assert(covers(reachable[i - n], p));
            assert(some_covers(reachable, p));
        }
        assert(i == e);
        assert(decides(rules, p, e));
    }
}

/// Rules of another family decide nothing.
proof fn lemma_beside(a: Seq<Batch>, b: Seq<Batch>, p: Packet, verdict: Seq<char>)
    ensures
        !some_covers(a, p) && ends_in(b, p, verdict) ==> ends_in(a + b, p, verdict),
        !some_covers(b, p) && ends_in(a, p, verdict) ==> ends_in(a + b, p, verdict),
{
    let all = a + b;
    let n = a.len() as int;
    assert(forall|i: int| 0 <= i < n ==> all[i] == a[i]);
    assert(forall|i: int| n <= i < all.len() ==> all[i] == b[i - n]);
    if !some_covers(a, p) && ends_in(b, p, verdict) {
        let i = choose|i: int| #[trigger] decides(b, p, i) && b[i].last() == verdict;
        assert forall|j: int|
            0 <= j < all.len() && j != n + i && covers(#[trigger] all[j], p) implies priority_of(
            all[n + i],
        ) < priority_of(all[j]) || priority_of(all[n + i]) == priority_of(all[j]) && n + i < j by {
            if j < n {
                assert(covers(a[j], p));
            } else {
                assert(covers(b[j - n], p));
            }
        }
        assert(all[n + i] == b[i]);
        assert(decides(all, p, n + i));
    }
    if !some_covers(b, p) && ends_in(a, p, verdict) {
        let i = choose|i: int| #[trigger] decides(a, p, i) && a[i].last() == verdict;
        assert forall|j: int|
            0 <= j < all.len() && j != i && covers(#[trigger] all[j], p) implies priority_of(all[i])
            < priority_of(all[j]) || priority_of(all[i]) == priority_of(all[j]) && i < j by {
            if j < n {
                assert(covers(a[j], p));
            } else {
                assert(covers(b[j - n], p));
            }
        }
        assert(all[i] == a[i]);
        assert(decides(all, p, i));
    }
}

/// The rules of a family are for no packet of another.
proof fn lemma_other_family(
    family: Seq<char>,
    tunnels: Seq<TunnelView>,
    hosts: Seq<HostView>,
    p: Packet,
)
    requires
        family != family_of(p.destination),
    ensures
        !some_covers(family_rules(family, tunnels, hosts), p),
{
    let rules = family_rules(family, tunnels, hosts);
    law_every_rule_is_marked(family, tunnels, hosts);
    assert forall|i: int| 0 <= i < rules.len() implies !covers(#[trigger] rules[i], p) by {
        reveal(covers);
        assert(is_rule_of(family, rules[i]));
        assert(rules[i][3] == rules[i].take(6)[3]);
    }
}

/// While the lockdown is on, a packet leaves the machine exactly where it goes
/// through a tunnel that is up or stays on the machine, where it resolves a name
/// while no tunnel is up, where it stays on a local network, or where it is of the
/// handshake of a tunnel: UDP to the address and the port of a peer. Every other
/// packet is dropped.
pub proof fn law_lockdown_lets_out(tunnels: Seq<TunnelView>, hosts: Seq<HostView>, p: Packet)
    ensures
        accepts(lockdown_rules(tunnels, hosts), p) <==> may_leave(p, tunnels, hosts),
        drops(lockdown_rules(tunnels, hosts), p) <==> !may_leave(p, tunnels, hosts),
{
    lemma_options();
    let v4 = family_rules("ipv4"@, tunnels, hosts);
    let v6 = family_rules("ipv6"@, tunnels, hosts);
    match p.destination {
        IpAddr::V4(_) => {
            lemma_family("ipv4"@, tunnels, hosts, p);
            lemma_other_family("ipv6"@, tunnels, hosts, p);
        },
        IpAddr::V6(_) => {
            lemma_family("ipv6"@, tunnels, hosts, p);
            lemma_other_family("ipv4"@, tunnels, hosts, p);
        },
    }
    lemma_beside(v4, v6, p, "ACCEPT"@);
    lemma_beside(v4, v6, p, "DROP"@);
    law_one_verdict(lockdown_rules(tunnels, hosts), p);
}

/// The handshake of every tunnel gets out, up or not, whatever interface it leaves
/// through: UDP to the address of a peer, or to one that its host name resolved
/// to, at the port of the peer. The one exception is a peer at the port of name
/// resolution while a tunnel is up. Another protocol does not get out to the peer,
/// unless it goes through a tunnel, stays on a local network or resolves a name.
pub proof fn law_handshakes_get_out(
    tunnels: Seq<TunnelView>,
    hosts: Seq<HostView>,
    i: int,
    k: int,
    ip: IpAddr,
    p: Packet,
)
    requires
        0 <= i < tunnels.len(),
        0 <= k < tunnels[i].endpoints.len(),
        is_peer_at(tunnels[i].endpoints[k], hosts, ip),
        p.destination == ip,
        p.port == tunnels[i].endpoints[k].port,
    ensures
        p.protocol == "udp"@ && (p.port != 53 || !some_tunnel_up(tunnels)) ==> accepts(
            lockdown_rules(tunnels, hosts),
            p,
        ),
        p.protocol != "udp"@ && !in_tunnel(p, tunnels) && !is_local(ip) && !is_lookup(p) ==> drops(
            lockdown_rules(tunnels, hosts),
            p,
        ),
{
    law_lockdown_lets_out(tunnels, hosts, p);
    if p.protocol == "udp"@ {
        assert(is_handshake_with(p, tunnels[i].endpoints, hosts));
        assert(is_handshake(p, tunnels, hosts));
    }
}

// ---------------------------------------------------------------------------
// While the rules are replaced
// ---------------------------------------------------------------------------

/// Whether no rule but the one at `at` comes before priority zero.
pub open spec fn comes_first(rules: Seq<Batch>, at: int) -> bool {
    forall|i: int| 0 <= i < rules.len() && i != at ==> priority_of(#[trigger] rules[i]) >= 0
}

/// The guard that stands while the rules are replaced holds back every packet of
/// its family, whatever other rules there are of priority zero or later.
pub proof fn law_guard_holds_everything_back(rules: Seq<Batch>, at: int, p: Packet)
    requires
        0 <= at < rules.len(),
        rules[at] == guard(family_of(p.destination)),
        comes_first(rules, at),
    ensures
        drops(rules, p),
        !accepts(rules, p),
{
    lemma_options();
    let family = family_of(p.destination);
    let rule = drop_all();
    lemma_covers(family, -1, rule, p);
    lemma_marker("DROP"@, p);
    assert(marked(rule) =~= marker() + seq!["-j"@, "DROP"@]);
    assert(decides(rules, p, at));
    law_one_verdict(rules, p);
}

/// The rules of the lockdown come at priority zero or later.
pub proof fn law_rules_come_after_the_guard(
    family: Seq<char>,
    tunnels: Seq<TunnelView>,
    hosts: Seq<HostView>,
    i: int,
)
    requires
        0 <= i < family_rules(family, tunnels, hosts).len(),
    ensures
        priority_of(family_rules(family, tunnels, hosts)[i]) >= 0,
{
    law_every_rule_is_marked(family, tunnels, hosts);
    let rule = family_rules(family, tunnels, hosts)[i];
    reveal(priority_of);
    assert(is_rule_of(family, rule));
    lemma_decimal_value(0, 32767);
    lemma_decimal_value(1, 32767);
    lemma_decimal_value(10, 32767);
    assert('0' <= decimal(0)[0] && '0' <= decimal(1)[0] && '0' <= decimal(10)[0]);
}

} // verus!
