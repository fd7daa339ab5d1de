//! The rules of the lockdown.
//!
//! The lockdown is a set of permanent direct rules in the `OUTPUT` chain of the
//! `mangle` table. Every rule carries a marker, so that exactly these rules can
//! be found and removed again; no other rule is ever touched.

use vstd::prelude::*;
use vstd::string::*;

use crate::ip::{address_of, IpAddr};
use crate::nm::endpoints::{endpoint_views, tunnel_views, Endpoint, EndpointView, TunnelView, WireguardTunnel};
use crate::text::{decimal, same, signed, signed_string};

verus! {

/// The comment that every rule of the lockdown carries.
pub const LOCKDOWN_MARKER: &'static str = "neutron-lockdown";

/// A command line: its arguments as texts.
pub type Batch = Seq<Seq<char>>;

/// The address families, each with a chain of its own.
pub open spec fn families() -> Seq<Seq<char>> {
    seq!["ipv4"@, "ipv6"@]
}

// ---------------------------------------------------------------------------
// One rule
// ---------------------------------------------------------------------------

/// The arguments that name a permanent operation on the output chain.
pub open spec fn direct(verb: Seq<char>, family: Seq<char>, table: Seq<char>) -> Batch {
    seq!["--permanent"@, "--direct"@, verb, family, table, "OUTPUT"@]
}

/// The arguments that name a permanent operation on the output chain.
pub fn direct_args(verb: &str, family: &str, table: &str) -> (r: Vec<String>)
    ensures
        r.deep_view() == direct(verb@, family@, table@),
{
    let r = vec![
        "--permanent".to_owned(),
        "--direct".to_owned(),
        verb.to_owned(),
        family.to_owned(),
        table.to_owned(),
        "OUTPUT".to_owned(),
    ];
    assert(r.deep_view() =~= direct(verb@, family@, table@));
    r
}

/// The match that puts the marker onto a rule.
pub open spec fn marker() -> Batch {
    seq!["-m"@, "comment"@, "--comment"@, "neutron-lockdown"@]
}

/// A rule with the marker right before the jump that it ends with.
pub open spec fn marked(rule: Batch) -> Batch {
    let jump = if rule.len() >= 2 {
        rule.len() - 2
    } else {
        0
    };
    rule.take(jump) + marker() + rule.skip(jump)
}

/// The arguments that add a rule of the lockdown.
pub open spec fn added(family: Seq<char>, priority: int, rule: Batch) -> Batch {
    direct("--add-rule"@, family, "mangle"@) + seq![signed(priority)] + marked(rule)
}

/// Append texts to a command line.
fn extend(batch: &mut Vec<String>, words: &[&str], from: usize, to: usize)
    requires
        from <= to <= words.len(),
    ensures
        final(batch).deep_view() == old(batch).deep_view() + words.deep_view().subrange(
            from as int,
            to as int,
        ),
{
    let ghost before = batch.deep_view();
    let mut i = from;
    assert(before + words.deep_view().subrange(from as int, from as int) =~= before);
    while i < to
        invariant
            from <= i <= to <= words.len(),
            batch.deep_view() == before + words.deep_view().subrange(from as int, i as int),
        decreases to - i,
    {
        let ghost now = batch.deep_view();
        batch.push(words[i].to_owned());
        assert(batch.deep_view() =~= now.push(words.deep_view()[i as int]));
        i += 1;
        assert(batch.deep_view() =~= before + words.deep_view().subrange(from as int, i as int));
    }
}

/// The arguments that add a rule of the lockdown: a permanent rule in the output
/// chain, with the marker right before the jump that `rule` ends with.
pub fn add_rule(family: &str, priority: i32, rule: &[&str]) -> (r: Vec<String>)
    ensures
        r.deep_view() == added(family@, priority as int, rule.deep_view()),
{
    let mut batch = direct_args("--add-rule", family, "mangle");
    let ghost d = batch.deep_view();
    batch.push(signed_string(priority));
    assert(batch.deep_view() =~= d.push(signed(priority as int)));
    let jump: usize = if rule.len() >= 2 { rule.len() - 2 } else { 0 };
    extend(&mut batch, rule, 0, jump);
    let tag = ["-m", "comment", "--comment", LOCKDOWN_MARKER];
    assert(tag.deep_view() =~= marker());
    let words: &[&str] = &tag;
    assert(words.deep_view() =~= marker());
    extend(&mut batch, words, 0, 4);
    extend(&mut batch, rule, jump, rule.len());
    proof {
        let all = rule.deep_view();
        assert(all.subrange(0, jump as int) =~= all.take(jump as int));
        assert(all.subrange(jump as int, all.len() as int) =~= all.skip(jump as int));
        assert(marker().subrange(0, 4) =~= marker());
        assert(batch.deep_view() =~= added(family@, priority as int, all));
    }
    batch
}

/// The arguments that make the permanent rules live.
pub open spec fn reload() -> Batch {
    seq!["--reload"@]
}

/// The arguments that make the permanent rules live.
pub fn reload_batch() -> (r: Vec<String>)
    ensures
        r.deep_view() == reload(),
{
    let r = vec!["--reload".to_owned()];
    assert(r.deep_view() =~= reload());
    r
}

// ---------------------------------------------------------------------------
// The rules of a family
// ---------------------------------------------------------------------------

/// The destinations of a family that stay reachable: private and link-local
/// networks, multicast and the limited broadcast. None of them is routed on the
/// internet.
pub open spec fn local_networks_of(family: Seq<char>) -> Batch {
    if family == "ipv4"@ {
        seq![
            "10.0.0.0/8"@,
            "172.16.0.0/12"@,
            "192.168.0.0/16"@,
            "169.254.0.0/16"@,
            "224.0.0.0/4"@,
            "255.255.255.255/32"@,
        ]
    } else {
        seq!["fe80::/10"@, "fc00::/7"@, "ff00::/8"@]
    }
}

/// The destinations of a family that stay reachable.
pub fn local_networks(family: &str) -> (r: Vec<&'static str>)
    ensures
        r.deep_view() == local_networks_of(family@),
{
    let r = if same(family, "ipv4") {
        vec![
            "10.0.0.0/8",
            "172.16.0.0/12",
            "192.168.0.0/16",
            "169.254.0.0/16",
            "224.0.0.0/4",
            "255.255.255.255/32",
        ]
    } else {
        vec!["fe80::/10", "fc00::/7", "ff00::/8"]
    };
    assert(r.deep_view() =~= local_networks_of(family@));
    r
}

/// The rule that accepts a destination.
pub open spec fn accept_to(network: Seq<char>) -> Batch {
    seq!["-d"@, network, "-j"@, "ACCEPT"@]
}

/// The rule that accepts what leaves through an interface.
pub open spec fn accept_through(interface: Seq<char>) -> Batch {
    seq!["-o"@, interface, "-j"@, "ACCEPT"@]
}

/// The rule that decides over name resolution by one protocol.
pub open spec fn resolution(protocol: Seq<char>, target: Seq<char>) -> Batch {
    seq!["-p"@, protocol, "--dport"@, "53"@, "-j"@, target]
}

/// The rule that accepts the handshake with a peer.
pub open spec fn handshake(address: Seq<char>, port: Seq<char>) -> Batch {
    seq!["-p"@, "udp"@, "-d"@, address, "--dport"@, port, "-j"@, "ACCEPT"@]
}

/// The rule that drops whatever no other rule accepted.
pub open spec fn drop_all() -> Batch {
    seq!["-j"@, "DROP"@]
}

/// The rules that keep the local networks of a family reachable.
pub open spec fn local_rules(family: Seq<char>) -> Seq<Batch> {
    local_networks_of(family).map_values(|n: Seq<char>| added(family, 1, accept_to(n)))
}

/// The rules that keep the local networks of a family reachable.
pub fn local_network_batches(family: &str) -> (r: Vec<Vec<String>>)
    ensures
        r.deep_view() == local_rules(family@),
{
    let networks = local_networks(family);
    let ghost target = local_rules(family@);
    let mut r: Vec<Vec<String>> = Vec::new();
    let mut i: usize = 0;
    while i < networks.len()
        invariant
            i <= networks.len(),
            networks.deep_view() == local_networks_of(family@),
            target == local_rules(family@),
            r.deep_view() == target.take(i as int),
        decreases networks.len() - i,
    {
        let rule = ["-d", networks[i], "-j", "ACCEPT"];
        let words: &[&str] = &rule;
        assert(networks.deep_view()[i as int] == networks[i as int]@);
        assert(words.deep_view() =~= accept_to(networks.deep_view()[i as int]));
        let ghost before = r.deep_view();
        r.push(add_rule(family, 1, words));
        assert(r.deep_view() =~= before.push(target[i as int]));
        i += 1;
    }
    assert(target.take(i as int) =~= target);
    r
}

/// Whether an address is of a family.
pub open spec fn in_family(ip: IpAddr, family: Seq<char>) -> bool {
    match ip {
        IpAddr::V4(_) => family == "ipv4"@,
        IpAddr::V6(_) => family == "ipv6"@,
    }
}

/// Whether an address is of a family.
fn of_family(ip: IpAddr, family: &str) -> (r: bool)
    ensures
        r == in_family(ip, family@),
{
    match ip {
        IpAddr::V4(_) => same(family, "ipv4"),
        IpAddr::V6(_) => same(family, "ipv6"),
    }
}

/// The rules that accept the handshake at resolved addresses.
pub open spec fn resolved_rules(family: Seq<char>, port: Seq<char>, resolved: Seq<IpAddr>) -> Seq<Batch>
    decreases resolved.len(),
{
    if resolved.len() == 0 {
        Seq::empty()
    } else {
        let before = resolved_rules(family, port, resolved.drop_last());
        if in_family(resolved.last(), family) {
            before.push(added(family, 1, handshake(resolved.last().spec_text(), port)))
        } else {
            before
        }
    }
}

/// The rules that accept the handshake with a peer: an address is accepted in its
/// own family, and a host name at the addresses that it resolved to.
pub open spec fn peer_rules(family: Seq<char>, e: EndpointView, resolved: Seq<IpAddr>) -> Seq<Batch> {
    let port = decimal(e.port as nat);
    match address_of(e.host) {
        Some(ip) => if in_family(ip, family) {
            seq![added(family, 1, handshake(e.host, port))]
        } else {
            Seq::empty()
        },
        None => resolved_rules(family, port, resolved),
    }
}

/// The rule that accepts the handshake at one address.
fn handshake_rule(family: &str, address: &str, port: &str) -> (r: Vec<String>)
    ensures
        r.deep_view() == added(family@, 1, handshake(address@, port@)),
{
    let rule = ["-p", "udp", "-d", address, "--dport", port, "-j", "ACCEPT"];
    let words: &[&str] = &rule;
    assert(words.deep_view() =~= handshake(address@, port@));
    add_rule(family, 1, words)
}

/// The rules that accept the handshake with a peer, where `resolved` are the
/// addresses that its host name resolved to.
pub fn endpoint_rules(family: &str, endpoint: &Endpoint, resolved: &[IpAddr]) -> (r: Vec<Vec<String>>)
    ensures
        r.deep_view() == peer_rules(family@, endpoint@, resolved@),
{
    let port = crate::text::decimal_string(endpoint.port as u128);
    let mut r: Vec<Vec<String>> = Vec::new();
    assert(r.deep_view() =~= Seq::<Batch>::empty());
    match IpAddr::parse(endpoint.host.as_str()) {
        Some(ip) => {
            if of_family(ip, family) {
                r.push(handshake_rule(family, endpoint.host.as_str(), port.as_str()));
                assert(r.deep_view() =~= peer_rules(family@, endpoint@, resolved@));
            }
            r
        },
        None => {
            let mut i: usize = 0;
            assert(resolved@.take(0) =~= Seq::<IpAddr>::empty());
            while i < resolved.len()
                invariant
                    i <= resolved.len(),
                    port@ == decimal(endpoint@.port as nat),
                    r.deep_view() == resolved_rules(family@, port@, resolved@.take(i as int)),
                decreases resolved.len() - i,
            {
                proof {
                    let next = resolved@.take(i as int + 1);
                    assert(next.drop_last() =~= resolved@.take(i as int));
                    assert(next.last() == resolved@[i as int]);
                }
                let ip = resolved[i];
                if of_family(ip, family) {
                    let address = ip.text();
                    let ghost before = r.deep_view();
                    let batch = handshake_rule(family, address.as_str(), port.as_str());
                    let ghost view = batch.deep_view();
                    r.push(batch);
                    assert(r.deep_view() =~= before.push(view));
                }
                i += 1;
            }
            assert(resolved@.take(i as int) =~= resolved@);
            r
        },
    }
}

/// The addresses that a host name resolved to.
#[derive(Debug, Clone, PartialEq, Eq)]
pub struct ResolvedHost {
    pub host: String,
    pub addresses: Vec<IpAddr>,
}

/// The addresses that a host name resolved to, as text.
#[verifier::ext_equal]
pub struct HostView {
    pub host: Seq<char>,
    pub addresses: Seq<IpAddr>,
}

impl View for ResolvedHost {
    type V = HostView;

    open spec fn view(&self) -> HostView {
        HostView { host: self.host@, addresses: self.addresses@ }
    }
}

/// The views of a list of hosts.
pub open spec fn host_views(list: Seq<ResolvedHost>) -> Seq<HostView> {
    list.map_values(|h: ResolvedHost| h@)
}

/// The addresses of the first entry of `host` at or after `i`; none without one.
pub open spec fn addresses_of(hosts: Seq<HostView>, host: Seq<char>, i: int) -> Seq<IpAddr>
    decreases hosts.len() - i,
{
    if i < 0 || i >= hosts.len() {
        Seq::empty()
    } else if hosts[i].host == host {
        hosts[i].addresses
    } else {
        addresses_of(hosts, host, i + 1)
    }
}

/// The addresses that a host name resolved to; none where it is not listed.
fn lookup<'a>(hosts: &'a [ResolvedHost], host: &str) -> (r: Option<&'a ResolvedHost>)
    ensures
        match r {
            Some(h) => h.addresses@ == addresses_of(host_views(hosts@), host@, 0),
            None => addresses_of(host_views(hosts@), host@, 0).len() == 0,
        },
{
    let ghost views = host_views(hosts@);
    let mut i: usize = 0;
    while i < hosts.len()
        invariant
            i <= hosts.len(),
            views == host_views(hosts@),
            addresses_of(views, host@, 0) == addresses_of(views, host@, i as int),
        decreases hosts.len() - i,
    {
        assert(views[i as int] == hosts[i as int]@);
        if same(hosts[i].host.as_str(), host) {
            return Some(&hosts[i]);
        }
        i += 1;
    }
    None
}

/// The rules that accept the handshakes of peers.
pub open spec fn peers_rules(
    family: Seq<char>,
    endpoints: Seq<EndpointView>,
    hosts: Seq<HostView>,
) -> Seq<Batch>
    decreases endpoints.len(),
{
    if endpoints.len() == 0 {
        Seq::empty()
    } else {
        peers_rules(family, endpoints.drop_last(), hosts) + peer_rules(
            family,
            endpoints.last(),
            addresses_of(hosts, endpoints.last().host, 0),
        )
    }
}

/// The rules that accept the handshakes of all tunnels.
pub open spec fn tunnels_rules(
    family: Seq<char>,
    tunnels: Seq<TunnelView>,
    hosts: Seq<HostView>,
) -> Seq<Batch>
    decreases tunnels.len(),
{
    if tunnels.len() == 0 {
        Seq::empty()
    } else {
        tunnels_rules(family, tunnels.drop_last(), hosts) + peers_rules(
            family,
            tunnels.last().endpoints,
            hosts,
        )
    }
}

/// Whether a tunnel is up.
pub open spec fn any_active(tunnels: Seq<TunnelView>) -> bool {
    exists|i: int| 0 <= i < tunnels.len() && (#[trigger] tunnels[i]).is_active
}

/// The rules that accept what leaves through the tunnels that are up.
pub open spec fn interface_rules(family: Seq<char>, tunnels: Seq<TunnelView>) -> Seq<Batch>
    decreases tunnels.len(),
{
    if tunnels.len() == 0 {
        Seq::empty()
    } else {
        let before = interface_rules(family, tunnels.drop_last());
        let t = tunnels.last();
        if t.is_active && t.interface is Some {
            before.push(added(family, 0, accept_through(t.interface->0)))
        } else {
            before
        }
    }
}

/// The rules of name resolution: it is accepted while no tunnel is up, so that
/// peers can be found; while one is up it goes through the tunnel or nowhere.
pub open spec fn resolution_rules(family: Seq<char>, tunnels: Seq<TunnelView>) -> Seq<Batch> {
    if any_active(tunnels) {
        interface_rules(family, tunnels) + seq![
            added(family, 1, resolution("udp"@, "DROP"@)),
            added(family, 1, resolution("tcp"@, "DROP"@)),
        ]
    } else {
        seq![
            added(family, 1, resolution("udp"@, "ACCEPT"@)),
            added(family, 1, resolution("tcp"@, "ACCEPT"@)),
        ]
    }
}

/// The rules of the lockdown for one family.
pub open spec fn family_rules(
    family: Seq<char>,
    tunnels: Seq<TunnelView>,
    hosts: Seq<HostView>,
) -> Seq<Batch> {
    seq![added(family, 0, accept_through("lo"@))] + resolution_rules(family, tunnels) + local_rules(
        family,
    ) + tunnels_rules(family, tunnels, hosts) + seq![added(family, 10, drop_all())]
}

/// The rule that accepts what leaves through an interface.
fn interface_rule(family: &str, interface: &str) -> (r: Vec<String>)
    ensures
        r.deep_view() == added(family@, 0, accept_through(interface@)),
{
    let rule = ["-o", interface, "-j", "ACCEPT"];
    let words: &[&str] = &rule;
    assert(words.deep_view() =~= accept_through(interface@));
    add_rule(family, 0, words)
}

/// The rule that decides over name resolution by one protocol.
fn resolution_rule(family: &str, protocol: &str, target: &str) -> (r: Vec<String>)
    ensures
        r.deep_view() == added(family@, 1, resolution(protocol@, target@)),
{
    let rule = ["-p", protocol, "--dport", "53", "-j", target];
    let words: &[&str] = &rule;
    assert(words.deep_view() =~= resolution(protocol@, target@));
    add_rule(family, 1, words)
}

/// The rule that drops everything, at the given priority.
pub fn drop_rule(family: &str, priority: i32) -> (r: Vec<String>)
    ensures
        r.deep_view() == added(family@, priority as int, drop_all()),
{
    let rule = ["-j", "DROP"];
    let words: &[&str] = &rule;
    assert(words.deep_view() =~= drop_all());
    add_rule(family, priority, words)
}

/// Whether a tunnel is up.
fn some_active(tunnels: &[WireguardTunnel]) -> (r: bool)
    ensures
        r == any_active(tunnel_views(tunnels@)),
{
    let ghost views = tunnel_views(tunnels@);
    let mut i: usize = 0;
    while i < tunnels.len()
        invariant
            i <= tunnels.len(),
            views == tunnel_views(tunnels@),
            forall|k: int| 0 <= k < i ==> !(#[trigger] views[k]).is_active,
        decreases tunnels.len() - i,
    {
        assert(views[i as int].is_active == tunnels[i as int].is_active);
        if tunnels[i].is_active {
            return true;
        }
        i += 1;
    }
    false
}

/// Append the rules of name resolution.
fn push_resolution(out: &mut Vec<Vec<String>>, family: &str, tunnels: &[WireguardTunnel])
    ensures
        final(out).deep_view() == old(out).deep_view() + resolution_rules(
            family@,
            tunnel_views(tunnels@),
        ),
{
    let ghost before = out.deep_view();
    let ghost views = tunnel_views(tunnels@);
    if !some_active(tunnels) {
        let udp = resolution_rule(family, "udp", "ACCEPT");
        let tcp = resolution_rule(family, "tcp", "ACCEPT");
        out.push(udp);
        out.push(tcp);
        assert(out.deep_view() =~= before + resolution_rules(family@, views));
        return ;
    }
    let mut i: usize = 0;
    assert(views.take(0) =~= Seq::<TunnelView>::empty());
    assert(before + interface_rules(family@, views.take(0)) =~= before);
    while i < tunnels.len()
        invariant
            i <= tunnels.len(),
            views == tunnel_views(tunnels@),
            out.deep_view() == before + interface_rules(family@, views.take(i as int)),
        decreases tunnels.len() - i,
    {
        proof {
            let next = views.take(i as int + 1);
            assert(next.drop_last() =~= views.take(i as int));
            assert(next.last() == tunnels[i as int]@);
        }
        if tunnels[i].is_active {
            match &tunnels[i].interface {
                Some(interface) => {
                    let ghost now = out.deep_view();
                    let rule = interface_rule(family, interface.as_str());
                    let ghost view = rule.deep_view();
                    out.push(rule);
                    assert(out.deep_view() =~= now.push(view));
                },
                None => {},
            }
        }
        i += 1;
        assert(out.deep_view() =~= before + interface_rules(family@, views.take(i as int)));
    }
    assert(views.take(i as int) =~= views);
    let udp = resolution_rule(family, "udp", "DROP");
    let tcp = resolution_rule(family, "tcp", "DROP");
    let ghost now = out.deep_view();
    let ghost (a, b) = (udp.deep_view(), tcp.deep_view());
    out.push(udp);
    out.push(tcp);
    assert(out.deep_view() =~= now.push(a).push(b));
    assert(any_active(views));
    assert(out.deep_view() =~= before + resolution_rules(family@, views));
}

/// Append the rules that accept the handshakes of one tunnel.
fn push_peers(
    out: &mut Vec<Vec<String>>,
    family: &str,
    endpoints: &Vec<Endpoint>,
    hosts: &[ResolvedHost],
)
    ensures
        final(out).deep_view() == old(out).deep_view() + peers_rules(
            family@,
            endpoint_views(endpoints@),
            host_views(hosts@),
        ),
{
    let ghost before = out.deep_view();
    let ghost views = endpoint_views(endpoints@);
    let ghost known = host_views(hosts@);
    let mut i: usize = 0;
    assert(views.take(0) =~= Seq::<EndpointView>::empty());
    assert(before + peers_rules(family@, views.take(0), known) =~= before);
    while i < endpoints.len()
        invariant
            i <= endpoints.len(),
            views == endpoint_views(endpoints@),
            known == host_views(hosts@),
            out.deep_view() == before + peers_rules(family@, views.take(i as int), known),
        decreases endpoints.len() - i,
    {
        proof {
            let next = views.take(i as int + 1);
            assert(next.drop_last() =~= views.take(i as int));
            assert(next.last() == endpoints[i as int]@);
        }
        let e = &endpoints[i];
        let none: Vec<IpAddr> = Vec::new();
        let addresses = match lookup(hosts, e.host.as_str()) {
            Some(h) => h.addresses.as_slice(),
            None => none.as_slice(),
        };
        assert(addresses@ =~= addresses_of(known, e@.host, 0));
        let mut rules = endpoint_rules(family, e, addresses);
        let ghost now = out.deep_view();
        let ghost more = rules.deep_view();
        out.append(&mut rules);
        assert(out.deep_view() =~= now + more);
        i += 1;
        assert(out.deep_view() =~= before + peers_rules(family@, views.take(i as int), known));
    }
    assert(views.take(i as int) =~= views);
}

/// The rules of the lockdown for one family: what stays allowed comes first, and
/// everything else is dropped.
pub fn lockdown_family_batches(family: &str, tunnels: &[WireguardTunnel], hosts: &[ResolvedHost]) -> (r:
    Vec<Vec<String>>)
    ensures
        r.deep_view() == family_rules(family@, tunnel_views(tunnels@), host_views(hosts@)),
{
    let ghost views = tunnel_views(tunnels@);
    let ghost known = host_views(hosts@);
    let mut out: Vec<Vec<String>> = Vec::new();
    out.push(interface_rule(family, "lo"));
    let ghost first = seq![added(family@, 0, accept_through("lo"@))];
    assert(out.deep_view() =~= first);
    push_resolution(&mut out, family, tunnels);
    let ghost second = out.deep_view();
    let mut local = local_network_batches(family);
    let ghost nets = local.deep_view();
    out.append(&mut local);
    assert(out.deep_view() =~= second + nets);
    let ghost third = out.deep_view();
    let mut i: usize = 0;
    assert(views.take(0) =~= Seq::<TunnelView>::empty());
    assert(third + tunnels_rules(family@, views.take(0), known) =~= third);
    while i < tunnels.len()
        invariant
            i <= tunnels.len(),
            views == tunnel_views(tunnels@),
            known == host_views(hosts@),
            out.deep_view() == third + tunnels_rules(family@, views.take(i as int), known),
        decreases tunnels.len() - i,
    {
        proof {
            let next = views.take(i as int + 1);
            assert(next.drop_last() =~= views.take(i as int));
            assert(next.last() == tunnels[i as int]@);
        }
        push_peers(&mut out, family, &tunnels[i].endpoints, hosts);
        i += 1;
        assert(out.deep_view() =~= third + tunnels_rules(family@, views.take(i as int), known));
    }
    assert(views.take(i as int) =~= views);
    let ghost fourth = out.deep_view();
    let last = drop_rule(family, 10);
    let ghost closing = last.deep_view();
    out.push(last);
    assert(out.deep_view() =~= fourth.push(closing));
    assert(out.deep_view() =~= family_rules(family@, views, known));
    out
}

/// All rules of the lockdown.
pub open spec fn lockdown_rules(tunnels: Seq<TunnelView>, hosts: Seq<HostView>) -> Seq<Batch> {
    family_rules("ipv4"@, tunnels, hosts) + family_rules("ipv6"@, tunnels, hosts)
}

/// All rules of the lockdown, of both families.
fn rule_batches(tunnels: &[WireguardTunnel], hosts: &[ResolvedHost]) -> (r: Vec<Vec<String>>)
    ensures
        r.deep_view() == lockdown_rules(tunnel_views(tunnels@), host_views(hosts@)),
{
    let mut r = lockdown_family_batches("ipv4", tunnels, hosts);
    let ghost a = r.deep_view();
    let mut v6 = lockdown_family_batches("ipv6", tunnels, hosts);
    let ghost b = v6.deep_view();
    r.append(&mut v6);
    assert(r.deep_view() =~= a + b);
    r
}

/// The command lines that install the lockdown: the rules of both families, then
/// the reload that makes them live.
pub fn lockdown_enable_batches(tunnels: &[WireguardTunnel], hosts: &[ResolvedHost]) -> (r: Vec<
    Vec<String>,
>)
    ensures
        r.deep_view() == lockdown_rules(tunnel_views(tunnels@), host_views(hosts@)).push(reload()),
{
    let mut r = rule_batches(tunnels, hosts);
    let ghost rules = r.deep_view();
    r.push(reload_batch());
    assert(r.deep_view() =~= rules.push(reload()));
    r
}

} // verus!
