//! The peers of a tunnel: where it connects out to, and through what interface.

use vstd::prelude::*;
use vstd::string::*;

use crate::text::{after_each, chars_of, cut, cut_last, decimal, is_space, lemma_decimal_value, number_value, opt_text, parse_number, pieces_after, rsplit_once, same, space, split_once, strip_prefix, trim, trimmed};

verus! {

/// A peer that a tunnel connects out to.
#[derive(Debug, Clone, PartialEq, Eq)]
pub struct Endpoint {
    pub host: String,
    pub port: u16,
}

/// A peer, as text and number.
#[verifier::ext_equal]
pub struct EndpointView {
    pub host: Seq<char>,
    pub port: u16,
}

impl View for Endpoint {
    type V = EndpointView;

    open spec fn view(&self) -> EndpointView {
        EndpointView { host: self.host@, port: self.port }
    }
}

/// The views of a list of peers.
pub open spec fn endpoint_views(list: Seq<Endpoint>) -> Seq<EndpointView> {
    list.map_values(|e: Endpoint| e@)
}

/// What the lockdown needs of a profile: the interface of the tunnel, the peers
/// that its handshake must reach, and whether the profile is up.
#[derive(Debug, Clone, PartialEq, Eq)]
pub struct WireguardTunnel {
    pub interface: Option<String>,
    pub endpoints: Vec<Endpoint>,
    pub is_active: bool,
}

/// What the lockdown needs of a profile, as texts.
#[verifier::ext_equal]
pub struct TunnelView {
    pub interface: Option<Seq<char>>,
    pub endpoints: Seq<EndpointView>,
    pub is_active: bool,
}

impl View for WireguardTunnel {
    type V = TunnelView;

    open spec fn view(&self) -> TunnelView {
        TunnelView {
            interface: opt_text(self.interface),
            endpoints: endpoint_views(self.endpoints@),
            is_active: self.is_active,
        }
    }
}

/// The views of a list of tunnels.
pub open spec fn tunnel_views(list: Seq<WireguardTunnel>) -> Seq<TunnelView> {
    list.map_values(|t: WireguardTunnel| t@)
}

impl Default for WireguardTunnel {
    fn default() -> (r: WireguardTunnel)
        ensures
            r.interface is None,
            r.endpoints@.len() == 0,
            !r.is_active,
    {
        WireguardTunnel { interface: None, endpoints: Vec::new(), is_active: false }
    }
}

/// The view of an optional peer.
pub open spec fn opt_endpoint(o: Option<Endpoint>) -> Option<EndpointView> {
    match o {
        Some(e) => Some(e@),
        None => None,
    }
}

/// A name that NetworkManager reports, where it reports one.
pub open spec fn set_value(value: Seq<char>) -> Option<Seq<char>> {
    let t = trimmed(value);
    if t.len() == 0 || t == "--"@ {
        None
    } else {
        Some(t)
    }
}

/// The name of an interface that NetworkManager reports, where it reports one.
pub fn parse_interface_name(value: &str) -> (r: Option<String>)
    ensures
        opt_text(r) == set_value(value@),
{
    let t = trim(value);
    if t.is_empty() || same(t, "--") {
        None
    } else {
        Some(t.to_owned())
    }
}

/// `s` with each backslash taken away and the character behind it kept; a
/// backslash at the end is dropped.
pub open spec fn unescaped(s: Seq<char>) -> Seq<char>
    decreases s.len(),
{
    if s.len() == 0 {
        Seq::empty()
    } else if s[0] == '\\' {
        if s.len() == 1 {
            Seq::empty()
        } else {
            seq![s[1]] + unescaped(s.skip(2))
        }
    } else {
        seq![s[0]] + unescaped(s.skip(1))
    }
}

/// A field of terse output without its escapes.
pub fn unescape_nmcli(token: &str) -> (r: String)
    ensures
        r@ == unescaped(token@),
{
    let cs = chars_of(token);
    let mut out = String::new();
    let mut i: usize = 0;
    assert(cs@.skip(0) =~= cs@);
    assert(out@ + unescaped(token@) =~= unescaped(token@));
    while i < cs.len()
        invariant
            i <= cs.len(),
            cs@ == token@,
            out@ + unescaped(cs@.skip(i as int)) == unescaped(token@),
        decreases cs.len() - i,
    {
        let ghost rest = cs@.skip(i as int);
        let ghost before = out@;
        if cs[i] == '\\' {
            if i + 1 < cs.len() {
                proof {
                    assert(rest.skip(2) =~= cs@.skip(i as int + 2));
                    assert(before + (seq![rest[1]] + unescaped(cs@.skip(i as int + 2)))
                        =~= before.push(rest[1]) + unescaped(cs@.skip(i as int + 2)));
                }
                out.push(cs[i + 1]);
                i += 2;
            } else {
                assert(cs@.skip(i as int + 1) =~= Seq::<char>::empty());
                i += 1;
            }
        } else {
            proof {
                assert(rest.skip(1) =~= cs@.skip(i as int + 1));
                assert(before + (seq![rest[0]] + unescaped(cs@.skip(i as int + 1)))
                    =~= before.push(rest[0]) + unescaped(cs@.skip(i as int + 1)));
            }
            out.push(cs[i]);
            i += 1;
        }
    }
    assert(cs@.skip(i as int) =~= Seq::<char>::empty());
    assert(out@ + Seq::<char>::empty() =~= out@);
    out
}

/// An escaped field reads back.
pub proof fn law_unescaping(f: Seq<char>)
    ensures
        unescaped(crate::nm::profiles::escaped(f)) == f,
    decreases f.len(),
{
    let e = crate::nm::profiles::escaped(f);
    if f.len() > 0 {
        let t = f.skip(1);
        law_unescaping(t);
        if f[0] == ':' || f[0] == '\\' {
            assert(e.skip(2) =~= crate::nm::profiles::escaped(t));
        } else {
            assert(e.skip(1) =~= crate::nm::profiles::escaped(t));
        }
        assert(seq![f[0]] + t =~= f);
    }
}

/// The host and the port text of a peer: the host may be an IPv6 address in
/// brackets; otherwise the port follows the last colon.
pub open spec fn host_port_of(token: Seq<char>) -> Option<(Seq<char>, Seq<char>)> {
    match crate::text::after_prefix(token, "["@) {
        Some(rest) => match cut(rest, ']') {
            Some((host, after)) => match crate::text::after_prefix(after, ":"@) {
                Some(port) => Some((host, port)),
                None => None,
            },
            None => None,
        },
        None => cut_last(token, ':'),
    }
}

/// The peer that a text denotes.
pub open spec fn endpoint_of(token: Seq<char>) -> Option<EndpointView> {
    match host_port_of(token) {
        Some((host, port)) => match number_value(port, 65535) {
            Ok(n) => if host.len() > 0 {
                Some(EndpointView { host, port: n as u16 })
            } else {
                None
            },
            Err(_) => None,
        },
        None => None,
    }
}

/// The host and the port text of a peer.
fn split_host_port<'a>(token: &'a str) -> (r: Option<(&'a str, &'a str)>)
    ensures
        crate::text::pair_view(r) == host_port_of(token@),
{
    match strip_prefix(token, "[") {
        Some(rest) => match split_once(rest, ']') {
            Some((host, after)) => match strip_prefix(after, ":") {
                Some(port) => Some((host, port)),
                None => None,
            },
            None => None,
        },
        None => rsplit_once(token, ':'),
    }
}

/// The peer that a text denotes.
pub fn parse_endpoint(token: &str) -> (r: Option<Endpoint>)
    ensures
        opt_endpoint(r) == endpoint_of(token@),
{
    match split_host_port(token) {
        Some((host, port)) => {
            if host.is_empty() {
                return None;
            }
            match parse_number(port, 65535) {
                Ok(n) => Some(Endpoint { host: host.to_owned(), port: n as u16 }),
                Err(_) => None,
            }
        },
        None => None,
    }
}

/// Whether `c` ends the address of a peer.
pub open spec fn ends_address(c: char) -> bool {
    c == ' ' || c == '\t' || c == '\n' || c == '\r' || c == ',' || c == ';'
}

/// `s` without the white space and the equals signs that it starts with.
pub open spec fn after_marker(s: Seq<char>) -> Seq<char>
    decreases s.len(),
{
    if s.len() > 0 && (is_space(s[0]) || s[0] == '=') {
        after_marker(s.skip(1))
    } else {
        s
    }
}

/// The length of the address that `s` starts with.
pub open spec fn address_end(s: Seq<char>) -> int
    decreases s.len(),
{
    if s.len() == 0 || ends_address(s[0]) {
        0
    } else {
        1 + address_end(s.skip(1))
    }
}

/// The address that follows a marker.
pub open spec fn address_token(segment: Seq<char>) -> Seq<char> {
    let s = after_marker(segment);
    s.take(address_end(s))
}

/// The address that follows a marker.
fn token_of<'a>(segment: &'a str) -> (r: &'a str)
    ensures
        r@ == address_token(segment@),
{
    let cs = chars_of(segment);
    let mut a: usize = 0;
    assert(cs@.skip(0) =~= cs@);
    while a < cs.len() && (space(cs[a]) || cs[a] == '=')
        invariant
            a <= cs.len(),
            cs@ == segment@,
            after_marker(cs@.skip(a as int)) == after_marker(segment@),
        decreases cs.len() - a,
    {
        assert(cs@.skip(a as int).skip(1) =~= cs@.skip(a as int + 1));
        a += 1;
    }
    let ghost s = cs@.skip(a as int);
    let mut b: usize = a;
    while b < cs.len() && !(cs[b] == ' ' || cs[b] == '\t' || cs[b] == '\n' || cs[b] == '\r' || cs[b]
        == ',' || cs[b] == ';')
        invariant
            a <= b <= cs.len(),
            s == cs@.skip(a as int),
            address_end(s) == (b - a) + address_end(cs@.skip(b as int)),
        decreases cs.len() - b,
    {
        assert(cs@.skip(b as int).skip(1) =~= cs@.skip(b as int + 1));
        b += 1;
    }
    let r = segment.substring_char(a, b);
    assert(r@ =~= s.take(b - a));
    r
}

/// The peers that segments denote; segments that denote none are left out.
pub open spec fn endpoints_of(segments: Seq<Seq<char>>) -> Seq<EndpointView>
    decreases segments.len(),
{
    if segments.len() == 0 {
        Seq::empty()
    } else {
        let before = endpoints_of(segments.drop_last());
        match endpoint_of(unescaped(address_token(segments.last()))) {
            Some(e) => before.push(e),
            None => before,
        }
    }
}

/// Every peer that a description of peers names behind the word `endpoint`.
pub fn extract_endpoints(text: &str) -> (r: Vec<Endpoint>)
    ensures
        endpoint_views(r@) == endpoints_of(after_each(text@, "endpoint"@)),
{
    let segments = pieces_after(text, "endpoint");
    let ghost all = segments.deep_view();
    let mut r: Vec<Endpoint> = Vec::new();
    let mut i: usize = 0;
    assert(endpoint_views(r@) =~= Seq::<EndpointView>::empty());
    while i < segments.len()
        invariant
            i <= segments.len(),
            all == segments.deep_view(),
            endpoint_views(r@) == endpoints_of(all.take(i as int)),
        decreases segments.len() - i,
    {
        proof {
            let next = all.take(i as int + 1);
            assert(next.drop_last() =~= all.take(i as int));
            assert(next.last() == segments[i as int]@);
        }
        let token = unescape_nmcli(token_of(segments[i]));
        match parse_endpoint(token.as_str()) {
            Some(e) => {
                let ghost before = endpoint_views(r@);
                let ghost view = e@;
                r.push(e);
                assert(endpoint_views(r@) =~= before.push(view));
            },
            None => {},
        }
        i += 1;
    }
    assert(all.take(i as int) =~= all);
    r
}

/// What the lockdown needs of a profile, from what `nmcli` reports of its
/// interface and of its peers.
pub fn tunnel_from(interface: &str, peers: &str, is_active: bool) -> (r: WireguardTunnel)
    ensures
        opt_text(r.interface) == set_value(interface@),
        endpoint_views(r.endpoints@) == endpoints_of(after_each(peers@, "endpoint"@)),
        r.is_active == is_active,
{
    WireguardTunnel {
        interface: parse_interface_name(interface),
        endpoints: extract_endpoints(peers),
        is_active,
    }
}

/// Whether a profile with the given IPv6 method carries IPv6.
pub open spec fn carries_ipv6(method: Seq<char>) -> bool {
    let t = trimmed(method);
    t.len() > 0 && t != "disabled"@ && t != "ignore"@ && t != "--"@
}

/// Whether a profile with the given IPv6 method carries IPv6.
pub fn profile_has_ipv6(method: &str) -> (r: bool)
    ensures
        r == carries_ipv6(method@),
{
    let t = trim(method);
    !t.is_empty() && !same(t, "disabled") && !same(t, "ignore") && !same(t, "--")
}

/// The first of the addresses that a profile has.
pub open spec fn first_address(output: Seq<char>) -> Option<Seq<char>> {
    let first = trimmed(crate::text::split_on(output, ',')[0]);
    if first.len() == 0 {
        None
    } else {
        Some(first)
    }
}

/// The address of the tunnel itself: the first of the addresses that a profile
/// has.
pub fn tunnel_address(output: &str) -> (r: Option<String>)
    ensures
        opt_text(r) == first_address(output@),
{
    let parts = crate::text::split(output, ',');
    proof {
        crate::text::lemma_first_at(output@, ',');
        assert(parts.deep_view().len() > 0);
        assert(parts.deep_view()[0] == parts[0]@);
    }
    let first = trim(parts[0]);
    if first.is_empty() {
        None
    } else {
        Some(first.to_owned())
    }
}

/// The resolvers of a tunnel, for display.
pub fn tunnel_dns(output: &str) -> (r: Option<String>)
    ensures
        opt_text(r) == (match set_value(output@) {
            Some(t) => Some(crate::text::with_char_replaced(t, ',', ", "@)),
            None => None,
        }),
{
    let t = trim(output);
    if t.is_empty() || same(t, "--") {
        None
    } else {
        Some(crate::text::replace_char(t, ',', ", "))
    }
}

/// A peer reads back from its host, a colon and its port; where the host holds
/// colons, it stands in brackets.
pub proof fn law_endpoint_reads_back(host: Seq<char>, port: u16)
    requires
        host.len() > 0,
    ensures
        host[0] != '[' ==> endpoint_of(host + seq![':'] + decimal(port as nat)) == Some(
            EndpointView { host, port },
        ),
        !host.contains(']') ==> endpoint_of(
            seq!['['] + host + seq![']', ':'] + decimal(port as nat),
        ) == Some(EndpointView { host, port }),
{
    let d = decimal(port as nat);
    lemma_decimal_value(port as nat, 65535);
    reveal_strlit("[");
    reveal_strlit(":");
    let plain = host + seq![':'] + d;
    if host[0] != '[' {
        assert(plain.take(1)[0] != "["@[0]);
        let n = host.len() as int;
        assert(plain[n] == ':');
        assert forall|k: int| n < k < plain.len() implies plain[k] != ':' by {
            assert(plain[k] == d[k - n - 1]);
        }
        crate::text::lemma_last_at(plain, ':');
        assert(crate::text::last_at(plain, ':') == n);
        assert(plain.take(n) =~= host);
        assert(plain.skip(n + 1) =~= d);
    }
    if !host.contains(']') {
        let text = seq!['['] + host + seq![']', ':'] + d;
        let rest = host + seq![']', ':'] + d;
        assert(text.take(1) =~= "["@);
        assert(text.skip(1) =~= rest);
        let n = host.len() as int;
        assert forall|k: int| 0 <= k < n implies rest[k] != ']' by {
            assert(rest[k] == host[k]);
            assert(host.contains(host[k]));
        }
        crate::text::lemma_first_at_is(rest, ']', n);
        assert(rest.take(n) =~= host);
        let after = rest.skip(n + 1);
        assert(after =~= seq![':'] + d);
        assert(after.take(1) =~= ":"@);
        assert(after.skip(1) =~= d);
    }
}

/// Whether characters may stand between a marker and an address.
pub open spec fn is_gap(s: Seq<char>) -> bool {
    forall|i: int| 0 <= i < s.len() ==> is_space(#[trigger] s[i]) || s[i] == '='
}

proof fn lemma_after_gap(gap: Seq<char>, s: Seq<char>)
    requires
        is_gap(gap),
        s.len() > 0 ==> !is_space(s[0]) && s[0] != '=',
    ensures
        after_marker(gap + s) == s,
    decreases gap.len(),
{
    if gap.len() > 0 {
        assert((gap + s)[0] == gap[0]);
        assert((gap + s).skip(1) =~= gap.skip(1) + s);
        assert forall|i: int| 0 <= i < gap.skip(1).len() implies is_space(
            #[trigger] gap.skip(1)[i],
        ) || gap.skip(1)[i] == '=' by {
            assert(gap.skip(1)[i] == gap[i + 1]);
        }
        lemma_after_gap(gap.skip(1), s);
    } else {
        assert(gap + s =~= s);
    }
}

proof fn lemma_address_end(token: Seq<char>, rest: Seq<char>)
    requires
        forall|i: int| 0 <= i < token.len() ==> !ends_address(#[trigger] token[i]),
        rest.len() > 0 ==> ends_address(rest[0]),
    ensures
        address_end(token + rest) == token.len(),
    decreases token.len(),
{
    let s = token + rest;
    if token.len() > 0 {
        assert(s[0] == token[0]);
        assert(s.skip(1) =~= token.skip(1) + rest);
        assert forall|i: int| 0 <= i < token.skip(1).len() implies !ends_address(
            #[trigger] token.skip(1)[i],
        ) by {
            assert(token.skip(1)[i] == token[i + 1]);
        }
        lemma_address_end(token.skip(1), rest);
    } else {
        assert(s =~= rest);
    }
}

/// The address that follows a marker is what stands behind white space and equals
/// signs, up to white space, a comma or a semicolon.
pub proof fn law_address_behind_a_marker(gap: Seq<char>, token: Seq<char>, rest: Seq<char>)
    requires
        is_gap(gap),
        token.len() > 0,
        !is_space(token[0]),
        token[0] != '=',
        forall|i: int| 0 <= i < token.len() ==> !ends_address(#[trigger] token[i]),
        rest.len() > 0 ==> ends_address(rest[0]),
    ensures
        address_token(gap + token + rest) == token,
{
    assert((token + rest)[0] == token[0]);
    lemma_after_gap(gap, token + rest);
    assert(gap + token + rest =~= gap + (token + rest));
    lemma_address_end(token, rest);
    assert((token + rest).take(token.len() as int) =~= token);
}

/// The peers of a description are exactly those that stand behind its markers, in
/// their order; a segment that holds none is passed over.
pub proof fn law_every_peer_is_found(segments: Seq<Seq<char>>, e: EndpointView)
    ensures
        endpoints_of(segments).contains(e) <==> exists|i: int|
            0 <= i < segments.len() && endpoint_of(unescaped(address_token(#[trigger] segments[i])))
                == Some(e),
        endpoints_of(segments).len() <= segments.len(),
    decreases segments.len(),
{
    if segments.len() > 0 {
        let less = segments.drop_last();
        let n = segments.len() - 1;
        let before = endpoints_of(less);
        let all = endpoints_of(segments);
        law_every_peer_is_found(less, e);
        assert(forall|i: int| 0 <= i < n ==> less[i] == segments[i]);
        if let Some(last) = endpoint_of(unescaped(address_token(segments[n]))) {
            assert(all == before.push(last));
            if before.contains(e) {
                let k = choose|k: int| 0 <= k < before.len() && before[k] == e;
                assert(all[k] == e);
            }
            if last == e {
                assert(all[before.len() as int] == e);
            }
            if all.contains(e) && last != e {
                let k = choose|k: int| 0 <= k < all.len() && all[k] == e;
                assert(before[k] == e);
            }
        }
        if before.contains(e) {
            let i = choose|i: int|
                0 <= i < less.len() && endpoint_of(unescaped(address_token(#[trigger] less[i])))
                    == Some(e);
            assert(segments[i] == less[i]);
        }
        if exists|i: int|
            0 <= i < segments.len() && endpoint_of(unescaped(address_token(#[trigger] segments[i])))
                == Some(e) {
            let i = choose|i: int|
                0 <= i < segments.len() && endpoint_of(
                    unescaped(address_token(#[trigger] segments[i])),
                ) == Some(e);
            if i < n {
                assert(less[i] == segments[i]);
            }
        }
    }
}

} // verus!
