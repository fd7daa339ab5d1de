//! The host names of the peers, which the rules of the lockdown need resolved.

use vstd::prelude::*;
use vstd::string::*;

use crate::firewall::rules::{host_views, HostView, ResolvedHost};
use crate::ip::{address_of, IpAddr};
use crate::nm::endpoints::{endpoint_views, tunnel_views, Endpoint, EndpointView, TunnelView, WireguardTunnel};
use crate::nm::resolve::{host_of, law_firsts, lookup_run, resolve_domain_ips, Lookups};
use crate::record::{lemma_since, lemma_since_none, since, Recorder};
use crate::text::{same, trimmed};

verus! {

/// `names` with the hosts of peers that are no addresses, each where it appears
/// first.
pub open spec fn with_hosts(names: Seq<Seq<char>>, peers: Seq<EndpointView>) -> Seq<Seq<char>>
    decreases peers.len(),
{
    if peers.len() == 0 {
        names
    } else {
        let before = with_hosts(names, peers.drop_last());
        let host = peers.last().host;
        if address_of(host) is Some || before.contains(host) {
            before
        } else {
            before.push(host)
        }
    }
}

/// The host names among the peers of tunnels, each where it appears first.
pub open spec fn host_names(tunnels: Seq<TunnelView>) -> Seq<Seq<char>>
    decreases tunnels.len(),
{
    if tunnels.len() == 0 {
        Seq::empty()
    } else {
        with_hosts(host_names(tunnels.drop_last()), tunnels.last().endpoints)
    }
}

/// Whether a list holds a name.
fn lists(names: &Vec<String>, name: &str) -> (r: bool)
    ensures
        r == names.deep_view().contains(name@),
{
    let mut i: usize = 0;
    while i < names.len()
        invariant
            i <= names.len(),
            forall|k: int| 0 <= k < i ==> names.deep_view()[k] != name@,
        decreases names.len() - i,
    {
        assert(names.deep_view()[i as int] == names[i as int]@);
        if same(names[i].as_str(), name) {
            return true;
        }
        i += 1;
    }
    false
}

/// Add the hosts of peers that are no addresses.
fn add_hosts(names: &mut Vec<String>, peers: &Vec<Endpoint>)
    ensures
        final(names).deep_view() == with_hosts(old(names).deep_view(), endpoint_views(peers@)),
{
    let ghost first = names.deep_view();
    let ghost all = endpoint_views(peers@);
    let mut i: usize = 0;
    assert(all.take(0) =~= Seq::<EndpointView>::empty());
    while i < peers.len()
        invariant
            i <= peers.len(),
            all == endpoint_views(peers@),
            names.deep_view() == with_hosts(first, all.take(i as int)),
        decreases peers.len() - i,
    {
        let host = peers[i].host.as_str();
        let ghost now = names.deep_view();
        proof {
            let next = all.take(i as int + 1);
            assert(next.drop_last() =~= all.take(i as int));
            assert(next.last() == peers[i as int]@);
        }
        if IpAddr::parse(host).is_none() && !lists(names, host) {
            names.push(host.to_owned());
            assert(names.deep_view() =~= now.push(host@));
        }
        i += 1;
    }
    assert(all.take(i as int) =~= all);
}

/// The host names that have to be resolved: those of the peers that are no
/// addresses, each once.
pub fn hosts_to_resolve(tunnels: &[WireguardTunnel]) -> (r: Vec<String>)
    ensures
        r.deep_view() == host_names(tunnel_views(tunnels@)),
{
    let ghost all = tunnel_views(tunnels@);
    let mut r: Vec<String> = Vec::new();
    let mut i: usize = 0;
    assert(all.take(0) =~= Seq::<TunnelView>::empty());
    assert(r.deep_view() =~= Seq::<Seq<char>>::empty());
    while i < tunnels.len()
        invariant
            i <= tunnels.len(),
            all == tunnel_views(tunnels@),
            r.deep_view() == host_names(all.take(i as int)),
        decreases tunnels.len() - i,
    {
        proof {
            let next = all.take(i as int + 1);
            assert(next.drop_last() =~= all.take(i as int));
            assert(next.last() == tunnels[i as int]@);
        }
        add_hosts(&mut r, &tunnels[i].endpoints);
        i += 1;
    }
    assert(all.take(i as int) =~= all);
    r
}

/// How many lookups are made for a name.
pub open spec fn lookups_for(name: Seq<char>) -> int {
    if host_of(name) is Some {
        1
    } else {
        0
    }
}

/// Whether the lookups resolve names one after the other to `r`.
pub open spec fn hosts_run(t: Lookups, names: Seq<Seq<char>>, r: Seq<HostView>) -> bool
    decreases names.len(),
{
    if names.len() == 0 {
        t.len() == 0 && r.len() == 0
    } else {
        let n = t.len() - lookups_for(names.last());
        &&& n >= 0
        &&& r.len() > 0
        &&& r.last().host == names.last()
        &&& lookup_run(t.skip(n), names.last(), r.last().addresses)
        &&& hosts_run(t.take(n), names.drop_last(), r.drop_last())
    }
}

/// What the host names of the peers resolve to. `lookup` looks a name up.
pub fn resolve_hosts<L: Fn(&str) -> Option<Vec<IpAddr>>>(
    tunnels: &[WireguardTunnel],
    lookup: &mut Recorder<str, Option<Vec<IpAddr>>, L>,
) -> (r: Vec<ResolvedHost>)
    ensures
        final(lookup).follows(*old(lookup)),
        hosts_run(
            since(old(lookup).calls(), final(lookup).calls()),
            host_names(tunnel_views(tunnels@)),
            host_views(r@),
        ),
{
    let names = hosts_to_resolve(tunnels);
    let ghost start = lookup.calls();
    let ghost all = names.deep_view();
    let mut r: Vec<ResolvedHost> = Vec::new();
    let mut i: usize = 0;
    proof {
        lemma_since_none(start);
    }
    while i < names.len()
        invariant
            i <= names.len(),
            all == names.deep_view(),
            start == old(lookup).calls(),
            lookup.follows(*old(lookup)),
            hosts_run(since(start, lookup.calls()), all.take(i as int), host_views(r@)),
        decreases names.len() - i,
    {
        let ghost before = lookup.calls();
        let ghost (t, known) = (since(start, before), host_views(r@));
        let name = names[i].as_str();
        let addresses = resolve_domain_ips(name, lookup);
        let entry = ResolvedHost { host: name.to_owned(), addresses };
        let ghost view = entry@;
        r.push(entry);
        proof {
            lemma_since(start, before, lookup.calls());
            let u = since(start, lookup.calls());
            let n = t.len() as int;
            let next = all.take(i as int + 1);
            assert(next.drop_last() =~= all.take(i as int));
            assert(next.last() == name@);
            assert(u.take(n) =~= t);
            assert(u.skip(n) =~= since(before, lookup.calls()));
            assert(host_views(r@) =~= known.push(view));
            assert(host_views(r@).drop_last() =~= known);
            assert(hosts_run(u.take(n), next.drop_last(), host_views(r@).drop_last()));
            assert(lookup_run(u.skip(n), next.last(), host_views(r@).last().addresses));
            assert(hosts_run(u, next, host_views(r@)));
        }
        i += 1;
    }
    assert(all.take(i as int) =~= all);
    r
}

/// Host names with those of more peers.
proof fn lemma_with_hosts(names: Seq<Seq<char>>, peers: Seq<EndpointView>, name: Seq<char>)
    ensures
        with_hosts(names, peers).contains(name) <==> names.contains(name) || (address_of(name) is None
            && exists|k: int| 0 <= k < peers.len() && (#[trigger] peers[k]).host == name),
    decreases peers.len(),
{
    if peers.len() > 0 {
        let less = peers.drop_last();
        let before = with_hosts(names, less);
        let all = with_hosts(names, peers);
        let host = peers.last().host;
        lemma_with_hosts(names, less, name);
        assert(forall|k: int| 0 <= k < less.len() ==> less[k] == peers[k]);
        assert(peers.last() == peers[peers.len() - 1]);
        if !(address_of(host) is Some || before.contains(host)) {
            assert(all == before.push(host));
            assert(all.contains(name) <==> before.contains(name) || name == host) by {
                if before.contains(name) {
                    let k = choose|k: int| 0 <= k < before.len() && before[k] == name;
                    assert(all[k] == name);
                }
                if name == host {
                    assert(all[before.len() as int] == name);
                }
                if all.contains(name) && name != host {
                    let k = choose|k: int| 0 <= k < all.len() && all[k] == name;
                    assert(before[k] == name);
                }
            }
        }
        if exists|k: int| 0 <= k < less.len() && (#[trigger] less[k]).host == name {
            let k = choose|k: int| 0 <= k < less.len() && (#[trigger] less[k]).host == name;
            assert(peers[k].host == name);
        }
        if exists|k: int| 0 <= k < peers.len() && (#[trigger] peers[k]).host == name {
            let k = choose|k: int| 0 <= k < peers.len() && (#[trigger] peers[k]).host == name;
            if k < less.len() {
                assert(less[k].host == name);
            }
        }
    }
}

/// The host names that have to be resolved are those of all peers of all tunnels,
/// up or not, that are not addresses already.
pub proof fn law_every_host_name_is_resolved(tunnels: Seq<TunnelView>, name: Seq<char>)
    ensures
        host_names(tunnels).contains(name) <==> address_of(name) is None && exists|i: int, k: int|
            0 <= i < tunnels.len() && 0 <= k < (#[trigger] tunnels[i]).endpoints.len() && (
            #[trigger] tunnels[i].endpoints[k]).host == name,
    decreases tunnels.len(),
{
    if tunnels.len() > 0 {
        let less = tunnels.drop_last();
        let last = tunnels.last();
        law_every_host_name_is_resolved(less, name);
        lemma_with_hosts(host_names(less), last.endpoints, name);
        assert(forall|i: int| 0 <= i < less.len() ==> less[i] == tunnels[i]);
        assert(last == tunnels[tunnels.len() - 1]);
        if host_names(less).contains(name) {
            let (i, k) = choose|i: int, k: int|
                0 <= i < less.len() && 0 <= k < (#[trigger] less[i]).endpoints.len() && (
                #[trigger] less[i].endpoints[k]).host == name;
            assert(tunnels[i].endpoints[k].host == name);
        }
        if exists|k: int| 0 <= k < last.endpoints.len() && (#[trigger] last.endpoints[k]).host
            == name {
            let k = choose|k: int|
                0 <= k < last.endpoints.len() && (#[trigger] last.endpoints[k]).host == name;
            assert(tunnels[tunnels.len() - 1].endpoints[k].host == name);
        }
        if exists|i: int, k: int|
            0 <= i < tunnels.len() && 0 <= k < (#[trigger] tunnels[i]).endpoints.len() && (
            #[trigger] tunnels[i].endpoints[k]).host == name {
            let (i, k) = choose|i: int, k: int|
                0 <= i < tunnels.len() && 0 <= k < (#[trigger] tunnels[i]).endpoints.len() && (
                #[trigger] tunnels[i].endpoints[k]).host == name;
            if i < less.len() {
                assert(less[i].endpoints[k].host == name);
            } else {
                assert(last.endpoints[k].host == name);
            }
        }
    } else {
        assert(!host_names(tunnels).contains(name));
    }
}

/// Whether a lookup of a host gave addresses: all that were found, and no other.
pub open spec fn gave(found: Option<Vec<IpAddr>>, addresses: Seq<IpAddr>) -> bool {
    match found {
        Some(list) => forall|ip: IpAddr| #[trigger]
            addresses.contains(ip) <==> list@.contains(ip),
        None => addresses.len() == 0,
    }
}

/// Each host name gets the addresses that looking it up gave.
pub proof fn law_hosts_get_their_addresses(
    t: Lookups,
    names: Seq<Seq<char>>,
    r: Seq<HostView>,
    i: int,
)
    requires
        hosts_run(t, names, r),
        0 <= i < names.len(),
    ensures
        r.len() == names.len(),
        r[i].host == names[i],
        trimmed(names[i]).len() > 0 ==> exists|k: int|
            0 <= k < t.len() && (#[trigger] t[k]).0 == trimmed(names[i]) && gave(
                t[k].1,
                r[i].addresses,
            ),
    decreases names.len(),
{
    let n = t.len() - lookups_for(names.last());
    lemma_hosts_count(t, names, r);
    if i < names.len() - 1 {
        law_hosts_get_their_addresses(t.take(n), names.drop_last(), r.drop_last(), i);
        assert(r.drop_last()[i] == r[i] && names.drop_last()[i] == names[i]);
        if trimmed(names[i]).len() > 0 {
            let k = choose|k: int|
                0 <= k < t.take(n).len() && (#[trigger] t.take(n)[k]).0 == trimmed(names[i])
                    && gave(t.take(n)[k].1, r.drop_last()[i].addresses);
            assert(t[k] == t.take(n)[k]);
        }
    } else if trimmed(names[i]).len() > 0 {
        assert(t.skip(n)[0] == t[n]);
        if let Some(list) = t[n].1 {
            law_firsts(list@);
        }
        assert(gave(t[n].1, r[i].addresses));
    }
}

proof fn lemma_hosts_count(t: Lookups, names: Seq<Seq<char>>, r: Seq<HostView>)
    requires
        hosts_run(t, names, r),
    ensures
        r.len() == names.len(),
    decreases names.len(),
{
    if names.len() > 0 {
        let n = t.len() - lookups_for(names.last());
        lemma_hosts_count(t.take(n), names.drop_last(), r.drop_last());
    }
}

} // verus!
