//! Resolving host names: which names are looked up, and what is kept of the
//! addresses that a lookup gives.

use vstd::prelude::*;
use vstd::string::*;

use crate::ip::IpAddr;
use crate::record::{lemma_since, lemma_since_none, lemma_since_one, since, Recorder};
use crate::text::{opt_text, trim, trimmed};

verus! {

/// Lookups that were made: the name of each, and the addresses that it gave, where
/// the name could be resolved.
pub type Lookups = Seq<(Seq<char>, Option<Vec<IpAddr>>)>;

/// The addresses of a list, each where it appears first.
pub open spec fn firsts(found: Seq<IpAddr>) -> Seq<IpAddr>
    decreases found.len(),
{
    if found.len() == 0 {
        Seq::empty()
    } else {
        let before = firsts(found.drop_last());
        if before.contains(found.last()) {
            before
        } else {
            before.push(found.last())
        }
    }
}

/// Whether a list holds an address.
fn holds(list: &Vec<IpAddr>, ip: IpAddr) -> (r: bool)
    ensures
        r == list@.contains(ip),
{
    let mut i: usize = 0;
    while i < list.len()
        invariant
            i <= list.len(),
            forall|k: int| 0 <= k < i ==> list@[k] != ip,
        decreases list.len() - i,
    {
        if list[i] == ip {
            assert(list@[i as int] == ip);
            return true;
        }
        i += 1;
    }
    false
}

/// The addresses of a list, each once, in the order in which they appear first.
pub fn distinct(found: &[IpAddr]) -> (r: Vec<IpAddr>)
    ensures
        r@ == firsts(found@),
{
    let mut r: Vec<IpAddr> = Vec::new();
    let mut i: usize = 0;
    assert(found@.take(0) =~= Seq::<IpAddr>::empty());
    while i < found.len()
        invariant
            i <= found.len(),
            r@ == firsts(found@.take(i as int)),
        decreases found.len() - i,
    {
        assert(found@.take(i as int + 1).drop_last() =~= found@.take(i as int));
        if !holds(&r, found[i]) {
            r.push(found[i]);
        }
        i += 1;
    }
    assert(found@.take(i as int) =~= found@);
    r
}

/// The addresses that are left hold exactly those of the list, and none twice.
pub proof fn law_firsts(found: Seq<IpAddr>)
    ensures
        firsts(found).no_duplicates(),
        forall|ip: IpAddr| #[trigger] firsts(found).contains(ip) <==> found.contains(ip),
    decreases found.len(),
{
    if found.len() > 0 {
        let (less, last) = (found.drop_last(), found.last());
        law_firsts(less);
        let before = firsts(less);
        assert(found =~= less.push(last));
        assert forall|ip: IpAddr| #[trigger] firsts(found).contains(ip) <==> found.contains(ip) by {
            if found.contains(ip) {
                let i = choose|i: int| 0 <= i < found.len() && found[i] == ip;
                if i < less.len() {
                    assert(less[i] == ip);
                    assert(less.contains(ip));
                    assert(before.contains(ip));
                    let k = choose|k: int| 0 <= k < before.len() && before[k] == ip;
                    assert(firsts(found)[k] == ip);
                } else if before.contains(last) {
                    assert(firsts(found) == before);
                } else {
                    assert(firsts(found)[before.len() as int] == ip);
                }
            }
            if firsts(found).contains(ip) {
                let k = choose|k: int| 0 <= k < firsts(found).len() && firsts(found)[k] == ip;
                if k < before.len() {
                    assert(before[k] == ip);
                    assert(before.contains(ip));
                    let i = choose|i: int| 0 <= i < less.len() && less[i] == ip;
                    assert(found[i] == ip);
                } else {
                    assert(found[found.len() - 1] == ip);
                }
            }
        }
    }
}

/// The name that is looked up for a domain: without white space around it, and none
/// where nothing is left.
pub open spec fn host_of(domain: Seq<char>) -> Option<Seq<char>> {
    if trimmed(domain).len() > 0 {
        Some(trimmed(domain))
    } else {
        None
    }
}

/// The name that is looked up for a domain.
pub fn lookup_host(domain: &str) -> (r: Option<String>)
    ensures
        opt_text(r) == host_of(domain@),
{
    let host = trim(domain);
    if host.is_empty() {
        None
    } else {
        Some(host.to_owned())
    }
}

/// What is kept of the addresses that a lookup gave.
pub open spec fn kept_of(found: Option<Vec<IpAddr>>) -> Seq<IpAddr> {
    match found {
        Some(list) => firsts(list@),
        None => Seq::empty(),
    }
}

/// Whether the lookups resolve a domain to the addresses `r`: its name is looked up
/// once, and nothing is looked up for a blank one.
pub open spec fn lookup_run(t: Lookups, domain: Seq<char>, r: Seq<IpAddr>) -> bool {
    match host_of(domain) {
        Some(host) => t.len() == 1 && t[0].0 == host && r == kept_of(t[0].1),
        None => t.len() == 0 && r.len() == 0,
    }
}

/// The addresses that a domain resolves to, each once; none where it does not.
/// `lookup` looks a name up.
pub fn resolve_domain_ips<L: Fn(&str) -> Option<Vec<IpAddr>>>(
    domain: &str,
    lookup: &mut Recorder<str, Option<Vec<IpAddr>>, L>,
) -> (r: Vec<IpAddr>)
    ensures
        final(lookup).follows(*old(lookup)),
        lookup_run(since(old(lookup).calls(), final(lookup).calls()), domain@, r@),
{
    let ghost start = lookup.calls();
    proof {
        lemma_since_none(start);
    }
    let host = match lookup_host(domain) {
        Some(host) => host,
        None => {
            return Vec::new();
        },
    };
    let found = lookup.ask(host.as_str());
    proof {
        lemma_since_one(start, (host@, found));
    }
    match &found {
        Some(list) => distinct(list.as_slice()),
        None => Vec::new(),
    }
}

/// The names that are looked up for domains, in order.
pub open spec fn hosts_of(domains: Seq<Seq<char>>) -> Seq<Seq<char>>
    decreases domains.len(),
{
    if domains.len() == 0 {
        Seq::empty()
    } else {
        let before = hosts_of(domains.drop_last());
        match host_of(domains.last()) {
            Some(host) => before.push(host),
            None => before,
        }
    }
}

/// What is kept of the addresses that lookups gave, in order.
pub open spec fn all_kept(t: Lookups) -> Seq<IpAddr>
    decreases t.len(),
{
    if t.len() == 0 {
        Seq::empty()
    } else {
        all_kept(t.drop_last()) + kept_of(t.last().1)
    }
}

/// Whether the lookups resolve domains one after the other to the addresses `r`.
pub open spec fn resolve_run(t: Lookups, domains: Seq<Seq<char>>, r: Seq<IpAddr>) -> bool {
    &&& t.map_values(|l: (Seq<char>, Option<Vec<IpAddr>>)| l.0) == hosts_of(domains)
    &&& r == all_kept(t)
}

/// The addresses that domains resolve to, in the order of the domains.
pub fn resolve_domains<L: Fn(&str) -> Option<Vec<IpAddr>>>(
    domains: &Vec<String>,
    lookup: &mut Recorder<str, Option<Vec<IpAddr>>, L>,
) -> (r: Vec<IpAddr>)
    ensures
        final(lookup).follows(*old(lookup)),
        resolve_run(since(old(lookup).calls(), final(lookup).calls()), domains.deep_view(), r@),
{
    let ghost start = lookup.calls();
    let ghost all = domains.deep_view();
    let mut r: Vec<IpAddr> = Vec::new();
    let mut i: usize = 0;
    proof {
        lemma_since_none(start);
        assert(since(start, start).map_values(
            |l: (Seq<char>, Option<Vec<IpAddr>>)| l.0,
        ) =~= hosts_of(all.take(0)));
    }
    while i < domains.len()
        invariant
            i <= domains.len(),
            all == domains.deep_view(),
            start == old(lookup).calls(),
            lookup.follows(*old(lookup)),
            resolve_run(since(start, lookup.calls()), all.take(i as int), r@),
        decreases domains.len() - i,
    {
        let ghost before = lookup.calls();
        let ghost (t, kept) = (since(start, before), r@);
        let domain = domains[i].as_str();
        let mut found = resolve_domain_ips(domain, lookup);
        r.append(&mut found);
        proof {
            lemma_since(start, before, lookup.calls());
            let u = since(start, lookup.calls());
            let name = |l: (Seq<char>, Option<Vec<IpAddr>>)| l.0;
            let next = all.take(i as int + 1);
            assert(next.drop_last() =~= all.take(i as int));
            assert(next.last() == domain@);
            let one = since(before, lookup.calls());
            if host_of(domain@) is Some {
                assert(u =~= t.push(one[0]));
                assert(u.drop_last() =~= t);
                assert(u.map_values(name) =~= t.map_values(name).push(one[0].0));
            } else {
                assert(u =~= t);
                assert(r@ =~= kept);
            }
        }
        i += 1;
    }
    assert(all.take(i as int) =~= all);
    r
}

/// Resolving domains looks each up that is not blank, without the white space around
/// it and in order, and gives exactly the addresses that the lookups found.
pub proof fn law_domains_are_resolved(
    t: Lookups,
    domains: Seq<Seq<char>>,
    r: Seq<IpAddr>,
    ip: IpAddr,
    i: int,
)
    requires
        resolve_run(t, domains, r),
    ensures
        r.contains(ip) <==> exists|k: int|
            0 <= k < t.len() && ((#[trigger] t[k]).1 matches Some(found) && found@.contains(ip)),
        0 <= i < domains.len() && trimmed(domains[i]).len() > 0 ==> exists|k: int|
            0 <= k < t.len() && (#[trigger] t[k]).0 == trimmed(domains[i]),
        t.len() <= domains.len(),
{
    lemma_all_kept(t, ip);
    let names = t.map_values(|l: (Seq<char>, Option<Vec<IpAddr>>)| l.0);
    lemma_hosts_of(domains, i);
    if 0 <= i < domains.len() && trimmed(domains[i]).len() > 0 {
        let hosts = hosts_of(domains);
        let k = choose|k: int| 0 <= k < hosts.len() && hosts[k] == trimmed(domains[i]);
        assert(names[k] == t[k].0);
    }
    assert(names.len() == t.len());
}

proof fn lemma_hosts_of(domains: Seq<Seq<char>>, i: int)
    ensures
        hosts_of(domains).len() <= domains.len(),
        0 <= i < domains.len() && trimmed(domains[i]).len() > 0 ==> hosts_of(domains).contains(
            trimmed(domains[i]),
        ),
    decreases domains.len(),
{
    if domains.len() > 0 {
        let less = domains.drop_last();
        let before = hosts_of(less);
        let all = hosts_of(domains);
        lemma_hosts_of(less, i);
        if 0 <= i < less.len() && trimmed(domains[i]).len() > 0 {
            assert(less[i] == domains[i]);
            let k = choose|k: int| 0 <= k < before.len() && before[k] == trimmed(domains[i]);
            assert(all[k] == trimmed(domains[i]));
        } else if i == less.len() && trimmed(domains[i]).len() > 0 {
            assert(all[before.len() as int] == trimmed(domains[i]));
        }
    }
}

proof fn lemma_all_kept(t: Lookups, ip: IpAddr)
    ensures
        all_kept(t).contains(ip) <==> exists|k: int|
            0 <= k < t.len() && ((#[trigger] t[k]).1 matches Some(found) && found@.contains(ip)),
    decreases t.len(),
{
    if t.len() > 0 {
        let less = t.drop_last();
        let n = t.len() - 1;
        let before = all_kept(less);
        let last = kept_of(t.last().1);
        let all = before + last;
        lemma_all_kept(less, ip);
        if let Some(found) = t.last().1 {
            law_firsts(found@);
        }
        assert(last.contains(ip) <==> (t[n].1 matches Some(found) && found@.contains(ip)));
        assert(all.contains(ip) <==> before.contains(ip) || last.contains(ip)) by {
            if before.contains(ip) {
                let k = choose|k: int| 0 <= k < before.len() && before[k] == ip;
                assert(all[k] == ip);
            }
            if last.contains(ip) {
                let k = choose|k: int| 0 <= k < last.len() && last[k] == ip;
                assert(all[before.len() + k] == ip);
            }
            if all.contains(ip) {
                let k = choose|k: int| 0 <= k < all.len() && all[k] == ip;
                if k < before.len() {
                    assert(before[k] == ip);
                } else {
                    assert(last[k - before.len()] == ip);
                }
            }
        }
        assert(forall|k: int| 0 <= k < n ==> less[k] == t[k]);
        if before.contains(ip) {
            let k = choose|k: int|
                0 <= k < less.len() && ((#[trigger] less[k]).1 matches Some(found)
                    && found@.contains(ip));
            assert(t[k] == less[k]);
        }
        if exists|k: int|
            0 <= k < t.len() && ((#[trigger] t[k]).1 matches Some(found) && found@.contains(ip)) {
            let k = choose|k: int|
                0 <= k < t.len() && ((#[trigger] t[k]).1 matches Some(found) && found@.contains(
                    ip,
                ));
            if k < n {
                assert(less[k] == t[k]);
            }
        }
    }
}

} // verus!
