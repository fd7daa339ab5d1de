//! What the lockdown guarantees: how its rules look, what replacing them does at
//! every step, and that exactly its own rules are found again.

use vstd::prelude::*;

use crate::firewall::rules::{accept_through, accept_to, added, direct, drop_all, family_rules, handshake, interface_rules, local_networks_of, local_rules, lockdown_rules, marked, marker, peer_rules, peers_rules, reload, resolution, resolution_rules, resolved_rules, tunnels_rules, Batch, HostView};
use crate::firewall::teardown::{all_removals, guard, is_marked, kept, names_rule, preservations_in, rebuild_of, removal, removals_in, rule_of, rules_within, teardown_run, Listings};
use crate::error::{AppError, AppResult};
use crate::ip::IpAddr;
use crate::nm::endpoints::{EndpointView, TunnelView};
use crate::text::{decimal, is_space, is_word, joined, lemma_decimal_value, lemma_words_of_joined, lines_of, signed, trimmed, words_of};

verus! {

// ---------------------------------------------------------------------------
// The shape of the rules
// ---------------------------------------------------------------------------

/// Whether a command line adds a rule of the lockdown: a permanent rule in the
/// output chain of the mangle table of its family, which carries the marker.
pub open spec fn is_rule_of(family: Seq<char>, b: Batch) -> bool {
    &&& b.len() > 10
    &&& b.take(6) == direct("--add-rule"@, family, "mangle"@)
    &&& (b[6] == signed(0) || b[6] == signed(1) || b[6] == signed(10))
    &&& b.skip(7).contains("neutron-lockdown"@)
}

/// Whether all command lines add rules of the lockdown.
pub open spec fn are_rules_of(family: Seq<char>, batches: Seq<Batch>) -> bool {
    forall|i: int| 0 <= i < batches.len() ==> is_rule_of(family, #[trigger] batches[i])
}

/// Whether a command line adds a rule that carries the marker, whatever its
/// priority: a rule of the lockdown, or a guard.
pub open spec fn is_own_rule_of(family: Seq<char>, b: Batch) -> bool {
    &&& b.len() > 7
    &&& b.take(6) == direct("--add-rule"@, family, "mangle"@)
    &&& b.skip(7).contains("neutron-lockdown"@)
}

/// Whether all command lines add rules that carry the marker.
pub open spec fn are_own_rules_of(family: Seq<char>, batches: Seq<Batch>) -> bool {
    forall|i: int| 0 <= i < batches.len() ==> is_own_rule_of(family, #[trigger] batches[i])
}

/// An added rule carries the marker.
proof fn lemma_added(family: Seq<char>, priority: int, rule: Batch)
    ensures
        is_own_rule_of(family, added(family, priority, rule)),
        rule.len() >= 1 && (priority == 0 || priority == 1 || priority == 10) ==> is_rule_of(
            family,
            added(family, priority, rule),
        ),
{
    let b = added(family, priority, rule);
    let jump = if rule.len() >= 2 {
        rule.len() - 2
    } else {
        0
    };
    assert(b.take(6) =~= direct("--add-rule"@, family, "mangle"@));
    assert(marked(rule)[jump + 3] == marker()[3]);
    assert(b.skip(7) =~= marked(rule));
    assert(b[6] == signed(priority));
    assert(b.skip(7).contains("neutron-lockdown"@));
}

/// The rules at resolved addresses are rules of the lockdown.
proof fn lemma_resolved(family: Seq<char>, port: Seq<char>, resolved: Seq<IpAddr>)
    ensures
        are_rules_of(family, resolved_rules(family, port, resolved)),
    decreases resolved.len(),
{
    if resolved.len() > 0 {
        lemma_resolved(family, port, resolved.drop_last());
        lemma_added(family, 1, handshake(resolved.last().spec_text(), port));
    }
}

/// The rules of peers are rules of the lockdown.
proof fn lemma_peers(family: Seq<char>, endpoints: Seq<EndpointView>, hosts: Seq<HostView>)
    ensures
        are_rules_of(family, peers_rules(family, endpoints, hosts)),
    decreases endpoints.len(),
{
    if endpoints.len() > 0 {
        lemma_peers(family, endpoints.drop_last(), hosts);
        let e = endpoints.last();
        let port = decimal(e.port as nat);
        let known = crate::firewall::rules::addresses_of(hosts, e.host, 0);
        lemma_resolved(family, port, known);
        lemma_added(family, 1, handshake(e.host, port));
        assert(are_rules_of(family, peer_rules(family, e, known)));
    }
}

/// The rules of tunnels are rules of the lockdown.
proof fn lemma_tunnels(family: Seq<char>, tunnels: Seq<TunnelView>, hosts: Seq<HostView>)
    ensures
        are_rules_of(family, tunnels_rules(family, tunnels, hosts)),
        are_rules_of(family, interface_rules(family, tunnels)),
    decreases tunnels.len(),
{
    if tunnels.len() > 0 {
        lemma_tunnels(family, tunnels.drop_last(), hosts);
        lemma_peers(family, tunnels.last().endpoints, hosts);
        if tunnels.last().interface is Some {
            lemma_added(family, 0, accept_through(tunnels.last().interface->0));
        }
    }
}

/// Every rule that the lockdown adds is a permanent rule in the output chain of
/// the mangle table of its family, and carries the marker.
pub proof fn law_every_rule_is_marked(
    family: Seq<char>,
    tunnels: Seq<TunnelView>,
    hosts: Seq<HostView>,
)
    ensures
        are_rules_of(family, family_rules(family, tunnels, hosts)),
{
    lemma_tunnels(family, tunnels, hosts);
    lemma_added(family, 0, accept_through("lo"@));
    lemma_added(family, 10, drop_all());
    lemma_added(family, 1, resolution("udp"@, "DROP"@));
    lemma_added(family, 1, resolution("tcp"@, "DROP"@));
    lemma_added(family, 1, resolution("udp"@, "ACCEPT"@));
    lemma_added(family, 1, resolution("tcp"@, "ACCEPT"@));
    assert(are_rules_of(family, resolution_rules(family, tunnels)));
    assert forall|i: int| 0 <= i < local_rules(family).len() implies is_rule_of(
        family,
        #[trigger] local_rules(family)[i],
    ) by {
        lemma_added(family, 1, accept_to(local_networks_of(family)[i]));
    }
    assert(are_rules_of(family, local_rules(family)));
}

/// The rules of a family end with the one that drops whatever no other rule
/// accepted, and no other rule of the lockdown comes after it.
pub proof fn law_drop_comes_last(family: Seq<char>, tunnels: Seq<TunnelView>, hosts: Seq<HostView>)
    ensures
        family_rules(family, tunnels, hosts).len() > 0,
        family_rules(family, tunnels, hosts).last() == added(family, 10, drop_all()),
{
}

// ---------------------------------------------------------------------------
// Replacing the rules
// ---------------------------------------------------------------------------

/// The permanent rules after a command line, each as the command line that adds
/// it.
pub open spec fn effect(rules: Set<Batch>, b: Batch) -> Set<Batch> {
    if b.len() > 2 && b[2] == "--add-rule"@ {
        rules.insert(b)
    } else if b.len() > 2 && b[2] == "--remove-rule"@ {
        rules.remove(b.update(2, "--add-rule"@))
    } else {
        rules
    }
}

/// The permanent rules after command lines.
pub open spec fn after(rules: Set<Batch>, batches: Seq<Batch>) -> Set<Batch>
    decreases batches.len(),
{
    if batches.len() == 0 {
        rules
    } else {
        effect(after(rules, batches.drop_last()), batches.last())
    }
}

/// Command lines run one after the other.
proof fn lemma_after_more(rules: Set<Batch>, a: Seq<Batch>, b: Seq<Batch>)
    ensures
        after(rules, a + b) == after(after(rules, a), b),
    decreases b.len(),
{
    if b.len() == 0 {
        assert(a + b =~= a);
    } else {
        assert((a + b).drop_last() =~= a + b.drop_last());
        lemma_after_more(rules, a, b.drop_last());
    }
}

/// The verbs differ.
proof fn lemma_verbs()
    ensures
        "--add-rule"@ != "--remove-rule"@,
        "--reload"@ != "--add-rule"@,
{
    reveal_strlit("--add-rule");
    reveal_strlit("--remove-rule");
    reveal_strlit("--reload");
    assert("--add-rule"@.len() != "--remove-rule"@.len());
    assert("--add-rule"@.len() != "--reload"@.len());
}

/// A rule stays in place as long as its own removal is not among the command
/// lines.
proof fn lemma_stays(rules: Set<Batch>, batches: Seq<Batch>, rule: Batch)
    requires
        rules.contains(rule),
        rule.len() > 2,
        forall|i: int| 0 <= i < batches.len() ==> #[trigger] batches[i] != removal(rule),
    ensures
        after(rules, batches).contains(rule),
    decreases batches.len(),
{
    if batches.len() > 0 {
        let less = batches.drop_last();
        assert forall|i: int| 0 <= i < less.len() implies #[trigger] less[i] != removal(rule) by {
            assert(less[i] == batches[i]);
        }
        lemma_stays(rules, less, rule);
        let b = batches.last();
        assert(b == batches[batches.len() - 1]);
        if b.len() > 2 && b[2] == "--remove-rule"@ && b.update(2, "--add-rule"@) == rule {
            assert(b =~= removal(rule));
        }
    }
}

/// A rule that is not there is not there afterwards, unless it was added.
proof fn lemma_stays_away(rules: Set<Batch>, batches: Seq<Batch>, rule: Batch)
    requires
        !rules.contains(rule),
        forall|i: int|
            0 <= i < batches.len() && #[trigger] batches[i] == rule ==> rule.len() <= 2 || rule[2]
                != "--add-rule"@,
    ensures
        !after(rules, batches).contains(rule),
    decreases batches.len(),
{
    if batches.len() > 0 {
        let less = batches.drop_last();
        assert forall|i: int| 0 <= i < less.len() && #[trigger] less[i] == rule implies rule.len()
            <= 2 || rule[2] != "--add-rule"@ by {
            assert(less[i] == batches[i]);
        }
        lemma_stays_away(rules, less, rule);
        assert(batches.last() == batches[batches.len() - 1]);
    }
}

/// A rule that a command line adds is there afterwards, unless it is removed
/// later.
proof fn lemma_arrives(rules: Set<Batch>, batches: Seq<Batch>, i: int)
    requires
        0 <= i < batches.len(),
        batches[i].len() > 2,
        batches[i][2] == "--add-rule"@,
        forall|k: int| i < k < batches.len() ==> #[trigger] batches[k] != removal(batches[i]),
    ensures
        after(rules, batches).contains(batches[i]),
{
    let a = batches.take(i + 1);
    let b = batches.skip(i + 1);
    assert(a + b =~= batches);
    assert(a.drop_last() =~= batches.take(i));
    assert(a.last() == batches[i]);
    lemma_after_more(rules, a, b);
    assert forall|k: int| 0 <= k < b.len() implies #[trigger] b[k] != removal(batches[i]) by {
        assert(b[k] == batches[i + 1 + k]);
    }
    lemma_stays(after(rules, a), b, batches[i]);
}

/// A rule that a command line removes is not there afterwards, unless it is added
/// later.
proof fn lemma_leaves(rules: Set<Batch>, batches: Seq<Batch>, i: int, rule: Batch)
    requires
        0 <= i < batches.len(),
        rule.len() > 2,
        rule[2] == "--add-rule"@,
        batches[i] == removal(rule),
        forall|k: int| i < k < batches.len() ==> #[trigger] batches[k] != rule,
    ensures
        !after(rules, batches).contains(rule),
{
    lemma_verbs();
    let a = batches.take(i + 1);
    let b = batches.skip(i + 1);
    assert(a + b =~= batches);
    assert(a.drop_last() =~= batches.take(i));
    assert(a.last() == batches[i]);
    lemma_after_more(rules, a, b);
    assert(removal(rule).update(2, "--add-rule"@) =~= rule);
    assert forall|k: int| 0 <= k < b.len() implies #[trigger] b[k] != rule by {
        assert(b[k] == batches[i + 1 + k]);
    }
    lemma_stays_away(after(rules, a), b, rule);
}

/// What is kept of removals, and in what follows from one of them.
proof fn lemma_kept(removals: Seq<Batch>)
    ensures
        forall|i: int|
            0 <= i < kept(removals).len() ==> #[trigger] kept(removals)[i] != removal(
                guard("ipv4"@),
            ) && kept(removals)[i] != removal(guard("ipv6"@)),
        forall|b: Batch|
            #![trigger kept(removals).contains(b)]
            removals.contains(b) && b != removal(guard("ipv4"@)) && b != removal(guard("ipv6"@))
                ==> kept(removals).contains(b),
        forall|b: Batch| #[trigger] kept(removals).contains(b) ==> removals.contains(b),
    decreases removals.len(),
{
    if removals.len() > 0 {
        let less = removals.drop_last();
        let last = removals.last();
        lemma_kept(less);
        let old_kept = kept(less);
        let new_kept = kept(removals);
        let drops = last == removal(guard("ipv4"@)) || last == removal(guard("ipv6"@));
        assert(new_kept == if drops {
            old_kept
        } else {
            old_kept.push(last)
        });
        assert forall|b: Batch|
            #![trigger kept(removals).contains(b)]
            removals.contains(b) && b != removal(guard("ipv4"@)) && b != removal(
                guard("ipv6"@),
            ) implies new_kept.contains(b) by {
            let i = choose|i: int| 0 <= i < removals.len() && removals[i] == b;
            if i < less.len() {
                assert(less[i] == b);
                assert(less.contains(b));
                assert(old_kept.contains(b));
                let k = choose|k: int| 0 <= k < old_kept.len() && old_kept[k] == b;
                assert(new_kept[k] == b);
            } else {
                assert(new_kept[old_kept.len() as int] == b);
            }
        }
        assert forall|b: Batch| #[trigger] kept(removals).contains(b) implies removals.contains(
            b,
        ) by {
            let k = choose|k: int| 0 <= k < new_kept.len() && new_kept[k] == b;
            if k < old_kept.len() {
                assert(old_kept[k] == b);
                assert(old_kept.contains(b));
                assert(less.contains(b));
                let i = choose|i: int| 0 <= i < less.len() && less[i] == b;
                assert(removals[i] == b);
            } else {
                assert(removals[removals.len() - 1] == b);
            }
        }
    }
}

/// A guard is no rule of the lockdown, and of one family only.
proof fn lemma_guard(family: Seq<char>, other: Seq<char>, b: Batch)
    requires
        is_rule_of(other, b),
    ensures
        b != guard(family),
        b != removal(guard(family)),
        guard(family)[2] == "--add-rule"@,
        guard(family).len() > 6,
{
    lemma_verbs();
    reveal_strlit("-");
    assert(b[2] == b.take(6)[2]);
    assert(signed(-1)[0] == '-');
    lemma_plain_number(0);
    lemma_plain_number(1);
    lemma_plain_number(10);
    assert(guard(family)[6] == signed(-1));
}

/// Numbers without a sign start with a digit.
proof fn lemma_plain_number(n: int)
    requires
        n >= 0,
    ensures
        signed(n).len() > 0,
        signed(n)[0] != '-',
{
    lemma_decimal_value(n as nat, n as nat);
    assert('0' <= decimal(n as nat)[0] <= '9');
}

/// The families differ.
proof fn lemma_families()
    ensures
        "ipv4"@ != "ipv6"@,
        guard("ipv4"@) != guard("ipv6"@),
        removal(guard("ipv4"@)) != removal(guard("ipv6"@)),
{
    reveal_strlit("ipv4");
    reveal_strlit("ipv6");
    assert("ipv4"@[3] != "ipv6"@[3]);
    assert(guard("ipv4"@)[3] == "ipv4"@);
    assert(guard("ipv6"@)[3] == "ipv6"@);
    assert(removal(guard("ipv4"@))[3] == "ipv4"@);
    assert(removal(guard("ipv6"@))[3] == "ipv6"@);
}


/// Where the parts of a replacement stand.
proof fn lemma_layout(removals: Seq<Batch>, tunnels: Seq<TunnelView>, hosts: Seq<HostView>)
    ensures
        ({
            let all = rebuild_of(removals, tunnels, hosts);
            let old_len = kept(removals).len();
            let rules = lockdown_rules(tunnels, hosts);
            let m = old_len + rules.len();
            &&& all.len() == m + 5
            &&& all[0] == guard("ipv4"@)
            &&& all[1] == guard("ipv6"@)
            &&& all[2 + m as int] == removal(guard("ipv4"@))
            &&& all[3 + m as int] == removal(guard("ipv6"@))
            &&& all[4 + m as int] == reload()
            &&& forall|k: int| 2 <= k < 2 + old_len ==> #[trigger] all[k] == kept(removals)[k - 2]
            &&& forall|k: int|
                2 + old_len <= k < 2 + m ==> #[trigger] all[k] == rules[k - 2 - old_len]
        }),
{
}

/// Every rule of the lockdown is one of its family.
proof fn lemma_rules(tunnels: Seq<TunnelView>, hosts: Seq<HostView>, i: int)
    requires
        0 <= i < lockdown_rules(tunnels, hosts).len(),
    ensures
        ({
            let b = lockdown_rules(tunnels, hosts)[i];
            &&& b.len() > 10
            &&& b[2] == "--add-rule"@
            &&& b[4] == "mangle"@
            &&& b.contains("neutron-lockdown"@)
            &&& b != guard("ipv4"@)
            &&& b != guard("ipv6"@)
        }),
{
    let a = family_rules("ipv4"@, tunnels, hosts);
    let c = family_rules("ipv6"@, tunnels, hosts);
    law_every_rule_is_marked("ipv4"@, tunnels, hosts);
    law_every_rule_is_marked("ipv6"@, tunnels, hosts);
    let b = lockdown_rules(tunnels, hosts)[i];
    let family = if i < a.len() {
        "ipv4"@
    } else {
        "ipv6"@
    };
    if i < a.len() {
        assert(b == a[i]);
    } else {
        assert(b == c[i - a.len()]);
    }
    assert(is_rule_of(family, b));
    lemma_guard("ipv4"@, family, b);
    lemma_guard("ipv6"@, family, b);
    assert(b[2] == b.take(6)[2]);
    assert(b[4] == b.take(6)[4]);
    let k = choose|k: int| 0 <= k < b.skip(7).len() && b.skip(7)[k] == "neutron-lockdown"@;
    assert(b[k + 7] == "neutron-lockdown"@);
}

/// A new rule is in place once the replacement has come past it.
proof fn lemma_new_rule(
    rules: Set<Batch>,
    removals: Seq<Batch>,
    tunnels: Seq<TunnelView>,
    hosts: Seq<HostView>,
    n: int,
    i: int,
)
    requires
        0 <= i < lockdown_rules(tunnels, hosts).len(),
        2 + kept(removals).len() + lockdown_rules(tunnels, hosts).len() <= n <= rebuild_of(
            removals,
            tunnels,
            hosts,
        ).len(),
    ensures
        after(rules, rebuild_of(removals, tunnels, hosts).take(n)).contains(
            lockdown_rules(tunnels, hosts)[i],
        ),
{
    lemma_verbs();
    lemma_families();
    lemma_layout(removals, tunnels, hosts);
    let all = rebuild_of(removals, tunnels, hosts);
    let p = all.take(n);
    let old_len = kept(removals).len();
    let wanted = lockdown_rules(tunnels, hosts);
    let m = old_len + wanted.len();
    let j = 2 + old_len + i;
    let rule = wanted[i];
    lemma_rules(tunnels, hosts, i);
    assert(p[j] == all[j]);
    assert forall|k: int| j < k < p.len() implies #[trigger] p[k] != removal(rule) by {
        assert(p[k] == all[k]);
        assert(removal(rule)[2] == "--remove-rule"@);
        if k < 2 + m {
            lemma_rules(tunnels, hosts, k - 2 - old_len);
        } else if k < 4 + m {
            let g = if k == 2 + m {
                guard("ipv4"@)
            } else {
                guard("ipv6"@)
            };
            if removal(g) == removal(rule) {
                assert(g =~= removal(g).update(2, "--add-rule"@));
                assert(rule =~= removal(rule).update(2, "--add-rule"@));
            }
        } else {
            assert(reload().len() == 1);
        }
    }
    lemma_arrives(rules, p, j);
}

/// At no point of a replacement is a family unprotected: either no rule that was
/// there has been taken away yet, or everything of the family is dropped, or all
/// its new rules are in place. This holds whatever the removals are.
pub proof fn law_replacing_never_opens(
    rules: Set<Batch>,
    removals: Seq<Batch>,
    tunnels: Seq<TunnelView>,
    hosts: Seq<HostView>,
    n: int,
    family: Seq<char>,
)
    requires
        0 <= n <= rebuild_of(removals, tunnels, hosts).len(),
        family == "ipv4"@ || family == "ipv6"@,
    ensures
        ({
            let now = after(rules, rebuild_of(removals, tunnels, hosts).take(n));
            let wanted = family_rules(family, tunnels, hosts);
            ||| rules.subset_of(now)
            ||| now.contains(guard(family))
            ||| forall|i: int| 0 <= i < wanted.len() ==> now.contains(#[trigger] wanted[i])
        }),
{
    lemma_verbs();
    lemma_families();
    lemma_layout(removals, tunnels, hosts);
    lemma_kept(removals);
    let all = rebuild_of(removals, tunnels, hosts);
    let p = all.take(n);
    let now = after(rules, p);
    let old_len = kept(removals).len();
    let both = lockdown_rules(tunnels, hosts);
    let m = old_len + both.len();
    if n == 0 {
        assert(rules.subset_of(now));
    } else if n == 1 {
        assert(p.drop_last() =~= Seq::<Batch>::empty());
        assert(after(rules, p.drop_last()) == rules);
        assert(now == effect(rules, p.last()));
        assert(rules.subset_of(now));
    } else if n <= 2 + m {
        let g = guard(family);
        let j: int = if family == "ipv4"@ {
            0
        } else {
            1
        };
        assert(p[j] == all[j] && all[j] == g);
        assert(g[2] == "--add-rule"@);
        assert(removal(g)[2] == "--remove-rule"@);
        assert forall|k: int| j < k < p.len() implies #[trigger] p[k] != removal(g) by {
            assert(p[k] == all[k]);
            if k == 1 {
                assert(all[k][2] == "--add-rule"@);
            } else if k < 2 + old_len {
                assert(all[k] == kept(removals)[k - 2]);
            } else {
                lemma_rules(tunnels, hosts, k - 2 - old_len);
            }
        }
        lemma_arrives(rules, p, j);
    } else {
        let wanted = family_rules(family, tunnels, hosts);
        let offset: int = if family == "ipv4"@ {
            0
        } else {
            family_rules("ipv4"@, tunnels, hosts).len() as int
        };
        assert forall|i: int| 0 <= i < wanted.len() implies now.contains(#[trigger] wanted[i]) by {
            assert(both[offset + i] == wanted[i]);
            lemma_new_rule(rules, removals, tunnels, hosts, n, offset + i);
        }
    }
}

/// Whether command lines only remove rules.
pub open spec fn only_removals(removals: Seq<Batch>) -> bool {
    forall|i: int|
        0 <= i < removals.len() ==> (#[trigger] removals[i]).len() > 2 && removals[i][2]
            == "--remove-rule"@
}

/// Where the removals name every rule that is there, a replacement leaves exactly
/// the new rules, guards of an earlier replacement included.
pub proof fn law_replacing_ends_with_the_new_rules(
    rules: Set<Batch>,
    removals: Seq<Batch>,
    tunnels: Seq<TunnelView>,
    hosts: Seq<HostView>,
)
    requires
        only_removals(removals),
        forall|r: Batch| #[trigger]
            rules.contains(r) ==> r.len() > 2 && r[2] == "--add-rule"@ && removals.contains(
                removal(r),
            ),
    ensures
        after(rules, rebuild_of(removals, tunnels, hosts)) == lockdown_rules(
            tunnels,
            hosts,
        ).to_set(),
{
    let all = rebuild_of(removals, tunnels, hosts);
    let end = after(rules, all);
    let wanted = lockdown_rules(tunnels, hosts);
    assert(all.len() == kept(removals).len() + wanted.len() + 5);
    assert(all.take(all.len() as int) =~= all);
    assert forall|x: Batch| #[trigger] end.contains(x) == wanted.to_set().contains(x) by {
        if wanted.contains(x) {
            let i = choose|i: int| 0 <= i < wanted.len() && wanted[i] == x;
            lemma_new_rule(rules, removals, tunnels, hosts, all.len() as int, i);
        } else {
            lemma_old_rule(rules, removals, tunnels, hosts, x);
        }
    }
    assert(end =~= wanted.to_set());
}

/// What is no new rule is not there after a replacement.
proof fn lemma_old_rule(
    rules: Set<Batch>,
    removals: Seq<Batch>,
    tunnels: Seq<TunnelView>,
    hosts: Seq<HostView>,
    x: Batch,
)
    requires
        only_removals(removals),
        forall|r: Batch| #[trigger]
            rules.contains(r) ==> r.len() > 2 && r[2] == "--add-rule"@ && removals.contains(
                removal(r),
            ),
        !lockdown_rules(tunnels, hosts).contains(x),
    ensures
        !after(rules, rebuild_of(removals, tunnels, hosts)).contains(x),
{
    lemma_verbs();
    lemma_families();
    lemma_layout(removals, tunnels, hosts);
    lemma_kept(removals);
    let all = rebuild_of(removals, tunnels, hosts);
    let old_len = kept(removals).len();
    let wanted = lockdown_rules(tunnels, hosts);
    let m = old_len + wanted.len();
    let (g4, g6) = (guard("ipv4"@), guard("ipv6"@));
    assert(removal(g4)[2] == "--remove-rule"@);
    assert(removal(g6)[2] == "--remove-rule"@);
    assert(reload().len() == 1);
    assert forall|k: int| 2 <= k < 2 + old_len implies (#[trigger] all[k]).len() > 2 && all[k][2]
        == "--remove-rule"@ by {
        assert(kept(removals).contains(kept(removals)[k - 2]));
        let i = choose|i: int| 0 <= i < removals.len() && removals[i] == all[k];
        assert(removals[i] == all[k]);
    }
    assert forall|k: int| 2 + old_len <= k < 2 + m implies #[trigger] all[k] != x by {
        assert(wanted[k - 2 - old_len] == all[k]);
    }
    if x == g4 {
        lemma_leaves(rules, all, 2 + m as int, x);
    } else if x == g6 {
        lemma_leaves(rules, all, 3 + m as int, x);
    } else if rules.contains(x) {
        let r = removal(x);
        if r == removal(g4) {
            assert(x =~= r.update(2, "--add-rule"@));
            assert(g4 =~= removal(g4).update(2, "--add-rule"@));
        }
        if r == removal(g6) {
            assert(x =~= r.update(2, "--add-rule"@));
            assert(g6 =~= removal(g6).update(2, "--add-rule"@));
        }
        assert(kept(removals).contains(r));
        let i = choose|i: int| 0 <= i < old_len && kept(removals)[i] == r;
        assert(all[2 + i] == r);
        lemma_leaves(rules, all, 2 + i, x);
    } else {
        assert forall|k: int| 0 <= k < all.len() && #[trigger] all[k] == x implies x.len() <= 2
            || x[2] != "--add-rule"@ by {}
        lemma_stays_away(rules, all, x);
    }
}

/// Where every removal names a marked rule, a replacement takes no rule away that
/// carries no marker.
pub proof fn law_replacing_keeps_foreign_rules(
    rules: Set<Batch>,
    removals: Seq<Batch>,
    tunnels: Seq<TunnelView>,
    hosts: Seq<HostView>,
    rule: Batch,
)
    requires
        rules.contains(rule),
        rule.len() > 2,
        !rule.contains("neutron-lockdown"@),
        forall|i: int|
            0 <= i < removals.len() ==> (#[trigger] removals[i]).contains("neutron-lockdown"@),
    ensures
        after(rules, rebuild_of(removals, tunnels, hosts)).contains(rule),
{
    lemma_verbs();
    lemma_layout(removals, tunnels, hosts);
    lemma_kept(removals);
    reveal_strlit("neutron-lockdown");
    reveal_strlit("--remove-rule");
    assert("neutron-lockdown"@.len() != "--remove-rule"@.len());
    let all = rebuild_of(removals, tunnels, hosts);
    let old_len = kept(removals).len();
    let wanted = lockdown_rules(tunnels, hosts);
    let m = old_len + wanted.len();
    let r = removal(rule);
    assert(!r.contains("neutron-lockdown"@)) by {
        if r.contains("neutron-lockdown"@) {
            let k = choose|k: int| 0 <= k < r.len() && r[k] == "neutron-lockdown"@;
            assert(rule[k] == "neutron-lockdown"@);
        }
    }
    assert forall|k: int| 0 <= k < all.len() implies #[trigger] all[k] != r by {
        if k < 2 || 2 + m <= k < 4 + m {
            let g = if k == 0 || k == 2 + m {
                guard("ipv4"@)
            } else {
                guard("ipv6"@)
            };
            assert(marked(drop_all())[3] == marker()[3]);
            assert(g[10] == "neutron-lockdown"@);
            assert(all[k][10] == "neutron-lockdown"@);
            assert(all[k].contains("neutron-lockdown"@));
        } else if k < 2 + old_len {
            assert(kept(removals).contains(kept(removals)[k - 2]));
            let i = choose|i: int| 0 <= i < removals.len() && removals[i] == all[k];
            assert(removals[i].contains("neutron-lockdown"@));
        } else if k < 2 + m {
            lemma_rules(tunnels, hosts, k - 2 - old_len);
        } else {
            assert(reload().len() == 1);
        }
    }
    lemma_stays(rules, all, rule);
}

/// Turning the lockdown off takes away exactly the rules that the removals name.
pub proof fn law_turning_off(rules: Set<Batch>, removals: Seq<Batch>, rule: Batch)
    requires
        rules.contains(rule),
        rule.len() > 2,
        rule[2] == "--add-rule"@,
        only_removals(removals),
    ensures
        after(rules, removals.push(reload())).contains(rule) == !removals.contains(removal(rule)),
{
    lemma_verbs();
    let all = removals.push(reload());
    assert(reload().len() == 1);
    if removals.contains(removal(rule)) {
        let i = choose|i: int| 0 <= i < removals.len() && removals[i] == removal(rule);
        assert(all[i] == removal(rule));
        assert forall|k: int| i < k < all.len() implies #[trigger] all[k] != rule by {
            if k < removals.len() {
                assert(all[k] == removals[k]);
            }
        }
        lemma_leaves(rules, all, i, rule);
    } else {
        assert forall|k: int| 0 <= k < all.len() implies #[trigger] all[k] != removal(rule) by {
            if k < removals.len() {
                assert(all[k] == removals[k]);
                assert(removals.contains(removals[k]));
            }
        }
        lemma_stays(rules, all, rule);
    }
}

// ---------------------------------------------------------------------------
// Finding the rules again
// ---------------------------------------------------------------------------

/// The line that lists a rule of a chain: its priority and its arguments.
pub open spec fn listed(rule: Batch) -> Seq<char> {
    joined(rule.skip(6), " "@)
}

/// The line that lists a rule of the lockdown reads back as the removal of that
/// very rule, and a line without the marker as nothing.
proof fn lemma_found(family: Seq<char>, rule: Batch)
    requires
        is_own_rule_of(family, rule),
        forall|k: int| 6 <= k < rule.len() ==> is_word(#[trigger] rule[k]),
    ensures
        is_marked(listed(rule)),
        direct("--remove-rule"@, family, "mangle"@) + words_of(listed(rule)) == removal(rule),
{
    let words = rule.skip(6);
    assert forall|i: int| 0 <= i < words.len() implies is_word(#[trigger] words[i]) by {
        assert(words[i] == rule[i + 6]);
    }
    lemma_words_of_joined(words);
    let k = choose|k: int| 0 <= k < rule.skip(7).len() && rule.skip(7)[k] == "neutron-lockdown"@;
    assert(words[k + 1] == "neutron-lockdown"@);
    assert(words.contains("neutron-lockdown"@));
    let d = direct("--remove-rule"@, family, "mangle"@);
    assert(rule.take(6) == direct("--add-rule"@, family, "mangle"@));
    assert forall|i: int| 0 <= i < rule.len() implies #[trigger] (d + words)[i] == removal(
        rule,
    )[i] by {
        if i < 6 {
            assert(rule[i] == rule.take(6)[i]);
        }
    }
    assert(d + words =~= removal(rule));
}

/// Rules that carry the marker are found again in the listing of their chain: each
/// as its own removal, in the order of the listing.
pub proof fn law_own_rules_are_found(family: Seq<char>, rules: Seq<Batch>)
    requires
        are_own_rules_of(family, rules),
        forall|i: int, k: int|
            0 <= i < rules.len() && 6 <= k < rules[i].len() ==> is_word(#[trigger] rules[i][k]),
    ensures
        removals_in(family, "mangle"@, rules.map_values(|r: Batch| listed(r))) == rules.map_values(
            |r: Batch| removal(r),
        ),
    decreases rules.len(),
{
    let rows = rules.map_values(|r: Batch| listed(r));
    if rules.len() > 0 {
        let less = rules.drop_last();
        assert forall|i: int, k: int| 0 <= i < less.len() && 6 <= k < less[i].len() implies is_word(
            #[trigger] less[i][k],
        ) by {
            assert(less[i] == rules[i]);
            assert(is_word(rules[i][k]));
        }
        assert(are_own_rules_of(family, less)) by {
            assert forall|i: int| 0 <= i < less.len() implies is_own_rule_of(
                family,
                #[trigger] less[i],
            ) by {
                assert(less[i] == rules[i]);
            }
        }
        law_own_rules_are_found(family, less);
        assert(rows.drop_last() =~= less.map_values(|r: Batch| listed(r)));
        let last = rules[rules.len() - 1];
        assert forall|k: int| 6 <= k < last.len() implies is_word(#[trigger] last[k]) by {
            assert(is_word(rules[rules.len() - 1][k]));
        }
        lemma_found(family, last);
        assert(rows.last() == listed(last));
        assert(less.map_values(|r: Batch| removal(r)).push(removal(last)) =~= rules.map_values(
            |r: Batch| removal(r),
        ));
    } else {
        assert(rules.map_values(|r: Batch| removal(r)) =~= Seq::<Batch>::empty());
    }
}

/// A number is a word.
proof fn lemma_signed_word(n: int)
    ensures
        is_word(signed(n)),
{
    reveal_strlit("-");
    let m: nat = if n < 0 {
        (-n) as nat
    } else {
        n as nat
    };
    lemma_decimal_value(m, m);
    assert forall|k: int| 0 <= k < signed(n).len() implies !is_space(#[trigger] signed(n)[k]) by {
        if n < 0 && k > 0 {
            assert(signed(n)[k] == decimal(m)[k - 1]);
        }
    }
}

/// The words of the marker are words.
proof fn lemma_marker_words()
    ensures
        forall|k: int| 0 <= k < marker().len() ==> is_word(#[trigger] marker()[k]),
{
    reveal_strlit("-m");
    reveal_strlit("comment");
    reveal_strlit("--comment");
    reveal_strlit("neutron-lockdown");
    assert forall|k: int| 0 <= k < marker().len() implies is_word(#[trigger] marker()[k]) by {
        assert(k == 0 || k == 1 || k == 2 || k == 3);
    }
}

/// Rules that were added are found again in the listing of their chain, whatever
/// their priorities and whatever words they are made of: each as its own removal, in
/// the order of the listing.
pub proof fn law_added_rules_are_found(
    family: Seq<char>,
    priorities: Seq<int>,
    rules: Seq<Batch>,
)
    requires
        priorities.len() == rules.len(),
        forall|i: int, k: int|
            0 <= i < rules.len() && 0 <= k < rules[i].len() ==> is_word(#[trigger] rules[i][k]),
    ensures
        ({
            let adds = Seq::new(rules.len(), |i: int| added(family, priorities[i], rules[i]));
            removals_in(family, "mangle"@, adds.map_values(|r: Batch| listed(r)))
                == adds.map_values(|r: Batch| removal(r))
        }),
{
    let adds = Seq::new(rules.len(), |i: int| added(family, priorities[i], rules[i]));
    assert forall|i: int| 0 <= i < adds.len() implies is_own_rule_of(
        family,
        #[trigger] adds[i],
    ) by {
        lemma_added(family, priorities[i], rules[i]);
    }
    assert forall|i: int, k: int| 0 <= i < adds.len() && 6 <= k < adds[i].len() implies is_word(
        #[trigger] adds[i][k],
    ) by {
        lemma_signed_word(priorities[i]);
        lemma_marker_words();
        let rule = rules[i];
        let jump: int = if rule.len() >= 2 {
            rule.len() - 2
        } else {
            0
        };
        let j = k - 7;
        if j < 0 {
            assert(adds[i][k] == signed(priorities[i]));
        } else {
            assert(adds[i][k] == marked(rule)[j]);
            if j < jump {
                assert(marked(rule)[j] == rules[i][j]);
            } else if j < jump + 4 {
                assert(marked(rule)[j] == marker()[j - jump]);
            } else {
                assert(marked(rule)[j] == rules[i][j - 4]);
            }
        }
    }
    law_own_rules_are_found(family, adds);
}

/// Only marked rules are ever removed: each removal comes from a line that
/// carries the marker, and carries it too.
pub proof fn law_only_marked_rules_are_removed(
    family: Seq<char>,
    table: Seq<char>,
    rows: Seq<Seq<char>>,
)
    ensures
        only_removals(removals_in(family, table, rows)),
        forall|i: int|
            0 <= i < removals_in(family, table, rows).len() ==> (#[trigger] removals_in(
                family,
                table,
                rows,
            )[i]).contains("neutron-lockdown"@) && exists|j: int|
                0 <= j < rows.len() && is_marked(#[trigger] rows[j]) && removals_in(
                    family,
                    table,
                    rows,
                )[i] == direct("--remove-rule"@, family, table) + words_of(rows[j]),
    decreases rows.len(),
{
    if rows.len() > 0 {
        let less = rows.drop_last();
        law_only_marked_rules_are_removed(family, table, less);
        let found = removals_in(family, table, rows);
        let before = removals_in(family, table, less);
        assert forall|i: int| 0 <= i < found.len() implies (#[trigger] found[i]).contains(
            "neutron-lockdown"@,
        ) && found[i].len() > 2 && found[i][2] == "--remove-rule"@ && exists|j: int|
            0 <= j < rows.len() && is_marked(#[trigger] rows[j]) && found[i] == direct(
                "--remove-rule"@,
                family,
                table,
            ) + words_of(rows[j]) by {
            if i < before.len() {
                assert(found[i] == before[i]);
                let j = choose|j: int|
                    0 <= j < less.len() && is_marked(#[trigger] less[j]) && before[i] == direct(
                        "--remove-rule"@,
                        family,
                        table,
                    ) + words_of(less[j]);
                assert(rows[j] == less[j]);
            } else {
                let row = rows[rows.len() - 1];
                assert(is_marked(row));
                let w = words_of(row);
                let k = choose|k: int| 0 <= k < w.len() && w[k] == "neutron-lockdown"@;
                assert(found[i][k + 6] == "neutron-lockdown"@);
            }
        }
    }
}

/// A foreign rule that only the running firewall has is added again after a
/// reload.
pub proof fn law_foreign_runtime_rules_survive(
    rows: Seq<Seq<char>>,
    permanent: Set<Seq<char>>,
    j: int,
)
    requires
        0 <= j < rows.len(),
        !is_marked(trimmed(rows[j])),
        !permanent.contains(trimmed(rows[j])),
        words_of(trimmed(rows[j])).len() >= 4,
    ensures
        preservations_in(rows, permanent).contains(
            seq!["--direct"@, "--add-rule"@] + words_of(trimmed(rows[j])),
        ),
    decreases rows.len(),
{
    let less = rows.drop_last();
    let target = seq!["--direct"@, "--add-rule"@] + words_of(trimmed(rows[j]));
    let kept_rules = preservations_in(rows, permanent);
    let before = preservations_in(less, permanent);
    if j < less.len() {
        assert(less[j] == rows[j]);
        law_foreign_runtime_rules_survive(less, permanent, j);
        let k = choose|k: int| 0 <= k < before.len() && before[k] == target;
        assert(kept_rules[k] == target);
    } else {
        assert(trimmed(rows[j]).len() > 0) by {
            if trimmed(rows[j]).len() == 0 {
                assert(trimmed(rows[j]) =~= Seq::<char>::empty());
                assert(words_of(Seq::<char>::empty()) =~= Seq::<Seq<char>>::empty());
            }
        }
        assert(kept_rules[before.len() as int] == target);
    }
}

/// Rules that are in place match the ones that are wanted, in whatever order
/// they are listed.
pub proof fn law_installed_rules_match(removals: Seq<Batch>, rules: Seq<Batch>)
    requires
        forall|j: int| 0 <= j < rules.len() ==> (#[trigger] rules[j]).len() >= 3,
        forall|i: int|
            0 <= i < removals.len() ==> exists|j: int|
                0 <= j < rules.len() && #[trigger] removals[i] == removal(#[trigger] rules[j]),
        forall|j: int|
            0 <= j < rules.len() ==> #[trigger] removals.contains(removal(#[trigger] rules[j])),
    ensures
        rules_within(removals, rules.push(reload())),
        rules_within(rules.push(reload()), removals),
{
    let desired = rules.push(reload());
    assert(reload().len() == 1);
    assert forall|i: int|
        0 <= i < removals.len() && rule_of(#[trigger] removals[i]) is Some implies names_rule(
        desired,
        rule_of(removals[i])->0,
    ) by {
        let j = choose|j: int|
            0 <= j < rules.len() && #[trigger] removals[i] == removal(#[trigger] rules[j]);
        assert(removal(rules[j]).skip(3) =~= rules[j].skip(3));
        assert(rule_of(desired[j]) == rule_of(removals[i]));
    }
    assert forall|j: int|
        0 <= j < desired.len() && rule_of(#[trigger] desired[j]) is Some implies names_rule(
        removals,
        rule_of(desired[j])->0,
    ) by {
        if j < rules.len() {
            assert(desired[j] == rules[j]);
            assert(removals.contains(removal(rules[j])));
            let i = choose|i: int| 0 <= i < removals.len() && removals[i] == removal(rules[j]);
            assert(removal(rules[j]).skip(3) =~= rules[j].skip(3));
            assert(rule_of(removals[i]) == rule_of(desired[j]));
        }
    }
}

/// A marked line among listed rules has its removal.
proof fn lemma_marked_is_removed(
    family: Seq<char>,
    table: Seq<char>,
    rows: Seq<Seq<char>>,
    i: int,
)
    requires
        0 <= i < rows.len(),
        words_of(rows[i]).contains("neutron-lockdown"@),
    ensures
        removals_in(family, table, rows).contains(
            seq!["--permanent"@, "--direct"@, "--remove-rule"@, family, table, "OUTPUT"@]
                + words_of(rows[i]),
        ),
    decreases rows.len(),
{
    let less = rows.drop_last();
    let target = seq!["--permanent"@, "--direct"@, "--remove-rule"@, family, table, "OUTPUT"@]
        + words_of(rows[i]);
    let all = removals_in(family, table, rows);
    let before = removals_in(family, table, less);
    if i < less.len() {
        assert(less[i] == rows[i]);
        lemma_marked_is_removed(family, table, less, i);
        let k = choose|k: int| 0 <= k < before.len() && before[k] == target;
        assert(all[k] == target);
    } else {
        assert(target =~= direct("--remove-rule"@, family, table) + words_of(rows[i]));
        assert(all[before.len() as int] == target);
    }
}

/// What is found in one of several lists is found in all of them.
proof fn lemma_in_all(a: Seq<Batch>, b: Seq<Batch>, c: Seq<Batch>, d: Seq<Batch>, x: Batch)
    requires
        a.contains(x) || b.contains(x) || c.contains(x) || d.contains(x),
    ensures
        (a + b + c + d).contains(x),
{
    let all = a + b + c + d;
    if a.contains(x) {
        let k = choose|k: int| 0 <= k < a.len() && a[k] == x;
        assert(all[k] == x);
    } else if b.contains(x) {
        let k = choose|k: int| 0 <= k < b.len() && b[k] == x;
        assert(all[a.len() + k] == x);
    } else if c.contains(x) {
        let k = choose|k: int| 0 <= k < c.len() && c[k] == x;
        assert(all[a.len() + b.len() + k] == x);
    } else {
        let k = choose|k: int| 0 <= k < d.len() && d[k] == x;
        assert(all[a.len() + b.len() + c.len() + k] == x);
    }
}

/// The removal of the rule that a line lists.
pub open spec fn removal_line(family: Seq<char>, table: Seq<char>, line: Seq<char>) -> Batch {
    seq!["--permanent"@, "--direct"@, "--remove-rule"@, family, table, "OUTPUT"@] + words_of(line)
}

/// Every marked rule that is listed, of either family and in either table, is
/// removed from where it stands.
pub proof fn law_every_marked_rule_is_removed(l: Listings, line: Seq<char>)
    requires
        words_of(line).contains("neutron-lockdown"@),
    ensures
        lines_of(l.ipv4_mangle@).contains(line) ==> all_removals(l).contains(
            removal_line("ipv4"@, "mangle"@, line),
        ),
        lines_of(l.ipv4_filter@).contains(line) ==> all_removals(l).contains(
            removal_line("ipv4"@, "filter"@, line),
        ),
        lines_of(l.ipv6_mangle@).contains(line) ==> all_removals(l).contains(
            removal_line("ipv6"@, "mangle"@, line),
        ),
        lines_of(l.ipv6_filter@).contains(line) ==> all_removals(l).contains(
            removal_line("ipv6"@, "filter"@, line),
        ),
{
    let a = removals_in("ipv4"@, "mangle"@, lines_of(l.ipv4_mangle@));
    let b = removals_in("ipv4"@, "filter"@, lines_of(l.ipv4_filter@));
    let c = removals_in("ipv6"@, "mangle"@, lines_of(l.ipv6_mangle@));
    let d = removals_in("ipv6"@, "filter"@, lines_of(l.ipv6_filter@));
    assert(all_removals(l) == a + b + c + d);
    if lines_of(l.ipv4_mangle@).contains(line) {
        let rows = lines_of(l.ipv4_mangle@);
        let i = choose|i: int| 0 <= i < rows.len() && rows[i] == line;
        lemma_marked_is_removed("ipv4"@, "mangle"@, rows, i);
        lemma_in_all(a, b, c, d, removal_line("ipv4"@, "mangle"@, line));
    }
    if lines_of(l.ipv4_filter@).contains(line) {
        let rows = lines_of(l.ipv4_filter@);
        let i = choose|i: int| 0 <= i < rows.len() && rows[i] == line;
        lemma_marked_is_removed("ipv4"@, "filter"@, rows, i);
        lemma_in_all(a, b, c, d, removal_line("ipv4"@, "filter"@, line));
    }
    if lines_of(l.ipv6_mangle@).contains(line) {
        let rows = lines_of(l.ipv6_mangle@);
        let i = choose|i: int| 0 <= i < rows.len() && rows[i] == line;
        lemma_marked_is_removed("ipv6"@, "mangle"@, rows, i);
        lemma_in_all(a, b, c, d, removal_line("ipv6"@, "mangle"@, line));
    }
    if lines_of(l.ipv6_filter@).contains(line) {
        let rows = lines_of(l.ipv6_filter@);
        let i = choose|i: int| 0 <= i < rows.len() && rows[i] == line;
        lemma_marked_is_removed("ipv6"@, "filter"@, rows, i);
        lemma_in_all(a, b, c, d, removal_line("ipv6"@, "filter"@, line));
    }
}

/// What is preserved over a reload are listed rules that carry no marker and are
/// not permanent: those of the lockdown do not come back, and nothing is added
/// twice.
pub proof fn law_only_foreign_rules_are_preserved(
    rows: Seq<Seq<char>>,
    permanent: Set<Seq<char>>,
    i: int,
)
    requires
        0 <= i < preservations_in(rows, permanent).len(),
    ensures
        exists|j: int|
            0 <= j < rows.len() && preservations_in(rows, permanent)[i] == seq![
                "--direct"@,
                "--add-rule"@,
            ] + words_of(trimmed(#[trigger] rows[j])) && !words_of(trimmed(rows[j])).contains(
                "neutron-lockdown"@,
            ) && !permanent.contains(trimmed(rows[j])),
    decreases rows.len(),
{
    let less = rows.drop_last();
    let before = preservations_in(less, permanent);
    let all = preservations_in(rows, permanent);
    if i < before.len() {
        law_only_foreign_rules_are_preserved(less, permanent, i);
        let j = choose|j: int|
            0 <= j < less.len() && before[i] == seq!["--direct"@, "--add-rule"@] + words_of(
                trimmed(#[trigger] less[j]),
            ) && !words_of(trimmed(less[j])).contains("neutron-lockdown"@) && !permanent.contains(
                trimmed(less[j]),
            );
        assert(rows[j] == less[j]);
        assert(all[i] == before[i]);
    } else {
        let n = rows.len() - 1;
        assert(all[i] == seq!["--direct"@, "--add-rule"@] + words_of(trimmed(rows[n])));
    }
}

/// Turning the lockdown off succeeds exactly where both families are found without
/// a marked rule; IPv6 is looked at after IPv4.
pub proof fn law_turning_off_is_checked(
    t: Seq<(Seq<char>, AppResult<bool>)>,
    r: Result<(), AppError>,
)
    requires
        teardown_run(t, r),
    ensures
        r is Ok <==> t.len() == 2 && t[0] == ("ipv4"@, Ok::<bool, AppError>(false)) && t[1] == (
            "ipv6"@,
            Ok::<bool, AppError>(false),
        ),
        forall|i: int|
            0 <= i < t.len() ==> (#[trigger] t[i]).0 == (if i == 0 {
                "ipv4"@
            } else {
                "ipv6"@
            }),
{
}

} // verus!
