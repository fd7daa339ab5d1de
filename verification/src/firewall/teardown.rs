//! Removing and replacing the rules of the lockdown.

use vstd::prelude::*;
use vstd::string::*;

use crate::error::{AppError, AppResult};
use crate::firewall::protection::{is_rule_of, law_every_rule_is_marked};
use crate::firewall::rules::{added, direct, direct_args, drop_all, drop_rule, family_rules, host_views, lockdown_enable_batches, lockdown_rules, reload, reload_batch, Batch, HostView, ResolvedHost, LOCKDOWN_MARKER};
use crate::nm::endpoints::{tunnel_views, TunnelView, WireguardTunnel};
use crate::record::{lemma_since_one, lemma_since_push, since, Recorder};
use crate::text::{lines, lines_of, owned, same, split_whitespace, trim, trimmed, words_of};

verus! {

// ---------------------------------------------------------------------------
// Finding rules
// ---------------------------------------------------------------------------

/// Whether a line that lists a rule carries the marker, as a word of its own.
pub open spec fn is_marked(line: Seq<char>) -> bool {
    words_of(line).contains("neutron-lockdown"@)
}

/// Whether a line that lists a rule carries the marker.
pub fn line_is_marked(line: &str) -> (r: bool)
    ensures
        r == is_marked(line@),
{
    let words = split_whitespace(line);
    let mut i: usize = 0;
    while i < words.len()
        invariant
            i <= words.len(),
            words.deep_view() == words_of(line@),
            forall|k: int| 0 <= k < i ==> words.deep_view()[k] != "neutron-lockdown"@,
        decreases words.len() - i,
    {
        assert(words.deep_view()[i as int] == words[i as int]@);
        if same(words[i], LOCKDOWN_MARKER) {
            return true;
        }
        i += 1;
    }
    false
}

/// The command lines that remove the marked rules which lines list: each removes
/// one rule, by its priority and its arguments. Other rules are left alone.
pub open spec fn removals_in(family: Seq<char>, table: Seq<char>, rows: Seq<Seq<char>>) -> Seq<Batch>
    decreases rows.len(),
{
    if rows.len() == 0 {
        Seq::empty()
    } else {
        let before = removals_in(family, table, rows.drop_last());
        if is_marked(rows.last()) {
            before.push(direct("--remove-rule"@, family, table) + words_of(rows.last()))
        } else {
            before
        }
    }
}

/// The command lines that remove the marked rules of a listing.
pub fn parse_marked_removals(family: &str, table: &str, listing: &str) -> (r: Vec<Vec<String>>)
    ensures
        r.deep_view() == removals_in(family@, table@, lines_of(listing@)),
{
    let rows = lines(listing);
    let ghost all = rows.deep_view();
    let mut r: Vec<Vec<String>> = Vec::new();
    let mut i: usize = 0;
    assert(r.deep_view() =~= Seq::<Batch>::empty());
    while i < rows.len()
        invariant
            i <= rows.len(),
            all == rows.deep_view(),
            r.deep_view() == removals_in(family@, table@, all.take(i as int)),
        decreases rows.len() - i,
    {
        proof {
            let next = all.take(i as int + 1);
            assert(next.drop_last() =~= all.take(i as int));
            assert(next.last() == rows[i as int]@);
        }
        if line_is_marked(rows[i]) {
            let mut batch = direct_args("--remove-rule", family, table);
            let words = split_whitespace(rows[i]);
            let list = words.as_slice();
            assert(list.deep_view() =~= words.deep_view());
            let mut args = owned(list);
            let ghost (a, b) = (batch.deep_view(), args.deep_view());
            batch.append(&mut args);
            assert(batch.deep_view() =~= a + b);
            let ghost before = r.deep_view();
            r.push(batch);
            assert(r.deep_view() =~= before.push(a + b));
        }
        i += 1;
    }
    assert(all.take(i as int) =~= all);
    r
}

/// Whether a listing holds a marked rule.
pub fn lists_marked_rule(listing: &str) -> (r: bool)
    ensures
        r == exists|i: int|
            0 <= i < lines_of(listing@).len() && is_marked(#[trigger] lines_of(listing@)[i]),
{
    let rows = lines(listing);
    let mut i: usize = 0;
    while i < rows.len()
        invariant
            i <= rows.len(),
            rows.deep_view() == lines_of(listing@),
            forall|k: int| 0 <= k < i ==> !is_marked(#[trigger] lines_of(listing@)[k]),
        decreases rows.len() - i,
    {
        assert(rows.deep_view()[i as int] == rows[i as int]@);
        if line_is_marked(rows[i]) {
            assert(is_marked(lines_of(listing@)[i as int]));
            return true;
        }
        i += 1;
    }
    false
}

/// What the chains list: the output chains of both families, each in the table
/// that the lockdown uses and in the one that it used to use.
#[derive(Debug)]
pub struct Listings {
    pub ipv4_mangle: String,
    pub ipv4_filter: String,
    pub ipv6_mangle: String,
    pub ipv6_filter: String,
}

/// The removals of all marked rules of both families.
pub open spec fn all_removals(l: Listings) -> Seq<Batch> {
    removals_in("ipv4"@, "mangle"@, lines_of(l.ipv4_mangle@)) + removals_in(
        "ipv4"@,
        "filter"@,
        lines_of(l.ipv4_filter@),
    ) + removals_in("ipv6"@, "mangle"@, lines_of(l.ipv6_mangle@)) + removals_in(
        "ipv6"@,
        "filter"@,
        lines_of(l.ipv6_filter@),
    )
}

/// The command lines that remove every marked rule of both families.
pub fn marked_removal_batches(listings: &Listings) -> (r: Vec<Vec<String>>)
    ensures
        r.deep_view() == all_removals(*listings),
{
    let mut r = parse_marked_removals("ipv4", "mangle", listings.ipv4_mangle.as_str());
    let mut b = parse_marked_removals("ipv4", "filter", listings.ipv4_filter.as_str());
    let mut c = parse_marked_removals("ipv6", "mangle", listings.ipv6_mangle.as_str());
    let mut d = parse_marked_removals("ipv6", "filter", listings.ipv6_filter.as_str());
    let ghost (w, x, y, z) = (r.deep_view(), b.deep_view(), c.deep_view(), d.deep_view());
    r.append(&mut b);
    assert(r.deep_view() =~= w + x);
    r.append(&mut c);
    assert(r.deep_view() =~= w + x + y);
    r.append(&mut d);
    assert(r.deep_view() =~= w + x + y + z);
    r
}

/// What is said when the rules of a family cannot be read.
pub fn listing_error(family: &str, stderr: &str) -> (r: AppError)
    ensures
        r matches AppError::Firewall(m) && m@ == (if trimmed(stderr@).len() == 0 {
            "firewall-cmd --get-rules ("@ + family@ + ") failed"@
        } else {
            trimmed(stderr@)
        }),
{
    let said = trim(stderr);
    AppError::Firewall(
        if said.is_empty() {
            "firewall-cmd --get-rules (".to_owned().concat(family).concat(") failed")
        } else {
            said.to_owned()
        },
    )
}

/// The trimmed lines that are not empty.
pub open spec fn listed_rules(rows: Seq<Seq<char>>) -> Set<Seq<char>> {
    Set::new(
        |t: Seq<char>|
            t.len() > 0 && exists|i: int| 0 <= i < rows.len() && trimmed(#[trigger] rows[i]) == t,
    )
}

/// The command lines that add the foreign rules which only the running firewall
/// has: those that carry no marker and that are not permanent. A line names the
/// family, the table, the chain and the priority of a rule before its arguments.
pub open spec fn preservations_in(rows: Seq<Seq<char>>, permanent: Set<Seq<char>>) -> Seq<Batch>
    decreases rows.len(),
{
    if rows.len() == 0 {
        Seq::empty()
    } else {
        let before = preservations_in(rows.drop_last(), permanent);
        let t = trimmed(rows.last());
        if t.len() == 0 || is_marked(t) || permanent.contains(t) || words_of(t).len() < 4 {
            before
        } else {
            before.push(seq!["--direct"@, "--add-rule"@] + words_of(t))
        }
    }
}

/// Whether a trimmed line stands in a listing.
fn lists(rows: &Vec<&str>, t: &str) -> (r: bool)
    requires
        t@.len() > 0,
    ensures
        r == listed_rules(rows.deep_view()).contains(t@),
{
    let mut i: usize = 0;
    while i < rows.len()
        invariant
            i <= rows.len(),
            t@.len() > 0,
            forall|k: int| 0 <= k < i ==> trimmed(#[trigger] rows.deep_view()[k]) != t@,
        decreases rows.len() - i,
    {
        assert(rows.deep_view()[i as int] == rows[i as int]@);
        if same(trim(rows[i]), t) {
            assert(trimmed(rows.deep_view()[i as int]) == t@);
            return true;
        }
        i += 1;
    }
    false
}

/// The command lines that add the foreign rules again which only the running
/// firewall has, and which a reload would drop.
pub fn parse_foreign_runtime_preservations(runtime_listing: &str, permanent_listing: &str) -> (r: Vec<
    Vec<String>,
>)
    ensures
        r.deep_view() == preservations_in(
            lines_of(runtime_listing@),
            listed_rules(lines_of(permanent_listing@)),
        ),
{
    let permanent = lines(permanent_listing);
    let rows = lines(runtime_listing);
    let ghost all = rows.deep_view();
    let ghost known = listed_rules(permanent.deep_view());
    let mut r: Vec<Vec<String>> = Vec::new();
    let mut i: usize = 0;
    assert(r.deep_view() =~= Seq::<Batch>::empty());
    while i < rows.len()
        invariant
            i <= rows.len(),
            all == rows.deep_view(),
            known == listed_rules(permanent.deep_view()),
            r.deep_view() == preservations_in(all.take(i as int), known),
        decreases rows.len() - i,
    {
        proof {
            let next = all.take(i as int + 1);
            assert(next.drop_last() =~= all.take(i as int));
            assert(next.last() == rows[i as int]@);
        }
        let t = trim(rows[i]);
        if !t.is_empty() && !line_is_marked(t) && !lists(&permanent, t) {
            let words = split_whitespace(t);
            if words.len() >= 4 {
                let list = words.as_slice();
                assert(list.deep_view() =~= words.deep_view());
                let mut args = owned(list);
                let mut batch = vec!["--direct".to_owned(), "--add-rule".to_owned()];
                let ghost b = args.deep_view();
                batch.append(&mut args);
                assert(batch.deep_view() =~= seq!["--direct"@, "--add-rule"@] + b);
                let ghost before = r.deep_view();
                let ghost view = batch.deep_view();
                r.push(batch);
                assert(r.deep_view() =~= before.push(view));
            }
        }
        i += 1;
    }
    assert(all.take(i as int) =~= all);
    r
}

// ---------------------------------------------------------------------------
// Replacing the rules
// ---------------------------------------------------------------------------

/// The rule that drops everything of a family while its rules are replaced.
pub open spec fn guard(family: Seq<char>) -> Batch {
    added(family, -1, drop_all())
}

/// The command line that removes the rule which another one adds.
pub open spec fn removal(add: Batch) -> Batch {
    add.update(2, "--remove-rule"@)
}

/// The removals that do not remove a guard.
pub open spec fn kept(removals: Seq<Batch>) -> Seq<Batch>
    decreases removals.len(),
{
    if removals.len() == 0 {
        Seq::empty()
    } else {
        let before = kept(removals.drop_last());
        let b = removals.last();
        if b == removal(guard("ipv4"@)) || b == removal(guard("ipv6"@)) {
            before
        } else {
            before.push(b)
        }
    }
}

/// The guards of both families.
pub open spec fn guards() -> Seq<Batch> {
    seq![guard("ipv4"@), guard("ipv6"@)]
}

/// The command lines that take the guards away again.
pub open spec fn unguards() -> Seq<Batch> {
    seq![removal(guard("ipv4"@)), removal(guard("ipv6"@))]
}

/// The command lines that replace the rules: the guards come first and leave
/// last, so that at no point is a family without protection.
pub open spec fn rebuild_of(
    removals: Seq<Batch>,
    tunnels: Seq<TunnelView>,
    hosts: Seq<HostView>,
) -> Seq<Batch> {
    guards() + (kept(removals) + lockdown_rules(tunnels, hosts)) + unguards() + seq![reload()]
}

/// Whether two command lines are the same.
pub fn same_batch(a: &Vec<String>, b: &Vec<String>) -> (r: bool)
    ensures
        r == (a.deep_view() == b.deep_view()),
{
    if a.len() != b.len() {
        assert(a.deep_view().len() != b.deep_view().len());
        return false;
    }
    let mut i: usize = 0;
    while i < a.len()
        invariant
            i <= a.len(),
            a.len() == b.len(),
            forall|k: int| 0 <= k < i ==> a.deep_view()[k] == b.deep_view()[k],
        decreases a.len() - i,
    {
        if !same(a[i].as_str(), b[i].as_str()) {
            assert(a.deep_view()[i as int] != b.deep_view()[i as int]);
            return false;
        }
        i += 1;
    }
    assert(a.deep_view() =~= b.deep_view());
    true
}

/// The command line that removes the guard of a family.
fn guard_removal(family: &str) -> (r: Vec<String>)
    ensures
        r.deep_view() == removal(guard(family@)),
{
    let mut r = drop_rule(family, -1);
    let ghost g = r.deep_view();
    assert(g.len() > 2);
    r.set(2, "--remove-rule".to_owned());
    assert(r.deep_view() =~= removal(g));
    r
}

/// The command lines that replace the rules. Guards that an interrupted
/// replacement left are not removed before the new rules are in place.
pub fn lockdown_rebuild_batches(
    removals: Vec<Vec<String>>,
    tunnels: &[WireguardTunnel],
    hosts: &[ResolvedHost],
) -> (r: Vec<Vec<String>>)
    ensures
        r.deep_view() == rebuild_of(
            removals.deep_view(),
            tunnel_views(tunnels@),
            host_views(hosts@),
        ),
{
    let ghost all = removals.deep_view();
    let off4 = guard_removal("ipv4");
    let off6 = guard_removal("ipv6");
    let mut r: Vec<Vec<String>> = vec![drop_rule("ipv4", -1), drop_rule("ipv6", -1)];
    assert(r.deep_view() =~= guards());
    let mut i: usize = 0;
    assert(guards() + kept(all.take(0)) =~= guards());
    while i < removals.len()
        invariant
            i <= removals.len(),
            all == removals.deep_view(),
            off4.deep_view() == removal(guard("ipv4"@)),
            off6.deep_view() == removal(guard("ipv6"@)),
            r.deep_view() == guards() + kept(all.take(i as int)),
        decreases removals.len() - i,
    {
        proof {
            let next = all.take(i as int + 1);
            assert(next.drop_last() =~= all.take(i as int));
            assert(next.last() == removals[i as int].deep_view());
        }
        if !same_batch(&removals[i], &off4) && !same_batch(&removals[i], &off6) {
            let list = removals[i].as_slice();
            assert(list.deep_view() =~= removals[i as int].deep_view());
            let copy = crate::text::copied(list);
            let ghost now = r.deep_view();
            let ghost view = copy.deep_view();
            r.push(copy);
            assert(r.deep_view() =~= now.push(view));
        }
        i += 1;
        assert(r.deep_view() =~= guards() + kept(all.take(i as int)));
    }
    assert(all.take(i as int) =~= all);
    let mut replacement = lockdown_enable_batches(tunnels, hosts);
    let ghost rules = lockdown_rules(tunnel_views(tunnels@), host_views(hosts@));
    let ghost full = replacement.deep_view();
    let _ = replacement.pop();
    assert(replacement.deep_view() =~= rules) by {
        assert(full.drop_last() =~= rules);
    }
    let ghost now = r.deep_view();
    r.append(&mut replacement);
    assert(r.deep_view() =~= now + rules);
    let ghost filled = r.deep_view();
    r.push(off4);
    assert(r.deep_view() =~= filled.push(unguards()[0]));
    r.push(off6);
    assert(r.deep_view() =~= filled + unguards());
    r.push(reload_batch());
    assert(r.deep_view() =~= (filled + unguards()).push(reload()));
    assert(r.deep_view() =~= rebuild_of(all, tunnel_views(tunnels@), host_views(hosts@)));
    r
}

/// The command lines that turn the lockdown on: the replacement of what is there,
/// then the foreign rules that the reload drops.
pub fn enable_batches(
    removals: Vec<Vec<String>>,
    tunnels: &[WireguardTunnel],
    hosts: &[ResolvedHost],
    preservations: Vec<Vec<String>>,
) -> (r: Vec<Vec<String>>)
    ensures
        r.deep_view() == rebuild_of(
            removals.deep_view(),
            tunnel_views(tunnels@),
            host_views(hosts@),
        ) + preservations.deep_view(),
{
    let mut r = lockdown_rebuild_batches(removals, tunnels, hosts);
    let mut more = preservations;
    let ghost (a, b) = (r.deep_view(), more.deep_view());
    r.append(&mut more);
    assert(r.deep_view() =~= a + b);
    r
}

/// The command lines that turn the lockdown off: the removal of its own rules, the
/// reload, then the foreign rules that the reload drops.
pub fn disable_batches(removals: Vec<Vec<String>>, preservations: Vec<Vec<String>>) -> (r: Vec<
    Vec<String>,
>)
    ensures
        r.deep_view() == removals.deep_view().push(reload()) + preservations.deep_view(),
{
    let mut r = removals;
    let mut more = preservations;
    let ghost (a, b) = (r.deep_view(), more.deep_view());
    r.push(reload_batch());
    assert(r.deep_view() =~= a.push(reload()));
    r.append(&mut more);
    assert(r.deep_view() =~= a.push(reload()) + b);
    r
}

/// What is said of a teardown that left a rule of a family.
pub open spec fn leftover_text(family: Seq<char>) -> Seq<char> {
    "lockdown could not remove all of its own rules from the "@ + family
        + " OUTPUT chain; left foreign rules untouched"@
}

/// Whether looking at a family after a teardown ends it with `r`: it could not be
/// looked at, or a marked rule is left.
pub open spec fn ends_teardown(
    family: Seq<char>,
    left: AppResult<bool>,
    r: Result<(), AppError>,
) -> bool {
    match left {
        Err(e) => r == Err::<(), AppError>(e),
        Ok(marked) => marked && (r matches Err(AppError::Firewall(m)) && m@ == leftover_text(
            family,
        )),
    }
}

/// Whether looking at the families after a teardown comes to `r`: they are looked
/// at one after the other, up to the first that ends it.
pub open spec fn teardown_run(
    t: Seq<(Seq<char>, AppResult<bool>)>,
    r: Result<(), AppError>,
) -> bool {
    t.len() > 0 && t[0].0 == "ipv4"@ && if t[0].1 == Ok::<bool, AppError>(false) {
        t.len() == 2 && t[1].0 == "ipv6"@ && if t[1].1 == Ok::<bool, AppError>(false) {
            r is Ok
        } else {
            ends_teardown("ipv6"@, t[1].1, r)
        }
    } else {
        t.len() == 1 && ends_teardown("ipv4"@, t[0].1, r)
    }
}

/// What looking at one family after a teardown comes to.
fn family_outcome(family: &str, left: AppResult<bool>) -> (r: Result<(), AppError>)
    ensures
        if left == Ok::<bool, AppError>(false) {
            r is Ok
        } else {
            ends_teardown(family@, left, r)
        },
{
    match left {
        Ok(marked) => if marked {
            Err(
                AppError::Firewall(
                    "lockdown could not remove all of its own rules from the ".to_owned().concat(
                        family,
                    ).concat(" OUTPUT chain; left foreign rules untouched"),
                ),
            )
        } else {
            Ok(())
        },
        Err(e) => Err(e),
    }
}

/// What a teardown comes to, where `left` tells whether a family still lists a
/// marked rule.
pub fn teardown_outcome<F: Fn(&str) -> AppResult<bool>>(
    left: &mut Recorder<str, AppResult<bool>, F>,
) -> (r: Result<(), AppError>)
    ensures
        final(left).follows(*old(left)),
        teardown_run(since(old(left).calls(), final(left).calls()), r),
{
    let ghost start = left.calls();
    let first = left.ask("ipv4");
    proof {
        lemma_since_one(start, ("ipv4"@, first));
    }
    match family_outcome("ipv4", first) {
        Ok(_) => {},
        Err(e) => {
            return Err(e);
        },
    }
    let ghost middle = left.calls();
    let second = left.ask("ipv6");
    proof {
        lemma_since_push(start, middle, ("ipv6"@, second));
    }
    family_outcome("ipv6", second)
}

// ---------------------------------------------------------------------------
// Refreshing the rules
// ---------------------------------------------------------------------------

/// The rule that a command line adds or removes, without the words that say
/// which; nothing for a command line that names no rule.
pub open spec fn rule_of(b: Batch) -> Option<Batch> {
    if b.len() >= 3 {
        Some(b.skip(3))
    } else {
        None
    }
}

/// Whether command lines name a rule.
pub open spec fn names_rule(batches: Seq<Batch>, rule: Batch) -> bool {
    exists|i: int| 0 <= i < batches.len() && rule_of(#[trigger] batches[i]) == Some(rule)
}

/// Whether every rule of `a` is a rule of `b`.
pub open spec fn rules_within(a: Seq<Batch>, b: Seq<Batch>) -> bool {
    forall|i: int|
        0 <= i < a.len() && rule_of(#[trigger] a[i]) is Some ==> names_rule(b, rule_of(a[i])->0)
}

/// Whether two command lines name the same rule.
fn same_rule(a: &Vec<String>, b: &Vec<String>) -> (r: bool)
    requires
        a.len() >= 3,
        b.len() >= 3,
    ensures
        r == (rule_of(a.deep_view()) == rule_of(b.deep_view())),
{
    let ghost x = a.deep_view().skip(3);
    let ghost y = b.deep_view().skip(3);
    if a.len() != b.len() {
        assert(x.len() != y.len());
        return false;
    }
    let mut i: usize = 3;
    while i < a.len()
        invariant
            3 <= i <= a.len(),
            a.len() == b.len(),
            x == a.deep_view().skip(3),
            y == b.deep_view().skip(3),
            forall|k: int| 0 <= k < i - 3 ==> x[k] == y[k],
        decreases a.len() - i,
    {
        assert(x[i - 3] == a[i as int]@ && y[i - 3] == b[i as int]@);
        if !same(a[i].as_str(), b[i].as_str()) {
            return false;
        }
        i += 1;
    }
    assert(x =~= y);
    true
}

/// Whether every rule of `a` is a rule of `b`.
fn all_within(a: &[Vec<String>], b: &[Vec<String>]) -> (r: bool)
    ensures
        r == rules_within(a.deep_view(), b.deep_view()),
{
    let ghost xs = a.deep_view();
    let ghost ys = b.deep_view();
    let mut i: usize = 0;
    while i < a.len()
        invariant
            i <= a.len(),
            xs == a.deep_view(),
            ys == b.deep_view(),
            forall|k: int|
                0 <= k < i && rule_of(#[trigger] xs[k]) is Some ==> names_rule(
                    ys,
                    rule_of(xs[k])->0,
                ),
        decreases a.len() - i,
    {
        assert(xs[i as int] == a[i as int].deep_view());
        if a[i].len() >= 3 {
            let ghost rule = rule_of(xs[i as int])->0;
            let mut found = false;
            let mut j: usize = 0;
            while j < b.len()
                invariant
                    i < a.len(),
                    j <= b.len(),
                    xs == a.deep_view(),
                    ys == b.deep_view(),
                    a[i as int].len() >= 3,
                    xs[i as int] == a[i as int].deep_view(),
                    rule_of(xs[i as int]) == Some(rule),
                    found == (exists|k: int|
                        0 <= k < j && rule_of(#[trigger] ys[k]) == Some(rule)),
                decreases b.len() - j,
            {
                assert(ys[j as int] == b[j as int].deep_view());
                if b[j].len() >= 3 && same_rule(&a[i], &b[j]) {
                    found = true;
                }
                j += 1;
            }
            if !found {
                assert(!names_rule(ys, rule));
                return false;
            }
        }
        i += 1;
    }
    true
}

/// Whether the rules that removals name are exactly the rules that are wanted, in
/// whatever order.
pub fn rules_match(removals: &[Vec<String>], desired: &[Vec<String>]) -> (r: bool)
    ensures
        r == (rules_within(removals.deep_view(), desired.deep_view()) && rules_within(
            desired.deep_view(),
            removals.deep_view(),
        )),
{
    all_within(removals, desired) && all_within(desired, removals)
}

/// Permanent command lines turned into ones for the running firewall: without the
/// word that makes them permanent, and without the reload.
pub open spec fn runtime_form(batches: Seq<Batch>) -> Seq<Batch>
    decreases batches.len(),
{
    if batches.len() == 0 {
        Seq::empty()
    } else {
        let before = runtime_form(batches.drop_last());
        if batches.last().len() > 1 {
            before.push(batches.last().skip(1))
        } else {
            before
        }
    }
}

/// Permanent command lines turned into ones for the running firewall.
fn to_runtime(batches: Vec<Vec<String>>) -> (r: Vec<Vec<String>>)
    ensures
        r.deep_view() == runtime_form(batches.deep_view()),
{
    let ghost all = batches.deep_view();
    let mut r: Vec<Vec<String>> = Vec::new();
    let mut i: usize = 0;
    assert(r.deep_view() =~= Seq::<Batch>::empty());
    while i < batches.len()
        invariant
            i <= batches.len(),
            all == batches.deep_view(),
            r.deep_view() == runtime_form(all.take(i as int)),
        decreases batches.len() - i,
    {
        proof {
            let next = all.take(i as int + 1);
            assert(next.drop_last() =~= all.take(i as int));
            assert(next.last() == batches[i as int].deep_view());
        }
        if batches[i].len() > 1 {
            let list = batches[i].as_slice();
            assert(list.deep_view() =~= batches[i as int].deep_view());
            let mut copy = crate::text::copied(list);
            let ghost whole = copy.deep_view();
            let _ = copy.remove(0);
            assert(copy.deep_view() =~= whole.skip(1));
            let ghost before = r.deep_view();
            let ghost view = copy.deep_view();
            r.push(copy);
            assert(r.deep_view() =~= before.push(view));
        }
        i += 1;
    }
    assert(all.take(i as int) =~= all);
    r
}

/// Whether rules that are there have to be replaced.
pub open spec fn outdated(
    current: Seq<Batch>,
    tunnels: Seq<TunnelView>,
    hosts: Seq<HostView>,
) -> bool {
    let desired = lockdown_rules(tunnels, hosts).push(reload());
    !(rules_within(current, desired) && rules_within(desired, current))
}

/// The command lines that refresh the lockdown, given the removals of the
/// permanent rules and those of the running ones, both in the permanent form:
/// what matches is left as it is.
pub open spec fn refresh_of(
    permanent: Seq<Batch>,
    runtime: Seq<Batch>,
    tunnels: Seq<TunnelView>,
    hosts: Seq<HostView>,
) -> Seq<Batch> {
    (if outdated(permanent, tunnels, hosts) {
        rebuild_of(permanent, tunnels, hosts)
    } else {
        Seq::empty()
    }) + (if outdated(runtime, tunnels, hosts) {
        runtime_form(rebuild_of(runtime, tunnels, hosts))
    } else {
        Seq::empty()
    })
}

/// The command lines that refresh the lockdown.
pub fn refresh_batches(
    permanent: Vec<Vec<String>>,
    runtime: Vec<Vec<String>>,
    tunnels: &[WireguardTunnel],
    hosts: &[ResolvedHost],
) -> (r: Vec<Vec<String>>)
    ensures
        r.deep_view() == refresh_of(
            permanent.deep_view(),
            runtime.deep_view(),
            tunnel_views(tunnels@),
            host_views(hosts@),
        ),
{
    let ghost (views, known) = (tunnel_views(tunnels@), host_views(hosts@));
    let ghost (p, q) = (permanent.deep_view(), runtime.deep_view());
    let desired = lockdown_enable_batches(tunnels, hosts);
    let wanted = desired.as_slice();
    assert(wanted.deep_view() =~= desired.deep_view());
    let mut r: Vec<Vec<String>> = Vec::new();
    assert(r.deep_view() =~= Seq::<Batch>::empty());
    let now = permanent.as_slice();
    assert(now.deep_view() =~= p);
    if !rules_match(now, wanted) {
        r = lockdown_rebuild_batches(permanent, tunnels, hosts);
    }
    let live = runtime.as_slice();
    assert(live.deep_view() =~= q);
    let ghost first = r.deep_view();
    if !rules_match(live, wanted) {
        let mut more = to_runtime(lockdown_rebuild_batches(runtime, tunnels, hosts));
        let ghost second = more.deep_view();
        r.append(&mut more);
        assert(r.deep_view() =~= first + second);
    }
    assert(r.deep_view() =~= refresh_of(p, q, views, known));
    r
}

/// What a refresh goes by, besides the permanent rules.
#[derive(Debug)]
pub struct Situation {
    /// The removals of the running rules, in the permanent form.
    pub runtime: Vec<Vec<String>>,
    /// The tunnels that there are.
    pub tunnels: Vec<WireguardTunnel>,
    /// What the host names of their peers resolve to.
    pub hosts: Vec<ResolvedHost>,
}

/// What the helper does once the situation was looked at: the command lines of the
/// refresh, where there are any; where looking failed, nothing but to say so.
pub open spec fn plan_of(
    permanent: Seq<Batch>,
    situation: AppResult<Situation>,
    r: AppResult<Option<Vec<Vec<String>>>>,
) -> bool {
    match situation {
        Err(e) => r == Err::<Option<Vec<Vec<String>>>, AppError>(e),
        Ok(s) => {
            let wanted = refresh_of(
                permanent,
                s.runtime.deep_view(),
                tunnel_views(s.tunnels@),
                host_views(s.hosts@),
            );
            match r {
                Ok(Some(batches)) => wanted.len() > 0 && batches.deep_view() == wanted,
                Ok(None) => wanted.len() == 0,
                Err(_) => false,
            }
        },
    }
}

/// What the helper does, given the removals of the permanent rules. Where there is
/// none the lockdown is off: the helper looks no further and changes nothing, so
/// that it never turns the lockdown on.
pub fn helper_plan<L: FnOnce() -> AppResult<Situation>>(
    permanent: Vec<Vec<String>>,
    look: L,
) -> (r: AppResult<Option<Vec<Vec<String>>>>)
    requires
        permanent@.len() > 0 ==> look.requires(()),
    ensures
        permanent@.len() == 0 ==> r == Ok::<Option<Vec<Vec<String>>>, AppError>(None),
        permanent@.len() > 0 ==> exists|situation: AppResult<Situation>| #[trigger]
            look.ensures((), situation) && plan_of(permanent.deep_view(), situation, r),
{
    if permanent.len() == 0 {
        return Ok(None);
    }
    let ghost now = permanent.deep_view();
    let situation = look();
    let ghost seen = situation;
    match situation {
        Err(e) => {
            let r: AppResult<Option<Vec<Vec<String>>>> = Err(e);
            assert(look.ensures((), seen) && plan_of(now, seen, r));
            r
        },
        Ok(s) => {
            let batches = refresh_batches(
                permanent,
                s.runtime,
                s.tunnels.as_slice(),
                s.hosts.as_slice(),
            );
            let ghost wanted = batches.deep_view();
            let r: AppResult<Option<Vec<Vec<String>>>> = if batches.len() == 0 {
                Ok(None)
            } else {
                Ok(Some(batches))
            };
            assert(look.ensures((), seen) && plan_of(now, seen, r));
            r
        },
    }
}

/// The commands for the rules that are in force are the permanent ones without the
/// word that makes them so; the reload has none.
pub proof fn law_runtime_commands(batches: Seq<Batch>, i: int)
    requires
        0 <= i < runtime_form(batches).len(),
    ensures
        exists|k: int|
            0 <= k < batches.len() && (#[trigger] batches[k]).len() > 1 && runtime_form(batches)[i]
                == batches[k].skip(1),
    decreases batches.len(),
{
    let less = batches.drop_last();
    let before = runtime_form(less);
    if i < before.len() {
        law_runtime_commands(less, i);
        let k = choose|k: int|
            0 <= k < less.len() && (#[trigger] less[k]).len() > 1 && before[i] == less[k].skip(1);
        assert(batches[k] == less[k]);
    } else {
        assert(batches[batches.len() - 1].len() > 1);
    }
}

/// Every command but the reload has its form for the rules that are in force.
pub proof fn law_every_command_has_a_runtime_form(batches: Seq<Batch>, k: int)
    requires
        0 <= k < batches.len(),
        batches[k].len() > 1,
    ensures
        runtime_form(batches).contains(batches[k].skip(1)),
    decreases batches.len(),
{
    let less = batches.drop_last();
    let before = runtime_form(less);
    let all = runtime_form(batches);
    if k < less.len() {
        assert(less[k] == batches[k]);
        law_every_command_has_a_runtime_form(less, k);
        let i = choose|i: int| 0 <= i < before.len() && before[i] == batches[k].skip(1);
        assert(all[i] == before[i]);
    } else {
        assert(all[before.len() as int] == batches[k].skip(1));
    }
}

/// Whether a rule is among command lines, whatever they do with it: with its family,
/// table, chain, priority and options.
pub open spec fn has_rule(batches: Seq<Batch>, words: Batch) -> bool {
    exists|i: int| 0 <= i < batches.len() && (#[trigger] batches[i]).skip(3) == words
}

/// Whether listed rules, each as its removal, are exactly the wanted ones.
pub open spec fn lists_exactly(listed: Seq<Batch>, wanted: Seq<Batch>) -> bool {
    &&& forall|i: int|
        0 <= i < listed.len() ==> has_rule(wanted, (#[trigger] listed[i]).skip(3))
    &&& forall|j: int|
        0 <= j < wanted.len() ==> has_rule(listed, (#[trigger] wanted[j]).skip(3))
}

/// Rules within others, the reload aside.
proof fn lemma_within(a: Seq<Batch>, b: Seq<Batch>)
    requires
        forall|i: int| 0 <= i < a.len() ==> (#[trigger] a[i]).len() >= 3,
        forall|i: int| 0 <= i < b.len() ==> (#[trigger] b[i]).len() >= 3,
    ensures
        rules_within(a, b.push(reload())) <==> forall|i: int|
            0 <= i < a.len() ==> has_rule(b, (#[trigger] a[i]).skip(3)),
        rules_within(a.push(reload()), b) <==> forall|i: int|
            0 <= i < a.len() ==> has_rule(b, (#[trigger] a[i]).skip(3)),
{
    let (c, d) = (a.push(reload()), b.push(reload()));
    assert(reload().len() == 1);
    assert(forall|i: int| 0 <= i < a.len() ==> c[i] == a[i]);
    assert(forall|i: int| 0 <= i < b.len() ==> d[i] == b[i]);
    assert forall|words: Batch| #[trigger] names_rule(b, words) <==> has_rule(b, words) by {
        if names_rule(b, words) {
            let i = choose|i: int| 0 <= i < b.len() && rule_of(#[trigger] b[i]) == Some(words);
            assert(b[i].skip(3) == words);
        }
        if has_rule(b, words) {
            let i = choose|i: int| 0 <= i < b.len() && (#[trigger] b[i]).skip(3) == words;
            assert(rule_of(b[i]) == Some(words));
        }
    }
    assert forall|words: Batch| #[trigger] names_rule(d, words) <==> names_rule(b, words) by {
        if names_rule(d, words) {
            let i = choose|i: int| 0 <= i < d.len() && rule_of(#[trigger] d[i]) == Some(words);
            assert(rule_of(b[i]) == Some(words));
        }
        if names_rule(b, words) {
            let i = choose|i: int| 0 <= i < b.len() && rule_of(#[trigger] b[i]) == Some(words);
            assert(rule_of(d[i]) == Some(words));
        }
    }
    assert forall|i: int| 0 <= i < a.len() implies rule_of(#[trigger] a[i]) == Some(
        a[i].skip(3),
    ) by {}
    if rules_within(a, d) {
        assert forall|i: int| 0 <= i < a.len() implies has_rule(b, (#[trigger] a[i]).skip(3)) by {
            assert(names_rule(d, a[i].skip(3)));
            assert(names_rule(b, a[i].skip(3)));
        }
    }
    if rules_within(c, b) {
        assert forall|i: int| 0 <= i < a.len() implies has_rule(b, (#[trigger] a[i]).skip(3)) by {
            assert(rule_of(c[i]) == Some(a[i].skip(3)));
            assert(names_rule(b, a[i].skip(3)));
        }
    }
}

proof fn lemma_outdated(current: Seq<Batch>, tunnels: Seq<TunnelView>, hosts: Seq<HostView>)
    requires
        forall|i: int| 0 <= i < current.len() ==> (#[trigger] current[i]).len() >= 3,
    ensures
        outdated(current, tunnels, hosts) <==> !lists_exactly(
            current,
            lockdown_rules(tunnels, hosts),
        ),
{
    let (a, b) = (family_rules("ipv4"@, tunnels, hosts), family_rules("ipv6"@, tunnels, hosts));
    law_every_rule_is_marked("ipv4"@, tunnels, hosts);
    law_every_rule_is_marked("ipv6"@, tunnels, hosts);
    let wanted = lockdown_rules(tunnels, hosts);
    assert forall|j: int| 0 <= j < wanted.len() implies (#[trigger] wanted[j]).len() >= 3 by {
        if j < a.len() {
            assert(is_rule_of("ipv4"@, a[j]));
        } else {
            assert(is_rule_of("ipv6"@, b[j - a.len()]));
        }
    }
    lemma_within(current, lockdown_rules(tunnels, hosts));
    lemma_within(lockdown_rules(tunnels, hosts), current);
}

/// A refresh replaces the permanent rules, or those in force, exactly where they are
/// not the ones that the tunnels and hosts of now ask for; where both are, it does
/// nothing.
pub proof fn law_refresh_replaces_what_is_outdated(
    permanent: Seq<Batch>,
    runtime: Seq<Batch>,
    tunnels: Seq<TunnelView>,
    hosts: Seq<HostView>,
)
    requires
        forall|i: int| 0 <= i < permanent.len() ==> (#[trigger] permanent[i]).len() >= 3,
        forall|i: int| 0 <= i < runtime.len() ==> (#[trigger] runtime[i]).len() >= 3,
    ensures
        ({
            let wanted = lockdown_rules(tunnels, hosts);
            refresh_of(permanent, runtime, tunnels, hosts) == (if lists_exactly(permanent, wanted) {
                Seq::empty()
            } else {
                rebuild_of(permanent, tunnels, hosts)
            }) + (if lists_exactly(runtime, wanted) {
                Seq::empty()
            } else {
                runtime_form(rebuild_of(runtime, tunnels, hosts))
            })
        }),
{
    lemma_outdated(permanent, tunnels, hosts);
    lemma_outdated(runtime, tunnels, hosts);
}

} // verus!
