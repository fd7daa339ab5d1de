//! Changing the split tunneling of all profiles.
//!
//! A change is applied to NetworkManager before it is saved: what could not be
//! applied is never recorded.

use vstd::prelude::*;
use vstd::string::*;

use crate::config::{AppConfig, SplitTunnelConfig, SplitTunnelMode, SplitTunnelView};
use crate::error::{AppError, AppResult};
use crate::ip::IpAddr;
use crate::nm::split_tunnel::{are_routes_for, cidr_of, cidr_text, domain_of, normalize_domain, parse_and_normalize_cidr, routes_for};
use crate::text::{has_text, lowercased, same, trimmed};

verus! {

/// The split tunneling of all profiles.
pub fn get_global_split_tunnel(config: &AppConfig) -> (r: SplitTunnelConfig)
    ensures
        r@ == config.global_split_tunnel@,
{
    config.global_split_tunnel.clone()
}

// ---------------------------------------------------------------------------
// Editing
// ---------------------------------------------------------------------------

/// A list with an item, which is not put in twice.
pub open spec fn with_item(list: Seq<Seq<char>>, item: Seq<char>) -> Seq<Seq<char>> {
    if list.contains(item) {
        list
    } else {
        list.push(item)
    }
}

/// A list without two items.
pub open spec fn without_items(list: Seq<Seq<char>>, a: Seq<char>, b: Seq<char>) -> Seq<Seq<char>>
    decreases list.len(),
{
    if list.len() == 0 {
        Seq::empty()
    } else {
        let before = without_items(list.drop_last(), a, b);
        if list.last() == a || list.last() == b {
            before
        } else {
            before.push(list.last())
        }
    }
}

/// A configuration in another mode.
pub open spec fn with_mode(cfg: SplitTunnelView, mode: SplitTunnelMode) -> SplitTunnelView {
    SplitTunnelView { mode, ..cfg }
}

/// The normal form of a block; nothing where it is none.
pub open spec fn normal_cidr(cidr: Seq<char>) -> Seq<char> {
    match cidr_of(cidr) {
        Ok((ip, prefix)) => cidr_text(ip, prefix),
        Err(_) => Seq::empty(),
    }
}

/// The normal form of a domain; nothing where it is empty.
pub open spec fn normal_domain(domain: Seq<char>) -> Seq<char> {
    match domain_of(lowercased(trimmed(domain))) {
        Some(d) => d,
        None => Seq::empty(),
    }
}

/// Put an item into a list, unless it is there.
pub(crate) fn put(list: &mut Vec<String>, item: String) -> (r: bool)
    ensures
        final(list).deep_view() == with_item(old(list).deep_view(), item@),
        r == !old(list).deep_view().contains(item@),
{
    let ghost before = list.deep_view();
    let slice = list.as_slice();
    assert(slice.deep_view() =~= before);
    if has_text(slice, item.as_str()) {
        return false;
    }
    let ghost text = item@;
    list.push(item);
    assert(list.deep_view() =~= before.push(text));
    true
}

/// Take two items out of a list.
pub(crate) fn take_out(list: &mut Vec<String>, a: &str, b: &str) -> (r: bool)
    ensures
        final(list).deep_view() == without_items(old(list).deep_view(), a@, b@),
        r == (final(list).deep_view().len() != old(list).deep_view().len()),
{
    let ghost all = list.deep_view();
    let mut kept: Vec<String> = Vec::new();
    let mut i: usize = 0;
    assert(kept.deep_view() =~= Seq::<Seq<char>>::empty());
    while i < list.len()
        invariant
            i <= list.len(),
            all == list.deep_view(),
            kept.deep_view() == without_items(all.take(i as int), a@, b@),
        decreases list.len() - i,
    {
        proof {
            let next = all.take(i as int + 1);
            assert(next.drop_last() =~= all.take(i as int));
            assert(next.last() == list[i as int]@);
        }
        if !same(list[i].as_str(), a) && !same(list[i].as_str(), b) {
            let ghost before = kept.deep_view();
            kept.push(list[i].clone());
            assert(kept.deep_view() =~= before.push(all[i as int]));
        }
        i += 1;
    }
    assert(all.take(i as int) =~= all);
    let changed = kept.len() != list.len();
    *list = kept;
    changed
}

/// Put a block, in its normal form, into the configuration.
pub fn add_cidr(st_cfg: &mut SplitTunnelConfig, cidr: &str) -> (r: AppResult<bool>)
    ensures
        match r {
            Ok(changed) => {
                &&& cidr_of(cidr@) is Ok
                &&& final(st_cfg)@ == (SplitTunnelView {
                    cidrs: with_item(old(st_cfg)@.cidrs, normal_cidr(cidr@)),
                    ..old(st_cfg)@
                })
                &&& changed == !old(st_cfg)@.cidrs.contains(normal_cidr(cidr@))
            },
            Err(e) => final(st_cfg)@ == old(st_cfg)@ && (e matches AppError::Config(m) && cidr_of(
                cidr@,
            ) == Err::<(IpAddr, nat), Seq<char>>(m@)),
        },
{
    match parse_and_normalize_cidr(cidr) {
        Ok((normalized, _)) => Ok(put(&mut st_cfg.cidrs, normalized)),
        Err(m) => Err(AppError::Config(m)),
    }
}

/// Take a block out of the configuration, as it is given and in its normal form.
pub fn remove_cidr(st_cfg: &mut SplitTunnelConfig, cidr: &str) -> (r: bool)
    ensures
        final(st_cfg)@ == (SplitTunnelView {
            cidrs: without_items(old(st_cfg)@.cidrs, cidr@, normal_cidr(cidr@)),
            ..old(st_cfg)@
        }),
        r == (final(st_cfg)@.cidrs.len() != old(st_cfg)@.cidrs.len()),
{
    let normalized = match parse_and_normalize_cidr(cidr) {
        Ok((value, _)) => value,
        Err(_) => String::new(),
    };
    assert(normalized@ =~= normal_cidr(cidr@));
    take_out(&mut st_cfg.cidrs, cidr, normalized.as_str())
}

/// Put a domain, in its normal form, into the configuration.
pub fn add_domain(st_cfg: &mut SplitTunnelConfig, domain: &str) -> (r: AppResult<bool>)
    ensures
        match r {
            Ok(changed) => {
                &&& domain_of(lowercased(trimmed(domain@))) is Some
                &&& final(st_cfg)@ == (SplitTunnelView {
                    domains: with_item(old(st_cfg)@.domains, normal_domain(domain@)),
                    ..old(st_cfg)@
                })
                &&& changed == !old(st_cfg)@.domains.contains(normal_domain(domain@))
            },
            Err(e) => {
                &&& final(st_cfg)@ == old(st_cfg)@
                &&& domain_of(lowercased(trimmed(domain@))) is None
                &&& e matches AppError::Config(m) && m@ == "domain cannot be empty"@
            },
        },
{
    match normalize_domain(domain) {
        Some(normalized) => Ok(put(&mut st_cfg.domains, normalized)),
        None => Err(AppError::Config("domain cannot be empty".to_owned())),
    }
}

/// Take a domain, in its normal form, out of the configuration.
pub fn remove_domain(st_cfg: &mut SplitTunnelConfig, domain: &str) -> (r: bool)
    ensures
        final(st_cfg)@ == (SplitTunnelView {
            domains: without_items(
                old(st_cfg)@.domains,
                normal_domain(domain@),
                normal_domain(domain@),
            ),
            ..old(st_cfg)@
        }),
        r == (final(st_cfg)@.domains.len() != old(st_cfg)@.domains.len()),
{
    let normalized = match normalize_domain(domain) {
        Some(d) => d,
        None => String::new(),
    };
    assert(normalized@ =~= normal_domain(domain@));
    take_out(&mut st_cfg.domains, normalized.as_str(), normalized.as_str())
}

/// What was put into a list is in it, nothing else came or went, and putting it in
/// again changes nothing.
pub proof fn law_adding(list: Seq<Seq<char>>, item: Seq<char>, other: Seq<char>)
    ensures
        with_item(list, item).contains(item),
        other != item ==> with_item(list, item).contains(other) == list.contains(other),
        with_item(with_item(list, item), item) == with_item(list, item),
{
    let now = with_item(list, item);
    if !list.contains(item) {
        assert(now[list.len() as int] == item);
    }
    if other != item {
        if list.contains(other) {
            let i = choose|i: int| 0 <= i < list.len() && list[i] == other;
            assert(now[i] == other);
        }
        if now.contains(other) {
            let i = choose|i: int| 0 <= i < now.len() && now[i] == other;
            assert(list[i] == other);
        }
    }
}

/// What was taken out of a list is gone, nothing else came or went, and the list
/// keeps its length exactly where nothing was taken out.
pub proof fn law_removing(list: Seq<Seq<char>>, a: Seq<char>, b: Seq<char>, other: Seq<char>)
    ensures
        !without_items(list, a, b).contains(a),
        !without_items(list, a, b).contains(b),
        other != a && other != b ==> without_items(list, a, b).contains(other) == list.contains(
            other,
        ),
        without_items(list, a, b).len() <= list.len(),
        without_items(list, a, b).len() == list.len() ==> without_items(list, a, b) == list,
        (without_items(list, a, b).len() == list.len()) == (!list.contains(a) && !list.contains(b)),
    decreases list.len(),
{
    if list.len() > 0 {
        let less = list.drop_last();
        law_removing(less, a, b, other);
        let before = without_items(less, a, b);
        let now = without_items(list, a, b);
        let last = list.last();
        let gone = last == a || last == b;
        assert(now == if gone {
            before
        } else {
            before.push(last)
        });
        lemma_contains_last(list, a);
        lemma_contains_last(list, b);
        lemma_contains_last(list, other);
        if !gone {
            lemma_contains_push(before, last, a);
            lemma_contains_push(before, last, b);
            lemma_contains_push(before, last, other);
            if now.len() == list.len() {
                assert(now =~= list);
            }
        }
    }
}

proof fn lemma_contains_last(list: Seq<Seq<char>>, x: Seq<char>)
    requires
        list.len() > 0,
    ensures
        list.contains(x) == (list.drop_last().contains(x) || list.last() == x),
{
    assert(list =~= list.drop_last().push(list.last()));
    lemma_contains_push(list.drop_last(), list.last(), x);
}

proof fn lemma_contains_push(list: Seq<Seq<char>>, last: Seq<char>, x: Seq<char>)
    ensures
        list.push(last).contains(x) == (list.contains(x) || last == x),
{
    let now = list.push(last);
    if list.contains(x) {
        let i = choose|i: int| 0 <= i < list.len() && list[i] == x;
        assert(now[i] == x);
    }
    if last == x {
        assert(now[list.len() as int] == x);
    }
    if now.contains(x) {
        let i = choose|i: int| 0 <= i < now.len() && now[i] == x;
        if i < list.len() {
            assert(list[i] == x);
        }
    }
}

/// Put a configuration of split tunneling into settings, and change nothing else.
pub fn put_global_split_tunnel(config: &mut AppConfig, st_cfg: &SplitTunnelConfig)
    ensures
        final(config).global_split_tunnel@ == st_cfg@,
        *final(config) == (AppConfig {
            global_split_tunnel: final(config).global_split_tunnel,
            ..*old(config)
        }),
{
    config.global_split_tunnel = st_cfg.clone();
}

// ---------------------------------------------------------------------------
// Applying and saving
// ---------------------------------------------------------------------------

/// Whether routes were applied with a result: those for the configuration and for
/// addresses that its domains resolved to.
pub open spec fn applied<
    R: FnOnce(&Vec<String>) -> Vec<IpAddr>,
    A: FnOnce(SplitTunnelMode, &Vec<String>, &Vec<String>) -> AppResult<()>,
>(resolve: R, apply: A, cfg: SplitTunnelView, a: AppResult<()>) -> bool {
    exists|domains: &Vec<String>, ips: Vec<IpAddr>, v4: &Vec<String>, v6: &Vec<String>|
        domains.deep_view() == cfg.domains && #[trigger] resolve.ensures((domains,), ips)
            && are_routes_for((v4.deep_view(), v6.deep_view()), cfg.mode, cfg.cidrs, ips@)
            && #[trigger] apply.ensures((cfg.mode, v4, v6), a)
}

/// Whether a configuration was saved with a result.
pub open spec fn saved<S: FnOnce(&SplitTunnelConfig) -> AppResult<()>>(
    save: S,
    cfg: SplitTunnelView,
    s: AppResult<()>,
) -> bool {
    exists|c: &SplitTunnelConfig| c@ == cfg && #[trigger] save.ensures((c,), s)
}

/// Whether a configuration was applied and, where that succeeded, saved.
pub open spec fn applied_and_saved<
    R: FnOnce(&Vec<String>) -> Vec<IpAddr>,
    A: FnOnce(SplitTunnelMode, &Vec<String>, &Vec<String>) -> AppResult<()>,
    S: FnOnce(&SplitTunnelConfig) -> AppResult<()>,
>(resolve: R, apply: A, save: S, cfg: SplitTunnelView, r: AppResult<()>) -> bool {
    exists|a: AppResult<()>| #[trigger]
        applied(resolve, apply, cfg, a) && match a {
            Err(e) => r == Err::<(), AppError>(e),
            Ok(_) => saved(save, cfg, r),
        }
}

/// Whether a configuration can be applied and, once that succeeded, saved. Nothing
/// is asked of `save` before that or where applying failed: it is not called then.
/// Where none of this is asked, none of the functions is called.
pub open spec fn can_apply_and_save<
    R: FnOnce(&Vec<String>) -> Vec<IpAddr>,
    A: FnOnce(SplitTunnelMode, &Vec<String>, &Vec<String>) -> AppResult<()>,
    S: FnOnce(&SplitTunnelConfig) -> AppResult<()>,
>(resolve: R, apply: A, save: S) -> bool {
    &&& forall|d: &Vec<String>| resolve.requires((d,))
    &&& forall|m: SplitTunnelMode, v4: &Vec<String>, v6: &Vec<String>| apply.requires((m, v4, v6))
    &&& forall|
        m: SplitTunnelMode,
        v4: &Vec<String>,
        v6: &Vec<String>,
        a: AppResult<()>,
        c: &SplitTunnelConfig,
    |
        #[trigger] apply.ensures((m, v4, v6), a) && a is Ok ==> #[trigger] save.requires((c,))
}

/// Apply a configuration to all profiles and, where that succeeded, save it. The
/// domains are resolved by `resolve`, the routes are applied by `apply`, and the
/// configuration is saved by `save`.
pub fn apply_and_persist_global_split_tunnel<
    R: FnOnce(&Vec<String>) -> Vec<IpAddr>,
    A: FnOnce(SplitTunnelMode, &Vec<String>, &Vec<String>) -> AppResult<()>,
    S: FnOnce(&SplitTunnelConfig) -> AppResult<()>,
>(st_cfg: &SplitTunnelConfig, resolve: R, apply: A, save: S) -> (r: AppResult<()>)
    requires
        can_apply_and_save(resolve, apply, save),
    ensures
        applied_and_saved(resolve, apply, save, st_cfg@, r),
{
    let ips = resolve(&st_cfg.domains);
    assert(resolve.ensures((&st_cfg.domains,), ips));
    let cidrs = st_cfg.cidrs.as_slice();
    assert(cidrs.deep_view() =~= st_cfg@.cidrs);
    let (v4, v6) = routes_for(st_cfg.mode, cidrs, ips.as_slice());
    let outcome = apply(st_cfg.mode, &v4, &v6);
    assert(apply.ensures((st_cfg.mode, &v4, &v6), outcome));
    assert(applied(resolve, apply, st_cfg@, outcome));
    match outcome {
        Ok(_) => {},
        Err(e) => {
            return Err(e);
        },
    }
    let s = save(st_cfg);
    assert(save.ensures((st_cfg,), s));
    s
}

/// Whether an edit that changed a configuration was applied and saved. One that
/// changed nothing is neither.
pub open spec fn edited<
    R: FnOnce(&Vec<String>) -> Vec<IpAddr>,
    A: FnOnce(SplitTunnelMode, &Vec<String>, &Vec<String>) -> AppResult<()>,
    S: FnOnce(&SplitTunnelConfig) -> AppResult<()>,
>(
    resolve: R,
    apply: A,
    save: S,
    cfg: SplitTunnelView,
    changed: bool,
    r: AppResult<(SplitTunnelConfig, bool)>,
) -> bool {
    if changed {
        exists|done: AppResult<()>| #[trigger]
            applied_and_saved(resolve, apply, save, cfg, done) && match done {
                Ok(_) => r matches Ok((c, true)) && c@ == cfg,
                Err(e) => r == Err::<(SplitTunnelConfig, bool), AppError>(e),
            }
    } else {
        r matches Ok((c, false)) && c@ == cfg
    }
}

/// Apply and save a configuration that an edit changed.
fn finish<
    R: FnOnce(&Vec<String>) -> Vec<IpAddr>,
    A: FnOnce(SplitTunnelMode, &Vec<String>, &Vec<String>) -> AppResult<()>,
    S: FnOnce(&SplitTunnelConfig) -> AppResult<()>,
>(st_cfg: SplitTunnelConfig, changed: bool, resolve: R, apply: A, save: S) -> (r: AppResult<
    (SplitTunnelConfig, bool),
>)
    requires
        changed ==> can_apply_and_save(
            resolve,
            apply,
            save,
        ),
    ensures
        edited(resolve, apply, save, st_cfg@, changed, r),
{
    if changed {
        let done = apply_and_persist_global_split_tunnel(&st_cfg, resolve, apply, save);
        assert(applied_and_saved(resolve, apply, save, st_cfg@, done));
        match done {
            Ok(_) => {},
            Err(e) => {
                return Err(e);
            },
        }
    }
    Ok((st_cfg, changed))
}

/// Set the mode. It is always applied again: it decides over what the routes that
/// are there mean.
pub fn set_global_mode<
    R: FnOnce(&Vec<String>) -> Vec<IpAddr>,
    A: FnOnce(SplitTunnelMode, &Vec<String>, &Vec<String>) -> AppResult<()>,
    S: FnOnce(&SplitTunnelConfig) -> AppResult<()>,
>(current: SplitTunnelConfig, mode: SplitTunnelMode, resolve: R, apply: A, save: S) -> (r:
    AppResult<SplitTunnelConfig>)
    requires
        can_apply_and_save(resolve, apply, save),
    ensures
        exists|done: AppResult<(SplitTunnelConfig, bool)>| #[trigger]
            edited(resolve, apply, save, with_mode(current@, mode), true, done) && match done {
                Ok((c, _)) => r == Ok::<SplitTunnelConfig, AppError>(c),
                Err(e) => r == Err::<SplitTunnelConfig, AppError>(e),
            },
{
    let ghost before = current@;
    let mut st_cfg = current;
    st_cfg.mode = mode;
    assert(st_cfg@ =~= with_mode(before, mode));
    let done = finish(st_cfg, true, resolve, apply, save);
    match done {
        Ok((c, _)) => Ok(c),
        Err(e) => Err(e),
    }
}

/// Add a block or an address.
pub fn add_global_cidr<
    R: FnOnce(&Vec<String>) -> Vec<IpAddr>,
    A: FnOnce(SplitTunnelMode, &Vec<String>, &Vec<String>) -> AppResult<()>,
    S: FnOnce(&SplitTunnelConfig) -> AppResult<()>,
>(current: SplitTunnelConfig, cidr: &str, resolve: R, apply: A, save: S) -> (r: AppResult<
    (SplitTunnelConfig, bool),
>)
    requires
        cidr_of(cidr@) is Ok && !current@.cidrs.contains(normal_cidr(cidr@)) ==> can_apply_and_save(
            resolve,
            apply,
            save,
        ),
    ensures
        match cidr_of(cidr@) {
            Ok(_) => edited(
                resolve,
                apply,
                save,
                (SplitTunnelView {
                    cidrs: with_item(current@.cidrs, normal_cidr(cidr@)),
                    ..current@
                }),
                !current@.cidrs.contains(normal_cidr(cidr@)),
                r,
            ),
            Err(m) => r matches Err(AppError::Config(t)) && t@ == m,
        },
{
    let mut st_cfg = current;
    match add_cidr(&mut st_cfg, cidr) {
        Ok(changed) => finish(st_cfg, changed, resolve, apply, save),
        Err(e) => Err(e),
    }
}

/// Remove a block or an address.
pub fn remove_global_cidr<
    R: FnOnce(&Vec<String>) -> Vec<IpAddr>,
    A: FnOnce(SplitTunnelMode, &Vec<String>, &Vec<String>) -> AppResult<()>,
    S: FnOnce(&SplitTunnelConfig) -> AppResult<()>,
>(current: SplitTunnelConfig, cidr: &str, resolve: R, apply: A, save: S) -> (r: AppResult<
    (SplitTunnelConfig, bool),
>)
    requires
        without_items(current@.cidrs, cidr@, normal_cidr(cidr@)).len() != current@.cidrs.len() ==> can_apply_and_save(
            resolve,
            apply,
            save,
        ),
    ensures
        edited(
            resolve,
            apply,
            save,
            (SplitTunnelView {
                cidrs: without_items(current@.cidrs, cidr@, normal_cidr(cidr@)),
                ..current@
            }),
            without_items(current@.cidrs, cidr@, normal_cidr(cidr@)).len() != current@.cidrs.len(),
            r,
        ),
{
    let mut st_cfg = current;
    let changed = remove_cidr(&mut st_cfg, cidr);
    finish(st_cfg, changed, resolve, apply, save)
}

/// Add a domain.
pub fn add_global_domain<
    R: FnOnce(&Vec<String>) -> Vec<IpAddr>,
    A: FnOnce(SplitTunnelMode, &Vec<String>, &Vec<String>) -> AppResult<()>,
    S: FnOnce(&SplitTunnelConfig) -> AppResult<()>,
>(current: SplitTunnelConfig, domain: &str, resolve: R, apply: A, save: S) -> (r: AppResult<
    (SplitTunnelConfig, bool),
>)
    requires
        (domain_of(lowercased(trimmed(domain@))) matches Some(d) && !current@.domains.contains(d)) ==> can_apply_and_save(
            resolve,
            apply,
            save,
        ),
    ensures
        match domain_of(lowercased(trimmed(domain@))) {
            Some(d) => edited(
                resolve,
                apply,
                save,
                (SplitTunnelView { domains: with_item(current@.domains, d), ..current@ }),
                !current@.domains.contains(d),
                r,
            ),
            None => r matches Err(AppError::Config(t)) && t@ == "domain cannot be empty"@,
        },
{
    let mut st_cfg = current;
    match add_domain(&mut st_cfg, domain) {
        Ok(changed) => finish(st_cfg, changed, resolve, apply, save),
        Err(e) => Err(e),
    }
}

/// Remove a domain.
pub fn remove_global_domain<
    R: FnOnce(&Vec<String>) -> Vec<IpAddr>,
    A: FnOnce(SplitTunnelMode, &Vec<String>, &Vec<String>) -> AppResult<()>,
    S: FnOnce(&SplitTunnelConfig) -> AppResult<()>,
>(current: SplitTunnelConfig, domain: &str, resolve: R, apply: A, save: S) -> (r: AppResult<
    (SplitTunnelConfig, bool),
>)
    requires
        without_items(current@.domains, normal_domain(domain@), normal_domain(domain@)).len() != current@.domains.len() ==> can_apply_and_save(
            resolve,
            apply,
            save,
        ),
    ensures
        ({
            let d = normal_domain(domain@);
            let left = without_items(current@.domains, d, d);
            edited(
                resolve,
                apply,
                save,
                (SplitTunnelView { domains: left, ..current@ }),
                left.len() != current@.domains.len(),
                r,
            )
        }),
{
    let mut st_cfg = current;
    let changed = remove_domain(&mut st_cfg, domain);
    finish(st_cfg, changed, resolve, apply, save)
}

/// Go back to tunneling everything.
pub fn clear_global<
    R: FnOnce(&Vec<String>) -> Vec<IpAddr>,
    A: FnOnce(SplitTunnelMode, &Vec<String>, &Vec<String>) -> AppResult<()>,
    S: FnOnce(&SplitTunnelConfig) -> AppResult<()>,
>(resolve: R, apply: A, save: S) -> (r: AppResult<()>)
    requires
        can_apply_and_save(resolve, apply, save),
    ensures
        applied_and_saved(
            resolve,
            apply,
            save,
            (SplitTunnelView {
                mode: SplitTunnelMode::Disabled,
                cidrs: Seq::empty(),
                domains: Seq::empty(),
            }),
            r,
        ),
{
    let cleared = SplitTunnelConfig::default();
    apply_and_persist_global_split_tunnel(&cleared, resolve, apply, save)
}

// ---------------------------------------------------------------------------
// Status
// ---------------------------------------------------------------------------

/// The lines of a list.
pub open spec fn item_lines(items: Seq<Seq<char>>) -> Seq<char>
    decreases items.len(),
{
    if items.len() == 0 {
        Seq::empty()
    } else {
        item_lines(items.drop_last()) + "    - "@ + items.last() + "\n"@
    }
}

/// A list with its heading.
pub open spec fn list_section(name: Seq<char>, items: Seq<Seq<char>>) -> Seq<char> {
    if items.len() == 0 {
        "  "@ + name + ": (none)\n"@
    } else {
        "  "@ + name + ":\n"@ + item_lines(items)
    }
}

/// The status of the split tunneling.
pub open spec fn global_status(cfg: SplitTunnelView) -> Seq<char> {
    "Global Split Tunneling (all profiles):\n  Mode: "@ + cfg.mode.spec_str() + "\n"@
        + list_section("CIDRs"@, cfg.cidrs) + list_section("Domains"@, cfg.domains)
}

/// Append a list with its heading.
fn push_section(out: &mut String, name: &str, items: &Vec<String>)
    ensures
        final(out)@ == old(out)@ + list_section(name@, items.deep_view()),
{
    let ghost start = out@;
    let ghost all = items.deep_view();
    out.append("  ");
    out.append(name);
    if items.len() == 0 {
        out.append(": (none)\n");
        assert(out@ =~= start + list_section(name@, all));
        return ;
    }
    out.append(":\n");
    let ghost head = start + ("  "@ + name@ + ":\n"@);
    let mut i: usize = 0;
    assert(out@ =~= head + item_lines(all.take(0)));
    while i < items.len()
        invariant
            i <= items.len(),
            all == items.deep_view(),
            out@ == head + item_lines(all.take(i as int)),
        decreases items.len() - i,
    {
        proof {
            let next = all.take(i as int + 1);
            assert(next.drop_last() =~= all.take(i as int));
            assert(next.last() == items[i as int]@);
        }
        out.append("    - ");
        out.append(items[i].as_str());
        out.append("\n");
        i += 1;
        assert(out@ =~= head + item_lines(all.take(i as int)));
    }
    assert(all.take(i as int) =~= all);
    assert(out@ =~= start + list_section(name@, all));
}

/// The status of the split tunneling, as it is shown.
pub fn format_global_status(st_cfg: &SplitTunnelConfig) -> (r: String)
    ensures
        r@ == global_status(st_cfg@),
{
    let mut out = "Global Split Tunneling (all profiles):\n  Mode: ".to_owned().concat(
        st_cfg.mode.as_str(),
    ).concat("\n");
    push_section(&mut out, "CIDRs", &st_cfg.cidrs);
    push_section(&mut out, "Domains", &st_cfg.domains);
    out
}

/// A change of how traffic is split that succeeds was applied with the routes for the
/// new configuration, for what its domains resolved to, and only then saved; where it
/// changes nothing, the configuration that it had is returned.
pub proof fn law_edits_are_applied_then_saved<
    R: FnOnce(&Vec<String>) -> Vec<IpAddr>,
    A: FnOnce(SplitTunnelMode, &Vec<String>, &Vec<String>) -> AppResult<()>,
    S: FnOnce(&SplitTunnelConfig) -> AppResult<()>,
>(
    resolve: R,
    apply: A,
    save: S,
    cfg: SplitTunnelView,
    changed: bool,
    after: SplitTunnelConfig,
    told: bool,
)
    requires
        edited(
            resolve,
            apply,
            save,
            cfg,
            changed,
            Ok::<(SplitTunnelConfig, bool), AppError>((after, told)),
        ),
    ensures
        after@ == cfg,
        told == changed,
        changed ==> exists|domains: &Vec<String>, ips: Vec<IpAddr>, v4: &Vec<String>, v6: &Vec<String>|
            domains.deep_view() == cfg.domains && #[trigger] resolve.ensures((domains,), ips)
                && are_routes_for((v4.deep_view(), v6.deep_view()), cfg.mode, cfg.cidrs, ips@)
                && #[trigger] apply.ensures((cfg.mode, v4, v6), Ok::<(), AppError>(())),
        changed ==> exists|c: &SplitTunnelConfig|
            c@ == cfg && #[trigger] save.ensures((c,), Ok::<(), AppError>(())),
{
    if changed {
        let r = Ok::<(SplitTunnelConfig, bool), AppError>((after, told));
        let done = choose|done: AppResult<()>| #[trigger]
            applied_and_saved(resolve, apply, save, cfg, done) && match done {
                Ok(_) => r matches Ok((c, true)) && c@ == cfg,
                Err(e) => r == Err::<(SplitTunnelConfig, bool), AppError>(e),
            };
        let a = choose|a: AppResult<()>| #[trigger]
            applied(resolve, apply, cfg, a) && match a {
                Err(e) => done == Err::<(), AppError>(e),
                Ok(_) => saved(save, cfg, done),
            };
        let (x, y): ((), ()) = (a->Ok_0, done->Ok_0);
        assert(x == () && y == ());
        assert(a == Ok::<(), AppError>(()) && done == Ok::<(), AppError>(()));
    }
}

/// A list shows each of its items on a line of its own, in order.
pub proof fn law_items_are_listed(name: Seq<char>, items: Seq<Seq<char>>, item: Seq<char>)
    ensures
        item_lines(Seq::empty()) == Seq::<char>::empty(),
        item_lines(items.push(item)) == item_lines(items) + "    - "@ + item + "\n"@,
        list_section(name, items.push(item)) == "  "@ + name + ":\n"@ + item_lines(
            items.push(item),
        ),
        list_section(name, Seq::empty()) == "  "@ + name + ": (none)\n"@,
{
    assert(items.push(item).drop_last() =~= items);
}

} // verus!
