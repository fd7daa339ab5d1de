//! The commands on the split tunneling, and what they say.

use vstd::prelude::*;
use vstd::string::*;

use crate::app::commands::SplitTunnelCommands;
use crate::app::split_tunnel::{add_global_cidr, add_global_domain, applied, applied_and_saved, can_apply_and_save, clear_global, edited, format_global_status, global_status, law_adding, law_edits_are_applied_then_saved, law_removing, normal_cidr, normal_domain, remove_global_cidr, remove_global_domain, saved, set_global_mode, with_item, with_mode, without_items};
use crate::config::{split_mode_complaint, split_mode_of, SplitTunnelConfig, SplitTunnelMode, SplitTunnelView};
use crate::error::{AppError, AppResult};
use crate::ip::IpAddr;
use crate::nm::split_tunnel::{are_routes_for, cidr_of, cidr_text, domain_of};
use crate::text::{lowercased, trimmed};

verus! {

/// What is said of an item that was added.
pub open spec fn added_said(
    kind: Seq<char>,
    plain: Seq<char>,
    item: Seq<char>,
    mode: SplitTunnelMode,
    changed: bool,
) -> Seq<char> {
    if changed {
        "Added "@ + plain + " '"@ + item + "' to global split tunneling (mode: "@ + mode.spec_str()
            + ")."@
    } else {
        kind + " '"@ + item + "' is already present in global split tunneling."@
    }
}

/// What is said of an item that was removed.
pub open spec fn removed_said(
    kind: Seq<char>,
    plain: Seq<char>,
    item: Seq<char>,
    changed: bool,
) -> Seq<char> {
    if changed {
        "Removed "@ + plain + " '"@ + item + "' from global split tunneling."@
    } else {
        kind + " '"@ + item + "' was not found in global split tunneling."@
    }
}

/// What an edit comes to, where it is told afterwards.
pub open spec fn told_edit(
    done: AppResult<(SplitTunnelConfig, bool)>,
    said: Seq<char>,
    r: AppResult<String>,
) -> bool {
    match done {
        Ok(_) => r matches Ok(line) && line@ == said,
        Err(e) => r == Err::<String, AppError>(e),
    }
}

/// Whether an edit was applied, saved and told.
pub open spec fn edit_told<
    R: FnOnce(&Vec<String>) -> Vec<IpAddr>,
    A: FnOnce(SplitTunnelMode, &Vec<String>, &Vec<String>) -> AppResult<()>,
    S: FnOnce(&SplitTunnelConfig) -> AppResult<()>,
>(
    resolve: R,
    apply: A,
    save: S,
    cfg: SplitTunnelView,
    changed: bool,
    said: Seq<char>,
    r: AppResult<String>,
) -> bool {
    exists|done: AppResult<(SplitTunnelConfig, bool)>| #[trigger]
        edited(resolve, apply, save, cfg, changed, done) && told_edit(done, said, r)
}

/// Whether a command changes the configuration, so that it is applied and saved.
pub open spec fn split_changes(before: SplitTunnelView, command: SplitTunnelCommands) -> bool {
    match command {
        SplitTunnelCommands::Status => false,
        SplitTunnelCommands::SetMode { mode } => split_mode_of(trimmed(lowercased(mode@))) is Some,
        SplitTunnelCommands::AddCidr { cidr } => cidr_of(cidr@) is Ok && !before.cidrs.contains(
            normal_cidr(cidr@),
        ),
        SplitTunnelCommands::RemoveCidr { cidr } => without_items(
            before.cidrs,
            cidr@,
            normal_cidr(cidr@),
        ).len() != before.cidrs.len(),
        SplitTunnelCommands::AddDomain { domain } => domain_of(lowercased(trimmed(domain@)))
            matches Some(d) && !before.domains.contains(d),
        SplitTunnelCommands::RemoveDomain { domain } => without_items(
            before.domains,
            normal_domain(domain@),
            normal_domain(domain@),
        ).len() != before.domains.len(),
        SplitTunnelCommands::Clear => true,
    }
}

/// What a command on the split tunneling comes to.
pub open spec fn split_run<
    R: FnOnce(&Vec<String>) -> Vec<IpAddr>,
    A: FnOnce(SplitTunnelMode, &Vec<String>, &Vec<String>) -> AppResult<()>,
    S: FnOnce(&SplitTunnelConfig) -> AppResult<()>,
>(
    resolve: R,
    apply: A,
    save: S,
    before: SplitTunnelView,
    command: SplitTunnelCommands,
    r: AppResult<String>,
) -> bool {
    match command {
        SplitTunnelCommands::Status => r matches Ok(line) && line@ == global_status(before),
        SplitTunnelCommands::SetMode { mode } => match split_mode_of(
            trimmed(lowercased(mode@)),
        ) {
            Some(m) => edit_told(
                resolve,
                apply,
                save,
                with_mode(before, m),
                true,
                "Global split-tunnel mode set to: "@ + m.spec_str(),
                r,
            ),
            None => r matches Err(AppError::Config(t)) && t@ == split_mode_complaint(
                trimmed(lowercased(mode@)),
            ),
        },
        SplitTunnelCommands::AddCidr { cidr } => match cidr_of(cidr@) {
            Ok(_) => {
                let changed = !before.cidrs.contains(normal_cidr(cidr@));
                edit_told(
                    resolve,
                    apply,
                    save,
                    (SplitTunnelView {
                        cidrs: with_item(before.cidrs, normal_cidr(cidr@)),
                        ..before
                    }),
                    changed,
                    added_said("CIDR"@, "CIDR"@, cidr@, before.mode, changed),
                    r,
                )
            },
            Err(m) => r matches Err(AppError::Config(t)) && t@ == m,
        },
        SplitTunnelCommands::RemoveCidr { cidr } => {
            let left = without_items(before.cidrs, cidr@, normal_cidr(cidr@));
            let changed = left.len() != before.cidrs.len();
            edit_told(
                resolve,
                apply,
                save,
                (SplitTunnelView { cidrs: left, ..before }),
                changed,
                removed_said("CIDR"@, "CIDR"@, cidr@, changed),
                r,
            )
        },
        SplitTunnelCommands::AddDomain { domain } => match domain_of(
            lowercased(trimmed(domain@)),
        ) {
            Some(d) => {
                let changed = !before.domains.contains(d);
                edit_told(
                    resolve,
                    apply,
                    save,
                    (SplitTunnelView { domains: with_item(before.domains, d), ..before }),
                    changed,
                    added_said("Domain"@, "domain"@, domain@, before.mode, changed),
                    r,
                )
            },
            None => r matches Err(AppError::Config(t)) && t@ == "domain cannot be empty"@,
        },
        SplitTunnelCommands::RemoveDomain { domain } => {
            let d = normal_domain(domain@);
            let left = without_items(before.domains, d, d);
            let changed = left.len() != before.domains.len();
            edit_told(
                resolve,
                apply,
                save,
                (SplitTunnelView { domains: left, ..before }),
                changed,
                removed_said("Domain"@, "domain"@, domain@, changed),
                r,
            )
        },
        SplitTunnelCommands::Clear => exists|done: AppResult<()>| #[trigger]
            applied_and_saved(
                resolve,
                apply,
                save,
                cleared(),
                done,
            ) && match done {
                Ok(_) => r matches Ok(line) && line@
                    == "Cleared global split-tunnel configuration."@,
                Err(e) => r == Err::<String, AppError>(e),
            },
    }
}

/// The configuration without split tunneling.
pub open spec fn cleared() -> SplitTunnelView {
    SplitTunnelView {
        mode: SplitTunnelMode::Disabled,
        cidrs: Seq::empty(),
        domains: Seq::empty(),
    }
}

/// What is said of an item that was added.
fn added_text(
    kind: &str,
    plain: &str,
    item: &str,
    mode: SplitTunnelMode,
    changed: bool,
) -> (r: String)
    ensures
        r@ == added_said(kind@, plain@, item@, mode, changed),
{
    if changed {
        "Added ".to_owned().concat(plain).concat(" '").concat(item).concat(
            "' to global split tunneling (mode: ",
        ).concat(mode.as_str()).concat(").")
    } else {
        kind.to_owned().concat(" '").concat(item).concat(
            "' is already present in global split tunneling.",
        )
    }
}

/// What is said of an item that was removed.
fn removed_text(kind: &str, plain: &str, item: &str, changed: bool) -> (r: String)
    ensures
        r@ == removed_said(kind@, plain@, item@, changed),
{
    if changed {
        "Removed ".to_owned().concat(plain).concat(" '").concat(item).concat(
            "' from global split tunneling.",
        )
    } else {
        kind.to_owned().concat(" '").concat(item).concat(
            "' was not found in global split tunneling.",
        )
    }
}

/// Carry out a command on the split tunneling, where `current` is what the
/// settings hold, `resolve` resolves domains, `apply` applies routes to all
/// profiles and `save` saves a configuration. The status only reads.
pub fn handle_split_tunnel_command<
    R: FnOnce(&Vec<String>) -> Vec<IpAddr>,
    A: FnOnce(SplitTunnelMode, &Vec<String>, &Vec<String>) -> AppResult<()>,
    S: FnOnce(&SplitTunnelConfig) -> AppResult<()>,
>(
    command: &SplitTunnelCommands,
    current: SplitTunnelConfig,
    resolve: R,
    apply: A,
    save: S,
) -> (r: AppResult<String>)
    requires
        split_changes(current@, *command) ==> can_apply_and_save(resolve, apply, save),
    ensures
        split_run(resolve, apply, save, current@, *command, r),
{
    let before = current.mode;
    match command {
        SplitTunnelCommands::Status => Ok(format_global_status(&current)),
        SplitTunnelCommands::SetMode { mode } => {
            let m = match SplitTunnelMode::parse(mode.as_str()) {
                Ok(m) => m,
                Err(e) => {
                    return Err(e);
                },
            };
            let ghost target = with_mode(current@, m);
            let done = set_global_mode(current, m, resolve, apply, save);
            match done {
                Ok(c) => {
                    assert(c.mode == m);
                    Ok("Global split-tunnel mode set to: ".to_owned().concat(c.mode.as_str()))
                },
                Err(e) => Err(e),
            }
        },
        SplitTunnelCommands::AddCidr { cidr } => {
            match add_global_cidr(current, cidr.as_str(), resolve, apply, save) {
                Ok((c, changed)) => Ok(added_text("CIDR", "CIDR", cidr.as_str(), c.mode, changed)),
                Err(e) => Err(e),
            }
        },
        SplitTunnelCommands::RemoveCidr { cidr } => {
            match remove_global_cidr(current, cidr.as_str(), resolve, apply, save) {
                Ok((_, changed)) => Ok(removed_text("CIDR", "CIDR", cidr.as_str(), changed)),
                Err(e) => Err(e),
            }
        },
        SplitTunnelCommands::AddDomain { domain } => {
            match add_global_domain(current, domain.as_str(), resolve, apply, save) {
                Ok((c, changed)) => Ok(
                    added_text("Domain", "domain", domain.as_str(), c.mode, changed),
                ),
                Err(e) => Err(e),
            }
        },
        SplitTunnelCommands::RemoveDomain { domain } => {
            match remove_global_domain(current, domain.as_str(), resolve, apply, save) {
                Ok((_, changed)) => Ok(removed_text("Domain", "domain", domain.as_str(), changed)),
                Err(e) => Err(e),
            }
        },
        SplitTunnelCommands::Clear => {
            let done = clear_global(resolve, apply, save);
            assert(applied_and_saved(resolve, apply, save, cleared(), done));
            match done {
                Ok(_) => Ok("Cleared global split-tunnel configuration.".to_owned()),
                Err(e) => Err(e),
            }
        },
    }
}

/// Whether two lists hold the same but for one item, which the second holds.
pub open spec fn gains(before: Seq<Seq<char>>, after: Seq<Seq<char>>, item: Seq<char>) -> bool {
    &&& after.contains(item)
    &&& forall|x: Seq<char>| x != item ==> #[trigger] after.contains(x) == before.contains(x)
}

/// Whether two lists hold the same but for two items, which the second does not hold.
pub open spec fn loses(
    before: Seq<Seq<char>>,
    after: Seq<Seq<char>>,
    a: Seq<char>,
    b: Seq<char>,
) -> bool {
    &&& !after.contains(a) && !after.contains(b)
    &&& forall|x: Seq<char>|
        x != a && x != b ==> #[trigger] after.contains(x) == before.contains(x)
}

/// Whether a configuration is what a command makes of another: only what the command
/// names is different.
pub open spec fn follows_command(
    before: SplitTunnelView,
    command: SplitTunnelCommands,
    after: SplitTunnelView,
) -> bool {
    match command {
        SplitTunnelCommands::Status => after == before,
        SplitTunnelCommands::SetMode { mode } => Some(after.mode) == split_mode_of(
            trimmed(lowercased(mode@)),
        ) && after.cidrs == before.cidrs && after.domains == before.domains,
        SplitTunnelCommands::AddCidr { cidr } => after.mode == before.mode && after.domains
            == before.domains && (cidr_of(cidr@) matches Ok((ip, prefix)) && gains(
            before.cidrs,
            after.cidrs,
            cidr_text(ip, prefix),
        )),
        SplitTunnelCommands::RemoveCidr { cidr } => after.mode == before.mode && after.domains
            == before.domains && (cidr_of(cidr@) matches Ok((ip, prefix)) ==> loses(
            before.cidrs,
            after.cidrs,
            cidr@,
            cidr_text(ip, prefix),
        )),
        SplitTunnelCommands::AddDomain { domain } => after.mode == before.mode && after.cidrs
            == before.cidrs && gains(before.domains, after.domains, lowercased(trimmed(domain@))),
        SplitTunnelCommands::RemoveDomain { domain } => after.mode == before.mode && after.cidrs
            == before.cidrs && (trimmed(domain@).len() > 0 && lowercased(trimmed(domain@)).len() > 0
            ==> loses(
            before.domains,
            after.domains,
            lowercased(trimmed(domain@)),
            lowercased(trimmed(domain@)),
        )),
        SplitTunnelCommands::Clear => after.mode == SplitTunnelMode::Disabled && after.cidrs.len()
            == 0 && after.domains.len() == 0,
    }
}

/// Whether a configuration was applied, with the routes that it asks for, and then
/// saved.
pub open spec fn took_effect<
    R: FnOnce(&Vec<String>) -> Vec<IpAddr>,
    A: FnOnce(SplitTunnelMode, &Vec<String>, &Vec<String>) -> AppResult<()>,
    S: FnOnce(&SplitTunnelConfig) -> AppResult<()>,
>(resolve: R, apply: A, save: S, cfg: SplitTunnelView) -> bool {
    &&& exists|domains: &Vec<String>, ips: Vec<IpAddr>, v4: &Vec<String>, v6: &Vec<String>|
        domains.deep_view() == cfg.domains && #[trigger] resolve.ensures((domains,), ips)
            && are_routes_for((v4.deep_view(), v6.deep_view()), cfg.mode, cfg.cidrs, ips@)
            && #[trigger] apply.ensures((cfg.mode, v4, v6), Ok::<(), AppError>(()))
    &&& exists|c: &SplitTunnelConfig|
        c@ == cfg && #[trigger] save.ensures((c,), Ok::<(), AppError>(()))
}

/// A command on the split tunneling that succeeds and changes something makes of the
/// configuration what the command says and nothing else, applies that and saves it.
pub proof fn law_commands_take_effect<
    R: FnOnce(&Vec<String>) -> Vec<IpAddr>,
    A: FnOnce(SplitTunnelMode, &Vec<String>, &Vec<String>) -> AppResult<()>,
    S: FnOnce(&SplitTunnelConfig) -> AppResult<()>,
>(
    resolve: R,
    apply: A,
    save: S,
    before: SplitTunnelView,
    command: SplitTunnelCommands,
    r: AppResult<String>,
)
    requires
        split_run(resolve, apply, save, before, command, r),
        r is Ok,
        split_changes(before, command),
    ensures
        exists|after: SplitTunnelView|
            follows_command(before, command, after) && #[trigger] took_effect(
                resolve,
                apply,
                save,
                after,
            ),
{
    match command {
        SplitTunnelCommands::Status => {},
        SplitTunnelCommands::Clear => {
            let done = choose|done: AppResult<()>| #[trigger]
                applied_and_saved(resolve, apply, save, cleared(), done) && match done {
                    Ok(_) => r matches Ok(line) && line@
                        == "Cleared global split-tunnel configuration."@,
                    Err(e) => r == Err::<String, AppError>(e),
                };
            let a = choose|a: AppResult<()>| #[trigger]
                applied(resolve, apply, cleared(), a) && match a {
                    Err(e) => done == Err::<(), AppError>(e),
                    Ok(_) => saved(save, cleared(), done),
                };
            let (x, y): ((), ()) = (a->Ok_0, done->Ok_0);
            assert(x == () && y == ());
            assert(a == Ok::<(), AppError>(()) && done == Ok::<(), AppError>(()));
            assert(took_effect(resolve, apply, save, cleared()));
        },
        SplitTunnelCommands::SetMode { mode } => {
            let m = split_mode_of(trimmed(lowercased(mode@)))->0;
            let after = with_mode(before, m);
            lemma_took_effect(
                resolve,
                apply,
                save,
                after,
                true,
                "Global split-tunnel mode set to: "@ + m.spec_str(),
                r,
            );
        },
        SplitTunnelCommands::AddCidr { cidr } => {
            let item = normal_cidr(cidr@);
            let after = SplitTunnelView { cidrs: with_item(before.cidrs, item), ..before };
            lemma_gains(before.cidrs, item);
            lemma_took_effect(
                resolve,
                apply,
                save,
                after,
                true,
                added_said("CIDR"@, "CIDR"@, cidr@, before.mode, true),
                r,
            );
        },
        SplitTunnelCommands::RemoveCidr { cidr } => {
            let item = normal_cidr(cidr@);
            let after = SplitTunnelView { cidrs: without_items(before.cidrs, cidr@, item), ..before };
            lemma_loses(before.cidrs, cidr@, item);
            lemma_took_effect(
                resolve,
                apply,
                save,
                after,
                true,
                removed_said("CIDR"@, "CIDR"@, cidr@, true),
                r,
            );
        },
        SplitTunnelCommands::AddDomain { domain } => {
            let item = domain_of(lowercased(trimmed(domain@)))->0;
            let after = SplitTunnelView { domains: with_item(before.domains, item), ..before };
            lemma_gains(before.domains, item);
            lemma_took_effect(
                resolve,
                apply,
                save,
                after,
                true,
                added_said("Domain"@, "domain"@, domain@, before.mode, true),
                r,
            );
        },
        SplitTunnelCommands::RemoveDomain { domain } => {
            let item = normal_domain(domain@);
            let after = SplitTunnelView {
                domains: without_items(before.domains, item, item),
                ..before
            };
            lemma_loses(before.domains, item, item);
            lemma_took_effect(
                resolve,
                apply,
                save,
                after,
                true,
                removed_said("Domain"@, "domain"@, domain@, true),
                r,
            );
        },
    }
}

proof fn lemma_gains(list: Seq<Seq<char>>, item: Seq<char>)
    ensures
        gains(list, with_item(list, item), item),
{
    law_adding(list, item, item);
    assert forall|x: Seq<char>| x != item implies #[trigger] with_item(list, item).contains(x)
        == list.contains(x) by {
        law_adding(list, item, x);
    }
}

proof fn lemma_loses(list: Seq<Seq<char>>, a: Seq<char>, b: Seq<char>)
    ensures
        loses(list, without_items(list, a, b), a, b),
{
    law_removing(list, a, b, a);
    assert forall|x: Seq<char>| x != a && x != b implies #[trigger] without_items(
        list,
        a,
        b,
    ).contains(x) == list.contains(x) by {
        law_removing(list, a, b, x);
    }
}

proof fn lemma_took_effect<
    R: FnOnce(&Vec<String>) -> Vec<IpAddr>,
    A: FnOnce(SplitTunnelMode, &Vec<String>, &Vec<String>) -> AppResult<()>,
    S: FnOnce(&SplitTunnelConfig) -> AppResult<()>,
>(
    resolve: R,
    apply: A,
    save: S,
    cfg: SplitTunnelView,
    changed: bool,
    said: Seq<char>,
    r: AppResult<String>,
)
    requires
        edit_told(resolve, apply, save, cfg, changed, said, r),
        r is Ok,
        changed,
    ensures
        took_effect(resolve, apply, save, cfg),
{
    let done = choose|done: AppResult<(SplitTunnelConfig, bool)>| #[trigger]
        edited(resolve, apply, save, cfg, changed, done) && told_edit(done, said, r);
    let (after, told) = done->Ok_0;
    assert(done == Ok::<(SplitTunnelConfig, bool), AppError>((after, told)));
    law_edits_are_applied_then_saved(resolve, apply, save, cfg, changed, after, told);
}

} // verus!
