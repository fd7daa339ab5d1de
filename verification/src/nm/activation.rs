//! Bringing profiles up and down, and applying settings to all of them.

use vstd::prelude::*;
use vstd::string::*;

use crate::config::{AppConfig, SplitTunnelMode};
use crate::error::AppError;
use crate::nm::autoconnect::{self, autoconnect_args};
use crate::nm::health::TunnelHealth;
use crate::nm::kill_switch::{self, kill_switch_args};
use crate::nm::profiles::{active_of, active_profile, profile_views, ProfileView, WireguardProfile};
use crate::nm::split_tunnel::{self, split_tunnel_args};
use crate::text::{decimal, join, joined, push_decimal, same};

verus! {

// ---------------------------------------------------------------------------
// Every profile
// ---------------------------------------------------------------------------

/// The arguments that set whether profiles come up on their own: one batch for
/// each profile.
pub open spec fn autoconnect_batches(profiles: Seq<ProfileView>, enable: bool) -> Seq<
    Seq<Seq<char>>,
> {
    profiles.map_values(|p: ProfileView| autoconnect_args(p.uuid, enable))
}

/// The arguments that set whether profiles come up on their own: one batch for
/// each profile.
pub fn autoconnect_arg_batches(profiles: &[WireguardProfile], enable: bool) -> (r: Vec<Vec<String>>)
    ensures
        r.deep_view() == autoconnect_batches(profile_views(profiles@), enable),
{
    let ghost target = autoconnect_batches(profile_views(profiles@), enable);
    let mut r: Vec<Vec<String>> = Vec::new();
    let mut i: usize = 0;
    while i < profiles.len()
        invariant
            i <= profiles.len(),
            target == autoconnect_batches(profile_views(profiles@), enable),
            r.deep_view() == target.take(i as int),
        decreases profiles.len() - i,
    {
        let ghost before = r.deep_view();
        r.push(autoconnect::set_args(profiles[i].uuid.as_str(), enable));
        assert(r.deep_view() =~= before.push(target[i as int]));
        i += 1;
    }
    assert(target.take(i as int) =~= target);
    r
}

/// The arguments that configure split tunneling: one batch for each profile.
pub open spec fn split_tunnel_batches(
    profiles: Seq<ProfileView>,
    mode: SplitTunnelMode,
    v4: Seq<Seq<char>>,
    v6: Seq<Seq<char>>,
) -> Seq<Seq<Seq<char>>> {
    profiles.map_values(|p: ProfileView| split_tunnel_args(p.uuid, mode, v4, v6))
}

/// The arguments that configure split tunneling: one batch for each profile.
pub fn split_tunnel_arg_batches(
    profiles: &[WireguardProfile],
    mode: SplitTunnelMode,
    v4_routes: &[String],
    v6_routes: &[String],
) -> (r: Vec<Vec<String>>)
    ensures
        r.deep_view() == split_tunnel_batches(
            profile_views(profiles@),
            mode,
            v4_routes.deep_view(),
            v6_routes.deep_view(),
        ),
{
    let ghost target = split_tunnel_batches(
        profile_views(profiles@),
        mode,
        v4_routes.deep_view(),
        v6_routes.deep_view(),
    );
    let mut r: Vec<Vec<String>> = Vec::new();
    let mut i: usize = 0;
    while i < profiles.len()
        invariant
            i <= profiles.len(),
            target == split_tunnel_batches(
                profile_views(profiles@),
                mode,
                v4_routes.deep_view(),
                v6_routes.deep_view(),
            ),
            r.deep_view() == target.take(i as int),
        decreases profiles.len() - i,
    {
        let ghost before = r.deep_view();
        r.push(split_tunnel::set_args(profiles[i].uuid.as_str(), mode, v4_routes, v6_routes));
        assert(r.deep_view() =~= before.push(target[i as int]));
        i += 1;
    }
    assert(target.take(i as int) =~= target);
    r
}

/// The arguments that turn the kill switch on or off, given which profiles carry
/// IPv6.
pub open spec fn kill_switch_batches(
    profiles: Seq<ProfileView>,
    enable: bool,
    has_ipv6: Seq<bool>,
) -> Seq<Seq<Seq<char>>> {
    Seq::new(profiles.len(), |i: int| kill_switch_args(profiles[i].uuid, enable, has_ipv6[i]))
}

/// The arguments that turn the kill switch on or off: one batch for each profile,
/// in the form that fits whether the profile carries IPv6.
pub fn kill_switch_arg_batches(profiles: &[WireguardProfile], enable: bool, has_ipv6: &[bool]) -> (r:
    Vec<Vec<String>>)
    requires
        has_ipv6.len() == profiles.len(),
    ensures
        r.deep_view() == kill_switch_batches(profile_views(profiles@), enable, has_ipv6@),
{
    let ghost target = kill_switch_batches(profile_views(profiles@), enable, has_ipv6@);
    let mut r: Vec<Vec<String>> = Vec::new();
    let mut i: usize = 0;
    while i < profiles.len()
        invariant
            i <= profiles.len(),
            has_ipv6.len() == profiles.len(),
            target == kill_switch_batches(profile_views(profiles@), enable, has_ipv6@),
            r.deep_view() == target.take(i as int),
        decreases profiles.len() - i,
    {
        let ghost before = r.deep_view();
        r.push(kill_switch::set_args(profiles[i].uuid.as_str(), enable, has_ipv6[i]));
        assert(r.deep_view() =~= before.push(target[i as int]));
        i += 1;
    }
    assert(target.take(i as int) =~= target);
    r
}

/// What is told of a profile that rejected a change.
pub open spec fn failure_text(p: ProfileView, e: AppError) -> Seq<char> {
    p.name + " ("@ + p.uuid + "): "@ + e.spec_text()
}

/// What is told of the profiles that rejected a change, in order.
pub open spec fn failures_of(
    profiles: Seq<ProfileView>,
    outcomes: Seq<Result<(), AppError>>,
) -> Seq<Seq<char>>
    decreases outcomes.len(),
{
    if outcomes.len() == 0 {
        Seq::empty()
    } else {
        let before = failures_of(profiles, outcomes.drop_last());
        match outcomes.last() {
            Ok(_) => before,
            Err(e) => before.push(failure_text(profiles[outcomes.len() - 1], e)),
        }
    }
}

/// What is told of a sweep over all profiles that some rejected.
pub open spec fn sweep_complaint(failures: Seq<Seq<char>>, total: nat) -> Seq<char> {
    decimal(failures.len()) + " of "@ + decimal(total) + " profiles rejected the change: "@
        + joined(failures, "; "@)
}

/// What a sweep over all profiles comes to: it succeeded where every profile took
/// the change, and otherwise every profile that rejected it is named.
pub open spec fn is_sweep_result(
    r: Result<(), AppError>,
    profiles: Seq<ProfileView>,
    outcomes: Seq<Result<(), AppError>>,
) -> bool {
    let failures = failures_of(profiles, outcomes);
    match r {
        Ok(_) => failures.len() == 0,
        Err(e) => failures.len() > 0 && (e matches AppError::CommandFailed(m) && m@
            == sweep_complaint(failures, profiles.len())),
    }
}

/// What a sweep over all profiles comes to, given what each profile answered.
pub fn sweep_result(profiles: &[WireguardProfile], outcomes: &[Result<(), AppError>]) -> (r: Result<
    (),
    AppError,
>)
    requires
        outcomes.len() == profiles.len(),
    ensures
        is_sweep_result(r, profile_views(profiles@), outcomes@),
{
    let ghost views = profile_views(profiles@);
    let mut failures: Vec<String> = Vec::new();
    let mut i: usize = 0;
    assert(failures.deep_view() =~= Seq::<Seq<char>>::empty());
    while i < outcomes.len()
        invariant
            i <= outcomes.len(),
            outcomes.len() == profiles.len(),
            views == profile_views(profiles@),
            failures.deep_view() == failures_of(views, outcomes@.take(i as int)),
        decreases outcomes.len() - i,
    {
        proof {
            let next = outcomes@.take(i as int + 1);
            assert(next.drop_last() =~= outcomes@.take(i as int));
            assert(next.last() == outcomes@[i as int]);
            assert(views[i as int] == profiles[i as int]@);
        }
        match &outcomes[i] {
            Ok(_) => {},
            Err(e) => {
                let p = &profiles[i];
                let cause = e.text();
                let line = p.name.clone().concat(" (").concat(p.uuid.as_str()).concat("): ").concat(
                    cause.as_str(),
                );
                let ghost before = failures.deep_view();
                let ghost text = line@;
                failures.push(line);
                assert(failures.deep_view() =~= before.push(text));
            },
        }
        i += 1;
    }
    assert(outcomes@.take(i as int) =~= outcomes@);
    if failures.len() == 0 {
        return Ok(());
    }
    let list = failures.as_slice();
    assert(list.deep_view() =~= failures.deep_view());
    let all = join(list, "; ");
    let mut m = String::new();
    push_decimal(&mut m, failures.len() as u128);
    m.append(" of ");
    push_decimal(&mut m, profiles.len() as u128);
    m.append(" profiles rejected the change: ");
    m.append(all.as_str());
    assert(m@ =~= sweep_complaint(failures.deep_view(), views.len()));
    Err(AppError::CommandFailed(m))
}

/// A sweep names every profile that rejected the change, and no other: it
/// succeeds exactly where all profiles took it.
pub proof fn law_sweep_reports_every_failure(
    r: Result<(), AppError>,
    profiles: Seq<ProfileView>,
    outcomes: Seq<Result<(), AppError>>,
)
    requires
        outcomes.len() == profiles.len(),
        is_sweep_result(r, profiles, outcomes),
    ensures
        r is Ok <==> (forall|i: int| 0 <= i < outcomes.len() ==> #[trigger] outcomes[i] is Ok),
        forall|i: int|
            0 <= i < outcomes.len() && #[trigger] outcomes[i] is Err ==> failures_of(
                profiles,
                outcomes,
            ).contains(failure_text(profiles[i], outcomes[i]->Err_0)),
{
    lemma_failures(profiles, outcomes);
}

proof fn lemma_failures(profiles: Seq<ProfileView>, outcomes: Seq<Result<(), AppError>>)
    ensures
        failures_of(profiles, outcomes).len() == 0 <==> (forall|i: int|
            0 <= i < outcomes.len() ==> #[trigger] outcomes[i] is Ok),
        forall|i: int|
            0 <= i < outcomes.len() && #[trigger] outcomes[i] is Err ==> failures_of(
                profiles,
                outcomes,
            ).contains(failure_text(profiles[i], outcomes[i]->Err_0)),
    decreases outcomes.len(),
{
    if outcomes.len() > 0 {
        let less = outcomes.drop_last();
        let before = failures_of(profiles, less);
        let all = failures_of(profiles, outcomes);
        lemma_failures(profiles, less);
        assert(outcomes.last() == outcomes[outcomes.len() - 1]);
        if all.len() == 0 {
            assert forall|i: int| 0 <= i < outcomes.len() implies #[trigger] outcomes[i] is Ok by {
                if i < less.len() {
                    assert(less[i] == outcomes[i]);
                }
            }
        }
        if forall|i: int| 0 <= i < outcomes.len() ==> #[trigger] outcomes[i] is Ok {
            assert forall|i: int| 0 <= i < less.len() implies #[trigger] less[i] is Ok by {
                assert(outcomes[i] is Ok);
            }
        }
        assert forall|i: int| 0 <= i < outcomes.len() && #[trigger] outcomes[i] is Err implies all.contains(
        failure_text(profiles[i], outcomes[i]->Err_0)) by {
            if i < less.len() {
                assert(less[i] == outcomes[i]);
                let text = failure_text(profiles[i], outcomes[i]->Err_0);
                assert(before.contains(text));
                let k = choose|k: int| 0 <= k < before.len() && before[k] == text;
                assert(all[k] == text);
            } else {
                assert(all[before.len() as int] == failure_text(profiles[i], outcomes[i]->Err_0));
            }
        }
    }
}

// ---------------------------------------------------------------------------
// One profile
// ---------------------------------------------------------------------------

/// The identifier of the profile that is to be taken down.
pub fn profile_to_disconnect(profiles: &[WireguardProfile]) -> (r: Result<String, AppError>)
    ensures
        match r {
            Ok(uuid) => active_of(profile_views(profiles@)) matches Some(p) && p.uuid == uuid@,
            Err(e) => active_of(profile_views(profiles@)) is None && e is NoActiveProfile,
        },
{
    match active_profile(profiles) {
        Some(p) => Ok(p.uuid.clone()),
        None => Err(AppError::NoActiveProfile),
    }
}

/// The batches that bring a profile in line with the settings before it is
/// brought up: the kill switch is set to what they say, and the routes are set
/// where traffic is split.
pub open spec fn activation_args(
    uuid: Seq<char>,
    has_ipv6: bool,
    kill_switch: bool,
    mode: SplitTunnelMode,
    v4: Seq<Seq<char>>,
    v6: Seq<Seq<char>>,
) -> Seq<Seq<Seq<char>>> {
    let guard = seq![kill_switch_args(uuid, kill_switch, has_ipv6)];
    if mode.spec_is_enabled() {
        guard.push(split_tunnel_args(uuid, mode, v4, v6))
    } else {
        guard
    }
}

/// The batches that bring a profile in line with the settings before it is
/// brought up. Each is run whatever earlier ones came to.
pub fn activation_batches(
    uuid: &str,
    has_ipv6: bool,
    config: &AppConfig,
    v4_routes: &[String],
    v6_routes: &[String],
) -> (r: Vec<Vec<String>>)
    ensures
        r.deep_view() == activation_args(
            uuid@,
            has_ipv6,
            config.kill_switch_enabled,
            config.global_split_tunnel.mode,
            v4_routes.deep_view(),
            v6_routes.deep_view(),
        ),
{
    let mut r: Vec<Vec<String>> = Vec::new();
    r.push(kill_switch::set_args(uuid, config.kill_switch_enabled, has_ipv6));
    let mode = config.global_split_tunnel.mode;
    if mode.is_enabled() {
        r.push(split_tunnel::set_args(uuid, mode, v4_routes, v6_routes));
    }
    assert(r.deep_view() =~= activation_args(
        uuid@,
        has_ipv6,
        config.kill_switch_enabled,
        mode,
        v4_routes.deep_view(),
        v6_routes.deep_view(),
    ));
    r
}

/// What is said of a tunnel whose peer did not answer.
pub open spec fn dead_tunnel_text(interface: Seq<char>) -> Seq<char> {
    interface
        + ": the peer never completed a handshake (server down, or the profile's keys are no longer valid). Disconnected so it does not black-hole your traffic."@
}

/// What an activation comes to, given what the probe of its interface showed. A
/// failure means that the tunnel has to be taken down again.
pub fn activation_outcome(interface: &str, health: TunnelHealth) -> (r: Result<(), AppError>)
    ensures
        match r {
            Ok(_) => health == TunnelHealth::Handshaken,
            Err(e) => health == TunnelHealth::NoHandshake && (e matches AppError::TunnelUnhealthy(
                m,
            ) && m@ == dead_tunnel_text(interface@)),
        },
{
    if health.is_healthy() {
        Ok(())
    } else {
        Err(
            AppError::TunnelUnhealthy(
                interface.to_owned().concat(
                    ": the peer never completed a handshake (server down, or the profile's keys are no longer valid). Disconnected so it does not black-hole your traffic.",
                ),
            ),
        )
    }
}

/// Whether fresh tunnels are checked: the settings say so, and settings that
/// cannot be read do not turn the check off.
pub fn health_check_enabled(settings: Option<&AppConfig>) -> (r: bool)
    ensures
        r == (match settings {
            Some(c) => c.general.verify_tunnel_on_connect,
            None => true,
        }),
{
    match settings {
        Some(config) => config.general.verify_tunnel_on_connect,
        None => true,
    }
}

// ---------------------------------------------------------------------------
// Importing
// ---------------------------------------------------------------------------

/// Whether some profile has the given identifier.
pub open spec fn has_uuid(profiles: Seq<ProfileView>, uuid: Seq<char>) -> bool {
    exists|i: int| 0 <= i < profiles.len() && (#[trigger] profiles[i]).uuid == uuid
}

/// The first profile at or after `i` that was not there before.
pub open spec fn first_new(before: Seq<ProfileView>, after: Seq<ProfileView>, i: int) -> Option<
    Seq<char>,
>
    decreases after.len() - i,
{
    if i < 0 || i >= after.len() {
        None
    } else if !has_uuid(before, after[i].uuid) {
        Some(after[i].uuid)
    } else {
        first_new(before, after, i + 1)
    }
}

/// The profile that an import added: the first that was not there before.
pub fn imported_profile(before: &[WireguardProfile], after: &[WireguardProfile]) -> (r: Option<
    String,
>)
    ensures
        crate::text::opt_text(r) == first_new(profile_views(before@), profile_views(after@), 0),
{
    let ghost old_views = profile_views(before@);
    let ghost new_views = profile_views(after@);
    let mut i: usize = 0;
    while i < after.len()
        invariant
            i <= after.len(),
            old_views == profile_views(before@),
            new_views == profile_views(after@),
            first_new(old_views, new_views, 0) == first_new(old_views, new_views, i as int),
        decreases after.len() - i,
    {
        let uuid = after[i].uuid.as_str();
        assert(new_views[i as int].uuid == uuid@);
        let mut known = false;
        let mut j: usize = 0;
        while j < before.len()
            invariant
                j <= before.len(),
                old_views == profile_views(before@),
                known == (exists|k: int| 0 <= k < j && (#[trigger] old_views[k]).uuid == uuid@),
            decreases before.len() - j,
        {
            assert(old_views[j as int].uuid == before[j as int].uuid@);
            if same(before[j].uuid.as_str(), uuid) {
                known = true;
            }
            j += 1;
        }
        if !known {
            return Some(after[i].uuid.clone());
        }
        i += 1;
    }
    None
}

/// The batches that settle a profile which was just imported: it is taken down,
/// and does not come up on its own.
pub open spec fn settle_args(uuid: Seq<char>) -> Seq<Seq<Seq<char>>> {
    seq![seq!["connection"@, "down"@, uuid], autoconnect_args(uuid, false)]
}

/// The batches that settle a profile which was just imported. Each is run
/// whatever earlier ones came to.
pub fn settle_batches(uuid: &str) -> (r: Vec<Vec<String>>)
    ensures
        r.deep_view() == settle_args(uuid@),
{
    let mut r: Vec<Vec<String>> = Vec::new();
    let down = vec!["connection".to_owned(), "down".to_owned(), uuid.to_owned()];
    assert(down.deep_view() =~= seq!["connection"@, "down"@, uuid@]);
    r.push(down);
    r.push(autoconnect::set_args(uuid, false));
    assert(r.deep_view() =~= settle_args(uuid@));
    r
}

/// The batches that bring a profile which was just imported in line with the
/// settings: it gets the routes where traffic is split, and the kill switch where
/// that is on.
pub open spec fn import_args(
    uuid: Seq<char>,
    has_ipv6: bool,
    kill_switch: bool,
    mode: SplitTunnelMode,
    v4: Seq<Seq<char>>,
    v6: Seq<Seq<char>>,
) -> Seq<Seq<Seq<char>>> {
    let split = if mode.spec_is_enabled() {
        seq![split_tunnel_args(uuid, mode, v4, v6)]
    } else {
        Seq::empty()
    };
    if kill_switch {
        split.push(kill_switch_args(uuid, true, has_ipv6))
    } else {
        split
    }
}

/// The batches that bring a profile which was just imported in line with the
/// settings. Each is run whatever earlier ones came to.
pub fn import_batches(
    uuid: &str,
    has_ipv6: bool,
    config: &AppConfig,
    v4_routes: &[String],
    v6_routes: &[String],
) -> (r: Vec<Vec<String>>)
    ensures
        r.deep_view() == import_args(
            uuid@,
            has_ipv6,
            config.kill_switch_enabled,
            config.global_split_tunnel.mode,
            v4_routes.deep_view(),
            v6_routes.deep_view(),
        ),
{
    let mut r: Vec<Vec<String>> = Vec::new();
    let mode = config.global_split_tunnel.mode;
    if mode.is_enabled() {
        r.push(split_tunnel::set_args(uuid, mode, v4_routes, v6_routes));
    }
    if config.kill_switch_enabled {
        r.push(kill_switch::set_args(uuid, true, has_ipv6));
    }
    assert(r.deep_view() =~= import_args(
        uuid@,
        has_ipv6,
        config.kill_switch_enabled,
        mode,
        v4_routes.deep_view(),
        v6_routes.deep_view(),
    ));
    r
}

/// Whether settings are those from before, with the comments of an imported
/// configuration kept as the notes of its profile, where there are any.
pub open spec fn comments_kept(
    after: AppConfig,
    before: AppConfig,
    uuid: Seq<char>,
    comments: Seq<char>,
) -> bool {
    &&& after.profile_custom_info@ == (if comments.len() > 0 {
        before.profile_custom_info@.insert(uuid, comments)
    } else {
        before.profile_custom_info@
    })
    &&& after.general == before.general
    &&& after.kill_switch_enabled == before.kill_switch_enabled
    &&& after.lockdown_enabled == before.lockdown_enabled
    &&& after.excluded_profile_ids == before.excluded_profile_ids
    &&& after.favorite_profile_ids == before.favorite_profile_ids
    &&& after.last_random_profile_id == before.last_random_profile_id
    &&& after.global_split_tunnel == before.global_split_tunnel
    &&& after.theme == before.theme
    &&& after.port_forwarding == before.port_forwarding
    &&& after.qbittorrent == before.qbittorrent
}

/// Keep the comments of an imported configuration as the notes of its profile,
/// where there are any.
pub fn keep_comments(config: &mut AppConfig, uuid: &str, comments: &str)
    ensures
        comments_kept(*final(config), *old(config), uuid@, comments@),
{
    if !comments.is_empty() {
        config.profile_custom_info.insert(uuid.to_owned(), comments.to_owned());
    }
}

} // verus!
