//! What connecting, switching, disconnecting, deleting and importing come to, in
//! terms of the commands that are run on connections.

use vstd::prelude::*;
use vstd::string::*;

use crate::collections::text_before;
use crate::config::{AppConfig, SplitTunnelMode};
use crate::error::{AppError, AppResult};
use crate::nm::activation::{comments_kept, first_new, has_uuid, import_args, settle_args};
use crate::nm::client::{activate_run, active_args, address_run, adopted, all_run, brought_up, connect_run, connected, delete_run, disconnect_run, disconnected, dns_in, dns_run, family_run, import_file_args, import_followed, import_run, import_settled, interface_run, list_args, list_run, pair_at, property_args, property_read, replaced, reply_at, routes_run, seen_in, settled, switch_run, switched, tunnel_run, tunnels_of, tunnels_run, verb_args};
use crate::nm::comments::comments_in;
use crate::nm::effects::{asks_method, brings_up, comes_up, failed, guards, law_autoconnect_command, law_profile_is_ready_when_it_comes_up, lemma_guards, lemma_splits, says_ipv6, splits, step_gives, takes_down};
use crate::nm::diagnostics::{initiates, settings_in};
use crate::nm::endpoints::{endpoints_of, first_address, set_value, tunnel_views, TunnelView, WireguardTunnel};
use crate::nm::health::TunnelHealth;
use crate::nm::kill_switch::kill_switch_args;
use crate::nm::machine::Step;
use crate::nm::profiles::{active_of, fields_of, first_active, first_bad, found_by_identifier, identified, listed, named, names_of, profile_views, ProfileState, ProfileView, WireguardProfile};
use crate::nm::split_tunnel::{are_routes_for, split_tunnel_args};
use crate::order::{comes_before, is_stable_order};
use crate::text::{after_each, is_blank, is_space, joined, law_replacing_a_separator, law_trimming, lines_of, opt_text};

verus! {

// ---------------------------------------------------------------------------
// Which profile is meant
// ---------------------------------------------------------------------------

/// Whether the profile at `i` is the one that an identifier means: the first that
/// has it for its own identifier, and where none has, the only one of that name.
pub open spec fn is_meant(profiles: Seq<ProfileView>, identifier: Seq<char>, i: int) -> bool {
    &&& 0 <= i < profiles.len()
    &&& if profiles[i].uuid == identifier {
        forall|j: int| 0 <= j < i ==> (#[trigger] profiles[j]).uuid != identifier
    } else {
        &&& profiles[i].name == identifier
        &&& forall|j: int| 0 <= j < profiles.len() ==> (#[trigger] profiles[j]).uuid != identifier
        &&& forall|j: int|
            0 <= j < profiles.len() && (#[trigger] profiles[j]).name == identifier ==> j == i
    }
}

/// Whether an error tells why an identifier means no profile.
pub open spec fn tells_why(
    profiles: Seq<ProfileView>,
    identifier: Seq<char>,
    e: AppError,
) -> bool {
    match e {
        AppError::ProfileNotFound(m) => m@ == identifier && forall|i: int|
            0 <= i < profiles.len() ==> (#[trigger] profiles[i]).name != identifier,
        AppError::AmbiguousProfileName(m) => m@ == identifier && exists|i: int, j: int|
            0 <= i < j < profiles.len() && (#[trigger] profiles[i]).name == identifier && (
            #[trigger] profiles[j]).name == identifier,
        _ => false,
    }
}

/// What looking for a profile comes to: the one that is meant, or why there is
/// none.
pub proof fn law_the_meant_profile_is_found(
    found: Result<ProfileView, AppError>,
    profiles: Seq<ProfileView>,
    identifier: Seq<char>,
)
    requires
        found_by_identifier(found, profiles, identifier),
    ensures
        match found {
            Ok(p) => exists|i: int| #[trigger] is_meant(profiles, identifier, i) && profiles[i] == p,
            Err(e) => tells_why(profiles, identifier, e) && forall|i: int|
                !#[trigger] is_meant(profiles, identifier, i),
        },
{
    if exists|i: int| #[trigger] identified(profiles, identifier, i) {
        let p = found->Ok_0;
        let i = choose|i: int| #[trigger]
            identified(profiles, identifier, i) && profiles[i] == p && forall|j: int|
                j < i ==> !#[trigger] identified(profiles, identifier, j);
        assert forall|j: int| 0 <= j < i implies (#[trigger] profiles[j]).uuid != identifier by {
            assert(!identified(profiles, identifier, j));
        }
        assert(is_meant(profiles, identifier, i));
    } else {
        assert forall|j: int| 0 <= j < profiles.len() implies (#[trigger] profiles[j]).uuid
            != identifier by {
            assert(!identified(profiles, identifier, j));
        }
        match found {
            Ok(p) => {
                let i = choose|i: int| #[trigger]
                    named(profiles, identifier, i) && profiles[i] == p && forall|j: int| #[trigger]
                        named(profiles, identifier, j) ==> j == i;
                assert forall|j: int|
                    0 <= j < profiles.len() && (#[trigger] profiles[j]).name
                        == identifier implies j == i by {
                    assert(named(profiles, identifier, j));
                }
                assert(is_meant(profiles, identifier, i));
            },
            Err(e) => {
                match e {
                    AppError::ProfileNotFound(_) => {
                        assert forall|i: int| 0 <= i < profiles.len() implies (
                        #[trigger] profiles[i]).name != identifier by {
                            assert(!named(profiles, identifier, i));
                        }
                    },
                    AppError::AmbiguousProfileName(_) => {
                        let (i, j) = choose|i: int, j: int|
                            i < j && #[trigger] named(profiles, identifier, i) && #[trigger] named(
                                profiles,
                                identifier,
                                j,
                            );
                        assert(profiles[i].name == identifier && profiles[j].name == identifier);
                    },
                    _ => {},
                }
            },
        }
    }
}

/// Whether the profile at `i` is the first that is up.
pub open spec fn is_first_up(profiles: Seq<ProfileView>, i: int) -> bool {
    &&& 0 <= i < profiles.len()
    &&& profiles[i].state == ProfileState::Active
    &&& forall|j: int| 0 <= j < i ==> (#[trigger] profiles[j]).state != ProfileState::Active
}

/// Whether no profile is up.
pub open spec fn none_up(profiles: Seq<ProfileView>) -> bool {
    forall|j: int| 0 <= j < profiles.len() ==> (#[trigger] profiles[j]).state != ProfileState::Active
}

proof fn lemma_first_active(profiles: Seq<ProfileView>, i: int)
    requires
        0 <= i <= profiles.len(),
        forall|j: int| 0 <= j < i ==> (#[trigger] profiles[j]).state != ProfileState::Active,
    ensures
        i <= first_active(profiles, i) <= profiles.len(),
        first_active(profiles, i) < profiles.len() ==> is_first_up(
            profiles,
            first_active(profiles, i),
        ),
        first_active(profiles, i) == profiles.len() ==> none_up(profiles),
    decreases profiles.len() - i,
{
    if i < profiles.len() && profiles[i].state != ProfileState::Active {
        lemma_first_active(profiles, i + 1);
    }
}

/// The profile that counts as up is the first that is.
pub proof fn law_the_first_active_counts(profiles: Seq<ProfileView>)
    ensures
        match active_of(profiles) {
            Some(p) => exists|i: int| #[trigger] is_first_up(profiles, i) && profiles[i] == p,
            None => none_up(profiles),
        },
{
    lemma_first_active(profiles, 0);
    if active_of(profiles) is Some {
        assert(is_first_up(profiles, first_active(profiles, 0)));
    }
}

// ---------------------------------------------------------------------------
// Connecting
// ---------------------------------------------------------------------------

/// Whether steps bring a profile up and come to `r`.
pub open spec fn ends_up(t: Seq<Step>, uuid: Seq<char>, r: AppResult<()>) -> bool {
    exists|u: int| #[trigger] comes_up(t, uuid, u) && (r is Ok ==> !failed(t[u]))
}

/// Whether steps connect the profile that an identifier means: it is brought up,
/// and no other one; where none is meant, nothing is done.
pub open spec fn connects(
    t: Seq<Step>,
    profiles: Seq<ProfileView>,
    identifier: Seq<char>,
    r: AppResult<()>,
) -> bool {
    ||| exists|i: int| #[trigger]
        is_meant(profiles, identifier, i) && ends_up(t, profiles[i].uuid, r)
    ||| t.len() == 0 && (forall|i: int| !#[trigger] is_meant(profiles, identifier, i)) && (r
        matches Err(e) && tells_why(profiles, identifier, e))
}

/// Connecting brings up the profile that is meant among those that are listed, in
/// line with the settings, and no other one; where none is meant, nothing is run.
pub proof fn law_connecting(t: Seq<Step>, identifier: Seq<char>, r: AppResult<()>)
    requires
        connect_run(t, identifier, r),
    ensures
        exists|n: int, list: AppResult<Vec<WireguardProfile>>|
            0 <= n <= t.len() && #[trigger] list_run(t.take(n), list) && match list {
                Err(e) => t.len() == n && r == Err::<(), AppError>(e),
                Ok(profiles) => connects(t.skip(n), profile_views(profiles@), identifier, r),
            },
{
    let (n, list) = choose|n: int, list: AppResult<Vec<WireguardProfile>>|
        0 <= n <= t.len() && #[trigger] list_run(t.take(n), list) && match list {
            Err(e) => t.len() == n && r == Err::<(), AppError>(e),
            Ok(profiles) => connected(t.skip(n), profile_views(profiles@), identifier, r),
        };
    if let Ok(profiles) = list {
        let views = profile_views(profiles@);
        let u = t.skip(n);
        let found = choose|found: Result<ProfileView, AppError>| #[trigger]
            found_by_identifier(found, views, identifier) && match found {
                Err(e) => u.len() == 0 && r == Err::<(), AppError>(e),
                Ok(p) => activate_run(u, p.uuid, r),
            };
        law_the_meant_profile_is_found(found, views, identifier);
        if let Ok(p) = found {
            law_profile_is_ready_when_it_comes_up(u, p.uuid, r);
            let i = choose|i: int| #[trigger] is_meant(views, identifier, i) && views[i] == p;
            assert(is_meant(views, identifier, i) && ends_up(u, views[i].uuid, r));
        }
        assert(connects(u, views, identifier, r));
    }
    assert(list_run(t.take(n), list));
}

/// Whether steps make the profile at `i` the one that is up: nothing is done where
/// it is up already; else the one that is up, if any, is taken down first, and
/// where that fails the profile is not brought up.
pub open spec fn replaces(
    t: Seq<Step>,
    profiles: Seq<ProfileView>,
    i: int,
    r: AppResult<()>,
) -> bool {
    if profiles[i].state == ProfileState::Active {
        t.len() == 0 && r is Ok
    } else {
        ||| none_up(profiles) && ends_up(t, profiles[i].uuid, r)
        ||| exists|a: int| #[trigger]
            is_first_up(profiles, a) && t.len() > 0 && takes_down(t[0], profiles[a].uuid) && (
            if failed(t[0]) {
                t.len() == 1 && r is Err
            } else {
                ends_up(t.skip(1), profiles[i].uuid, r)
            })
    }
}

/// Whether steps switch to the profile that an identifier means.
pub open spec fn switches(
    t: Seq<Step>,
    profiles: Seq<ProfileView>,
    identifier: Seq<char>,
    r: AppResult<()>,
) -> bool {
    ||| exists|i: int| #[trigger] is_meant(profiles, identifier, i) && replaces(t, profiles, i, r)
    ||| t.len() == 0 && (forall|i: int| !#[trigger] is_meant(profiles, identifier, i)) && (r
        matches Err(e) && tells_why(profiles, identifier, e))
}

/// Switching takes the profile that is up down before the one that is meant is
/// brought up; it does nothing where that one is up already, or where none is
/// meant.
pub proof fn law_switching(t: Seq<Step>, identifier: Seq<char>, r: AppResult<()>)
    requires
        switch_run(t, identifier, r),
    ensures
        exists|n: int, list: AppResult<Vec<WireguardProfile>>|
            0 <= n <= t.len() && #[trigger] list_run(t.take(n), list) && match list {
                Err(e) => t.len() == n && r == Err::<(), AppError>(e),
                Ok(profiles) => switches(t.skip(n), profile_views(profiles@), identifier, r),
            },
{
    let (n, list) = choose|n: int, list: AppResult<Vec<WireguardProfile>>|
        0 <= n <= t.len() && #[trigger] list_run(t.take(n), list) && match list {
            Err(e) => t.len() == n && r == Err::<(), AppError>(e),
            Ok(profiles) => switched(t.skip(n), profile_views(profiles@), identifier, r),
        };
    if let Ok(profiles) = list {
        let views = profile_views(profiles@);
        let u = t.skip(n);
        let found = choose|found: Result<ProfileView, AppError>| #[trigger]
            found_by_identifier(found, views, identifier) && match found {
                Err(e) => u.len() == 0 && r == Err::<(), AppError>(e),
                Ok(target) => replaced(u, views, target, r),
            };
        law_the_meant_profile_is_found(found, views, identifier);
        if let Ok(p) = found {
            let i = choose|i: int| #[trigger] is_meant(views, identifier, i) && views[i] == p;
            law_the_first_active_counts(views);
            if p.state != ProfileState::Active {
                match active_of(views) {
                    None => {
                        law_profile_is_ready_when_it_comes_up(u, p.uuid, r);
                    },
                    Some(active) => {
                        let a = choose|a: int| #[trigger]
                            is_first_up(views, a) && views[a] == active;
                        assert(verb_args("down"@, active.uuid) =~= seq![
                            "connection"@,
                            "down"@,
                            active.uuid,
                        ]);
                        if !failed(u[0]) {
                            law_profile_is_ready_when_it_comes_up(u.skip(1), p.uuid, r);
                        }
                        assert(is_first_up(views, a) && takes_down(u[0], views[a].uuid));
                    },
                }
            }
            assert(is_meant(views, identifier, i) && replaces(u, views, i, r));
        }
        assert(switches(u, views, identifier, r));
    }
    assert(list_run(t.take(n), list));
}

/// Whether steps take down the first profile that is up; nothing is done where
/// none is.
pub open spec fn disconnects(t: Seq<Step>, profiles: Seq<ProfileView>, r: AppResult<()>) -> bool {
    ||| none_up(profiles) && t.len() == 0 && r matches Err(AppError::NoActiveProfile)
    ||| exists|a: int| #[trigger]
        is_first_up(profiles, a) && t.len() == 1 && takes_down(t[0], profiles[a].uuid) && (r is Ok
            <==> !failed(t[0]))
}

/// Disconnecting takes down the profile that is up, and nothing else.
pub proof fn law_disconnecting(t: Seq<Step>, r: AppResult<()>)
    requires
        disconnect_run(t, r),
    ensures
        exists|n: int, list: AppResult<Vec<WireguardProfile>>|
            0 <= n <= t.len() && #[trigger] list_run(t.take(n), list) && match list {
                Err(e) => t.len() == n && r == Err::<(), AppError>(e),
                Ok(profiles) => disconnects(t.skip(n), profile_views(profiles@), r),
            },
{
    let (n, list) = choose|n: int, list: AppResult<Vec<WireguardProfile>>|
        0 <= n <= t.len() && #[trigger] list_run(t.take(n), list) && match list {
            Err(e) => t.len() == n && r == Err::<(), AppError>(e),
            Ok(profiles) => disconnected(t.skip(n), profile_views(profiles@), r),
        };
    if let Ok(profiles) = list {
        let views = profile_views(profiles@);
        let u = t.skip(n);
        law_the_first_active_counts(views);
        if let Some(p) = active_of(views) {
            let a = choose|a: int| #[trigger] is_first_up(views, a) && views[a] == p;
            assert(verb_args("down"@, p.uuid) =~= seq!["connection"@, "down"@, p.uuid]);
            assert(is_first_up(views, a) && takes_down(u[0], views[a].uuid));
        }
        assert(disconnects(u, views, r));
    }
    assert(list_run(t.take(n), list));
}

// ---------------------------------------------------------------------------
// Listing
// ---------------------------------------------------------------------------

/// Whether a profile stands in a line of a listing: as a WireGuard connection of
/// its name and identifier.
pub open spec fn stands_in(line: Seq<char>, name: Seq<char>, uuid: Seq<char>) -> bool {
    let fields = fields_of(line);
    fields.len() == 3 && fields[0] == name && fields[1] == uuid && fields[2] == "wireguard"@
}

/// Whether a profile is up: a line of the active connections has it.
pub open spec fn is_up_in(active: Seq<Seq<char>>, uuid: Seq<char>) -> bool {
    exists|k: int|
        0 <= k < active.len() && fields_of(#[trigger] active[k])[1] == uuid && fields_of(active[k])[2]
            == "wireguard"@
}

/// Whether profiles are those that lines list: each stands in a line, each line of
/// a WireGuard connection gives one, and it counts as active exactly where it is
/// among the active connections.
pub open spec fn is_list_of(
    profiles: Seq<ProfileView>,
    rows: Seq<Seq<char>>,
    active: Seq<Seq<char>>,
) -> bool {
    &&& forall|i: int|
        0 <= i < profiles.len() ==> (exists|k: int|
            0 <= k < rows.len() && stands_in(
                #[trigger] rows[k],
                profiles[i].name,
                profiles[i].uuid,
            )) && ((#[trigger] profiles[i]).state == ProfileState::Active <==> is_up_in(
            active,
            profiles[i].uuid,
        ))
    &&& forall|k: int|
        0 <= k < rows.len() && fields_of(#[trigger] rows[k])[2] == "wireguard"@ ==> exists|i: int|
            0 <= i < profiles.len() && (#[trigger] profiles[i]).name == fields_of(rows[k])[0]
                && profiles[i].uuid == fields_of(rows[k])[1]
}

proof fn lemma_listed(rows: Seq<Seq<char>>, active: Seq<Seq<char>>)
    requires
        forall|k: int| 0 <= k < rows.len() ==> fields_of(#[trigger] rows[k]).len() == 3,
    ensures
        is_list_of(listed(rows, active), rows, active),
    decreases rows.len(),
{
    if rows.len() > 0 {
        let less = rows.drop_last();
        let before = listed(less, active);
        let now = listed(rows, active);
        let n = rows.len() - 1;
        assert forall|k: int| 0 <= k < less.len() implies fields_of(#[trigger] less[k]).len()
            == 3 by {
            assert(less[k] == rows[k]);
        }
        lemma_listed(less, active);
        assert forall|i: int| 0 <= i < now.len() implies (exists|k: int|
            0 <= k < rows.len() && stands_in(#[trigger] rows[k], now[i].name, now[i].uuid)) && ((
        #[trigger] now[i]).state == ProfileState::Active <==> is_up_in(active, now[i].uuid)) by {
            if i < before.len() {
                assert(now[i] == before[i]);
                let k = choose|k: int|
                    0 <= k < less.len() && stands_in(
                        #[trigger] less[k],
                        before[i].name,
                        before[i].uuid,
                    );
                assert(stands_in(rows[k], now[i].name, now[i].uuid));
            } else {
                assert(stands_in(rows[n], now[i].name, now[i].uuid));
            }
        }
        assert forall|k: int|
            0 <= k < rows.len() && fields_of(#[trigger] rows[k])[2] == "wireguard"@ implies exists|
            i: int,
        |
            0 <= i < now.len() && (#[trigger] now[i]).name == fields_of(rows[k])[0] && now[i].uuid
                == fields_of(rows[k])[1] by {
            if k < n {
                assert(less[k] == rows[k]);
                let i = choose|i: int|
                    0 <= i < before.len() && (#[trigger] before[i]).name == fields_of(less[k])[0]
                        && before[i].uuid == fields_of(less[k])[1];
                assert(now[i] == before[i]);
            } else {
                assert(now[before.len() as int].name == fields_of(rows[k])[0]);
            }
        }
    }
}

proof fn lemma_no_bad(rows: Seq<Seq<char>>, i: int)
    requires
        0 <= i <= rows.len(),
        first_bad(rows, i) is None,
    ensures
        forall|k: int| i <= k < rows.len() ==> fields_of(#[trigger] rows[k]).len() == 3,
    decreases rows.len() - i,
{
    if i < rows.len() {
        lemma_no_bad(rows, i + 1);
    }
}

/// Whether the texts of the profiles are in order.
pub open spec fn in_name_order(profiles: Seq<ProfileView>) -> bool {
    forall|i: int, j: int|
        0 <= i < j < profiles.len() ==> text_before(
            (#[trigger] profiles[i]).name,
            (#[trigger] profiles[j]).name,
        ) || profiles[i].name == profiles[j].name
}

/// Listing asks for all connections and then for the active ones; what it gives
/// are the WireGuard connections, sorted by name, each active exactly where it is
/// among the active ones.
pub proof fn law_listing(t: Seq<Step>, list: Vec<WireguardProfile>)
    requires
        list_run(t, Ok::<Vec<WireguardProfile>, AppError>(list)),
    ensures
        t.len() == 2,
        t[0] matches Step::Nmcli { args, reply } && args == seq![
            "-t"@,
            "-f"@,
            "NAME,UUID,TYPE"@,
            "connection"@,
            "show"@,
        ] && (reply matches Ok(all) && (t[1] matches Step::Nmcli { args: more, reply: second }
            && more == args.push("--active"@) && (second matches Ok(up) && is_list_of(
            profile_views(list@),
            lines_of(all@),
            lines_of(up@),
        )))),
        in_name_order(profile_views(list@)),
{
    let all = reply_at(t, 0, list_args())->0->Ok_0;
    let up = reply_at(t, 1, active_args())->0->Ok_0;
    let rows = lines_of(all@);
    let active = lines_of(up@);
    let views = profile_views(list@);
    let plain = listed(rows, active);
    lemma_no_bad(rows, 0);
    lemma_listed(rows, active);
    let names = names_of(plain);
    let order = choose|order: Seq<usize>| #[trigger]
        is_stable_order(order, names) && views == order.map_values(|k: usize| plain[k as int]);
    assert forall|i: int| 0 <= i < views.len() implies #[trigger] views[i] == plain[order[i] as int]
        && 0 <= order[i] < plain.len() by {
        assert(0 <= order[i] < names.len());
    }
    assert forall|i: int, j: int| 0 <= i < j < views.len() implies text_before(
        (#[trigger] views[i]).name,
        (#[trigger] views[j]).name,
    ) || views[i].name == views[j].name by {
        assert(comes_before(names, order[i] as int, order[j] as int));
    }
    assert forall|k: int|
        0 <= k < rows.len() && fields_of(#[trigger] rows[k])[2] == "wireguard"@ implies exists|
        i: int,
    |
        0 <= i < views.len() && (#[trigger] views[i]).name == fields_of(rows[k])[0] && views[i].uuid
            == fields_of(rows[k])[1] by {
        let i = choose|i: int|
            0 <= i < plain.len() && (#[trigger] plain[i]).name == fields_of(rows[k])[0]
                && plain[i].uuid == fields_of(rows[k])[1];
        assert(list.len() == list@.len());
        assert(plain.len() == names.len() && names.len() == views.len());
        assert(views.len() == list@.len());
        assert(i as usize == i);
        assert(order.contains(i as usize));
        let j = choose|j: int| 0 <= j < order.len() && order[j] == i as usize;
        assert(views[j] == plain[order[j] as int]);
    }
    assert(is_list_of(views, rows, active));
    assert(active_args() =~= list_args().push("--active"@));
}

// ---------------------------------------------------------------------------
// Deleting
// ---------------------------------------------------------------------------

/// Whether settings mention a profile nowhere.
pub open spec fn mentions_nowhere(config: AppConfig, uuid: Seq<char>) -> bool {
    &&& !config.profile_custom_info@.dom().contains(uuid)
    &&& !config.excluded_profile_ids@.contains(uuid)
    &&& !config.favorite_profile_ids@.contains(uuid)
    &&& opt_text(config.last_random_profile_id) != Some(uuid)
}

/// Whether settings are the same but for what they mention of one profile.
pub open spec fn same_but_for(after: AppConfig, before: AppConfig, uuid: Seq<char>) -> bool {
    &&& forall|other: Seq<char>|
        other != uuid ==> #[trigger] after.excluded_profile_ids@.contains(other)
            == before.excluded_profile_ids@.contains(other)
    &&& forall|other: Seq<char>|
        other != uuid ==> #[trigger] after.favorite_profile_ids@.contains(other)
            == before.favorite_profile_ids@.contains(other)
    &&& forall|other: Seq<char>|
        other != uuid ==> #[trigger] after.profile_custom_info@.dom().contains(other)
            == before.profile_custom_info@.dom().contains(other) && (
        before.profile_custom_info@.dom().contains(other) ==> after.profile_custom_info@[other]
            == before.profile_custom_info@[other])
    &&& opt_text(before.last_random_profile_id) != Some(uuid) ==> opt_text(
        after.last_random_profile_id,
    ) == opt_text(before.last_random_profile_id)
    &&& after.general == before.general
    &&& after.kill_switch_enabled == before.kill_switch_enabled
    &&& after.lockdown_enabled == before.lockdown_enabled
    &&& after.global_split_tunnel == before.global_split_tunnel
    &&& after.theme == before.theme
    &&& after.port_forwarding == before.port_forwarding
    &&& after.qbittorrent == before.qbittorrent
}

/// Deleting runs the one command that deletes the connection. Where that succeeds,
/// the settings that are stored in the end mention the profile nowhere and are
/// otherwise what they were; where it fails, they are not touched.
pub proof fn law_deleting(t: Seq<Step>, uuid: Seq<char>, r: AppResult<()>)
    requires
        delete_run(t, uuid, r),
    ensures
        t.len() > 0,
        t[0] matches Step::Nmcli { args, reply: _ } && args == seq![
            "connection"@,
            "delete"@,
            uuid,
        ],
        r is Ok <==> !failed(t[0]),
        r is Err ==> t.len() == 1,
        r is Ok ==> t.len() > 1 && (t[1] matches Step::Load { settings } && match settings {
            None => t.len() == 2,
            Some(config) => if mentions_nowhere(config, uuid) {
                t.len() == 2
            } else {
                t.len() == 3 && (t[2] matches Step::Save { config: after, outcome: _ }
                    && mentions_nowhere(after, uuid) && same_but_for(after, config, uuid))
            },
        }),
{
    assert(verb_args("delete"@, uuid) =~= seq!["connection"@, "delete"@, uuid]);
    if r is Ok {
        if t.len() > 2 {
            assert(t.skip(2)[0] == t[2]);
        }
    }
}

// ---------------------------------------------------------------------------
// Importing
// ---------------------------------------------------------------------------

/// Whether a profile is new: it is listed now and was not before.
pub open spec fn is_new(
    before: Seq<ProfileView>,
    after: Seq<ProfileView>,
    uuid: Seq<char>,
) -> bool {
    &&& exists|i: int| 0 <= i < after.len() && (#[trigger] after[i]).uuid == uuid
    &&& forall|i: int| 0 <= i < before.len() ==> (#[trigger] before[i]).uuid != uuid
}

proof fn lemma_first_new(before: Seq<ProfileView>, after: Seq<ProfileView>, i: int)
    requires
        0 <= i <= after.len(),
    ensures
        first_new(before, after, i) matches Some(uuid) ==> is_new(before, after, uuid),
        first_new(before, after, i) is None ==> forall|k: int|
            i <= k < after.len() ==> !is_new(before, after, (#[trigger] after[k]).uuid),
    decreases after.len() - i,
{
    if i < after.len() {
        if has_uuid(before, after[i].uuid) {
            let j = choose|j: int| 0 <= j < before.len() && (#[trigger] before[j]).uuid
                == after[i].uuid;
            lemma_first_new(before, after, i + 1);
        } else {
            assert forall|j: int| 0 <= j < before.len() implies (#[trigger] before[j]).uuid
                != after[i].uuid by {
                if before[j].uuid == after[i].uuid {
                    assert(has_uuid(before, after[i].uuid));
                }
            }
            assert(after[i].uuid == after[i].uuid);
        }
    }
}

/// The profile that an import is taken to have brought is new; where none is taken,
/// there is no new one.
pub proof fn law_imported_profile_is_new(before: Seq<ProfileView>, after: Seq<ProfileView>)
    ensures
        match first_new(before, after, 0) {
            Some(uuid) => is_new(before, after, uuid),
            None => forall|uuid: Seq<char>| !#[trigger] is_new(before, after, uuid),
        },
{
    lemma_first_new(before, after, 0);
    if first_new(before, after, 0) is None {
        assert forall|uuid: Seq<char>| !#[trigger] is_new(before, after, uuid) by {
            if is_new(before, after, uuid) {
                let i = choose|i: int| 0 <= i < after.len() && (#[trigger] after[i]).uuid == uuid;
                assert(!is_new(before, after, after[i].uuid));
            }
        }
    }
}

/// Whether steps take an imported profile in with settings: it gets the routes
/// where traffic is split, and the kill switch where that is on, as its IPv6 method
/// says; then the settings are saved.
pub open spec fn takes_in(t: Seq<Step>, uuid: Seq<char>, config: AppConfig) -> bool {
    let split = config.global_split_tunnel;
    let a: int = if split.mode == SplitTunnelMode::Disabled { 0 } else { 1 };
    let b: int = if config.kill_switch_enabled { 1 } else { 0 };
    &&& t.len() == 2 * a + 2 * b + 1
    &&& a == 1 ==> (t[0] matches Step::Resolve { domains, addresses } && domains
        == split.domains.deep_view() && (exists|v4: Seq<Seq<char>>, v6: Seq<Seq<char>>| #[trigger]
        are_routes_for((v4, v6), split.mode, split.cidrs.deep_view(), addresses) && splits(
            t[a + b],
            uuid,
            split.mode,
            v4,
            v6,
        )))
    &&& b == 1 ==> asks_method(t[a], uuid) && guards(t[2 * a + b], uuid, true, says_ipv6(t[a]))
    &&& t.last() matches Step::Save { config: _, outcome: _ }
}

/// A profile that was just imported is taken down, does not come up on its own,
/// and is taken in with the settings where they can be read.
pub proof fn law_imported_profile_is_settled(t: Seq<Step>, uuid: Seq<char>, content: Seq<char>)
    requires
        settled(t, uuid, content),
    ensures
        t.len() > 2,
        takes_down(t[0], uuid),
        step_gives(t[1], uuid, "connection.autoconnect"@) == Some("no"@),
        t[2] matches Step::Load { settings } && match settings {
            None => t.len() == 3,
            Some(config) => takes_in(t.skip(3), uuid, config),
        },
{
    let batches = settle_args(uuid);
    let head = t.take(2);
    assert(batches.len() == 2);
    assert(reply_at(head, 0, batches[0]) is Some);
    assert(reply_at(head, 1, batches[1]) is Some);
    assert(head[0] == t[0] && head[1] == t[1]);
    law_autoconnect_command(uuid, false, "connection.autoconnect"@, uuid);
    if let Some(config) = t[2]->settings {
        lemma_takes_in(t.skip(3), uuid, content, config);
    }
}

proof fn lemma_takes_in(t: Seq<Step>, uuid: Seq<char>, content: Seq<char>, config: AppConfig)
    requires
        adopted(t, uuid, content, config),
    ensures
        takes_in(t, uuid, config),
{
    let split = config.global_split_tunnel;
    let on = config.kill_switch_enabled;
    let (n, m, has_ipv6, routes) = choose|
        n: int,
        m: int,
        has_ipv6: bool,
        routes: (Seq<Seq<char>>, Seq<Seq<char>>),
    |
        0 <= n <= m < t.len() && #[trigger] routes_run(t.take(n), config, routes)
            && #[trigger] family_run(t.subrange(n, m), uuid, on, has_ipv6) && all_run(
            t.subrange(m, t.len() - 1),
            import_args(uuid, has_ipv6, on, split.mode, routes.0, routes.1),
        ) && (t.last() matches Step::Save { config: after, outcome: _ } && comments_kept(
            after,
            config,
            uuid,
            comments_in(content),
        ));
    let batches = import_args(uuid, has_ipv6, on, split.mode, routes.0, routes.1);
    let rest = t.subrange(m, t.len() - 1);
    let a: int = if split.mode == SplitTunnelMode::Disabled { 0 } else { 1 };
    let b: int = if on { 1 } else { 0 };
    assert(n == a);
    if on {
        let asked = t.subrange(n, m);
        let reply = choose|reply: AppResult<String>| #[trigger]
            property_read(asked, "ipv6.method"@, uuid, reply) && has_ipv6
                == crate::nm::client::carries(reply);
        assert(asked.len() == 1);
        assert(asked[0] == t[n]);
        assert(m == n + 1);
        assert(says_ipv6(t[a]) == has_ipv6);
        assert(crate::nm::client::property_args("ipv6.method"@, uuid) =~= seq![
            "-g"@,
            "ipv6.method"@,
            "connection"@,
            "show"@,
            uuid,
        ]);
        assert(asks_method(t[a], uuid));
    }
    assert(m == a + b);
    if a == 1 {
        assert(t.take(n)[0] == t[0]);
        assert(batches[0] == split_tunnel_args(uuid, split.mode, routes.0, routes.1));
        assert(reply_at(rest, 0, batches[0]) is Some);
        assert(rest[0] == t[m]);
        lemma_splits(t[m], uuid, split.mode, routes.0, routes.1);
        let (v4, v6) = routes;
        assert(are_routes_for((v4, v6), split.mode, split.cidrs.deep_view(), t[0]->addresses));
    }
    if on {
        assert(batches[a] == kill_switch_args(uuid, true, has_ipv6));
        assert(reply_at(rest, a, batches[a]) is Some);
        assert(rest[a] == t[m + a]);
        lemma_guards(t[m + a], uuid, true, has_ipv6);
    }
}

/// Whether steps import a file: the connections are listed, the file is imported as
/// a WireGuard configuration, and where that succeeded they are listed again and the
/// profile that is new, if any, is settled.
pub open spec fn imports<C: FnOnce() -> String>(
    t: Seq<Step>,
    n: int,
    file: Seq<char>,
    before: Seq<ProfileView>,
    read: C,
    r: AppResult<String>,
) -> bool {
    &&& 0 <= n < t.len()
    &&& t[n] matches Step::Nmcli { args, reply } && args == seq![
        "connection"@,
        "import"@,
        "type"@,
        "wireguard"@,
        "file"@,
        file,
    ] && reply == r
    &&& r is Err ==> t.len() == n + 1
    &&& r is Ok ==> exists|m: int, after: AppResult<Vec<WireguardProfile>>|
        0 <= m <= t.skip(n + 1).len() && #[trigger] list_run(t.skip(n + 1).take(m), after)
            && import_settled(t.skip(n + 1).skip(m), before, seen_in(after), read)
}

/// Importing runs the import of the file between two listings, and returns what it
/// printed; without a path that is text nothing is run.
pub proof fn law_importing<C: FnOnce() -> String>(
    t: Seq<Step>,
    path: Option<Seq<char>>,
    read: C,
    r: AppResult<String>,
)
    requires
        import_run(t, path, read, r),
    ensures
        match path {
            None => t.len() == 0 && r is Err,
            Some(file) => exists|n: int, before: AppResult<Vec<WireguardProfile>>|
                0 <= n < t.len() && #[trigger] list_run(t.take(n), before) && imports(
                    t,
                    n,
                    file,
                    seen_in(before),
                    read,
                    r,
                ),
        },
{
    if let Some(file) = path {
        let (n, before) = choose|n: int, before: AppResult<Vec<WireguardProfile>>|
            0 <= n < t.len() && #[trigger] list_run(t.take(n), before) && reply_at(
                t,
                n,
                import_file_args(file),
            ) == Some(r) && match r {
                Err(_) => t.len() == n + 1,
                Ok(_) => import_followed(t.skip(n + 1), seen_in(before), read),
            };
        assert(import_file_args(file) =~= seq![
            "connection"@,
            "import"@,
            "type"@,
            "wireguard"@,
            "file"@,
            file,
        ]);
        assert(imports(t, n, file, seen_in(before), read, r));
        assert(list_run(t.take(n), before));
    }
}

/// The settings that are saved after an import hold the comments of the
/// configuration as the notes of the profile, where it has any; all else stays.
pub proof fn law_imported_comments_are_kept(
    after: AppConfig,
    before: AppConfig,
    uuid: Seq<char>,
    comments: Seq<char>,
)
    requires
        comments_kept(after, before, uuid, comments),
    ensures
        comments.len() > 0 ==> after.profile_custom_info@.dom().contains(uuid)
            && after.profile_custom_info@[uuid] == comments,
        comments.len() == 0 ==> after.profile_custom_info@ == before.profile_custom_info@,
        same_but_for(after, before, uuid),
        after.excluded_profile_ids == before.excluded_profile_ids,
        after.favorite_profile_ids == before.favorite_profile_ids,
        after.last_random_profile_id == before.last_random_profile_id,
{
}

// ---------------------------------------------------------------------------
// Properties and tunnels
// ---------------------------------------------------------------------------

/// Whether a step asks for one property of a connection.
pub open spec fn asks_for(step: Step, property: Seq<char>, uuid: Seq<char>) -> bool {
    step matches Step::Nmcli { args, reply: _ } && args == seq![
        "-g"@,
        property,
        "connection"@,
        "show"@,
        uuid,
    ]
}

/// A value that NetworkManager prints is what stands between white space; nothing
/// and two dashes mean that there is none.
pub proof fn law_printed_value(before: Seq<char>, value: Seq<char>, after: Seq<char>)
    requires
        is_blank(before),
        is_blank(after),
        value.len() > 0 ==> !is_space(value[0]) && !is_space(value.last()),
    ensures
        set_value(before + value + after) == (if value.len() == 0 || value == "--"@ {
            None
        } else {
            Some(value)
        }),
{
    law_trimming(before, value, after);
}

/// The interface, the first address and the resolvers of a tunnel are each asked for
/// by the property that holds them.
pub proof fn law_properties_are_asked_for(
    t: Seq<Step>,
    uuid: Seq<char>,
    interface: Option<Seq<char>>,
    address: Option<Seq<char>>,
    dns: Option<Seq<char>>,
)
    ensures
        interface_run(t, uuid, interface) ==> t.len() == 1 && asks_for(
            t[0],
            "connection.interface-name"@,
            uuid,
        ) && (failed(t[0]) ==> interface is None),
        address_run(t, uuid, address) ==> t.len() == 1 && asks_for(t[0], "ipv4.addresses"@, uuid)
            && (failed(t[0]) ==> address is None),
        dns_run(t, uuid, dns) ==> t.len() == 1 && asks_for(t[0], "ipv4.dns"@, uuid) && (failed(t[0])
            ==> dns is None),
{
    lemma_property_words("connection.interface-name"@, uuid);
    lemma_property_words("ipv4.addresses"@, uuid);
    lemma_property_words("ipv4.dns"@, uuid);
}

proof fn lemma_property_words(property: Seq<char>, uuid: Seq<char>)
    ensures
        property_args(property, uuid) == seq!["-g"@, property, "connection"@, "show"@, uuid],
{
    assert(property_args(property, uuid) =~= seq![
        "-g"@,
        property,
        "connection"@,
        "show"@,
        uuid,
    ]);
}

/// The address of a tunnel is the first of those that are printed, which stand apart
/// by commas, without white space around it.
pub proof fn law_first_address(
    before: Seq<char>,
    address: Seq<char>,
    after: Seq<char>,
    rest: Seq<char>,
)
    requires
        is_blank(before),
        is_blank(after),
        address.len() > 0,
        !is_space(address[0]) && !is_space(address.last()),
        !address.contains(','),
        rest.len() > 0 ==> rest[0] == ',',
    ensures
        first_address(before + address + after + rest) == Some(address),
{
    let head = before + address + after;
    let all = head + rest;
    law_trimming(before, address, after);
    assert(!before.contains(',') && !after.contains(','));
    crate::ip::lemma_concat_plain(before, address, ',');
    crate::ip::lemma_concat_plain(before + address, after, ',');
    if rest.len() > 0 {
        let more = rest.skip(1);
        assert(all =~= head + seq![','] + more);
        crate::ip::lemma_split_front(head, ',', more);
        assert((seq![head] + crate::text::split_on(more, ','))[0] == head);
    } else {
        assert(all =~= head);
        crate::ip::lemma_split_single(head, ',');
    }
}

/// Whether two steps find the tunnel of a profile: its interface and its peers are
/// asked for, and it is active where the profile is.
pub open spec fn finds_tunnel(t: Seq<Step>, p: ProfileView, v: TunnelView) -> bool {
    &&& t.len() == 2
    &&& asks_for(t[0], "connection.interface-name"@, p.uuid)
    &&& asks_for(t[1], "wireguard.peers"@, p.uuid)
    &&& t[0] matches Step::Nmcli { args: _, reply: first } && (first matches Ok(name) && v.interface
        == set_value(name@))
    &&& t[1] matches Step::Nmcli { args: _, reply: second } && (second matches Ok(text)
        && v.endpoints == endpoints_of(after_each(text@, "endpoint"@)))
    &&& v.is_active <==> p.state == ProfileState::Active
}

/// The tunnels that the lockdown is built for are those of all profiles that are
/// listed, each with its interface, its peers and whether it is up.
pub proof fn law_tunnels(t: Seq<Step>, tunnels: Vec<WireguardTunnel>)
    requires
        tunnels_run(t, Ok::<Vec<WireguardTunnel>, AppError>(tunnels)),
    ensures
        exists|n: int, profiles: Vec<WireguardProfile>|
            0 <= n <= t.len() && #[trigger] list_run(
                t.take(n),
                Ok::<Vec<WireguardProfile>, AppError>(profiles),
            ) && tunnels@.len() == profiles@.len() && t.len() == n + 2 * profiles@.len() && forall|
                i: int,
            |
                0 <= i < profiles@.len() ==> finds_tunnel(
                    t.subrange(n + 2 * i, n + 2 * i + 2),
                    profile_views(profiles@)[i],
                    #[trigger] tunnel_views(tunnels@)[i],
                ),
{
    let r = Ok::<Vec<WireguardTunnel>, AppError>(tunnels);
    let (n, list) = choose|n: int, list: AppResult<Vec<WireguardProfile>>|
        0 <= n <= t.len() && #[trigger] list_run(t.take(n), list) && match list {
            Err(e) => t.len() == n && r == Err::<Vec<WireguardTunnel>, AppError>(e),
            Ok(profiles) => tunnels_of(t.skip(n), profile_views(profiles@), r),
        };
    let profiles = list->Ok_0;
    let views = profile_views(profiles@);
    let u = t.skip(n);
    assert forall|i: int| 0 <= i < profiles@.len() implies finds_tunnel(
        t.subrange(n + 2 * i, n + 2 * i + 2),
        views[i],
        #[trigger] tunnel_views(tunnels@)[i],
    ) by {
        let v = tunnel_views(tunnels@)[i];
        let pair = pair_at(u, i);
        assert(pair =~= t.subrange(n + 2 * i, n + 2 * i + 2));
        assert(tunnel_run(pair, views[i], Ok::<TunnelView, AppError>(v)));
        lemma_property_words("connection.interface-name"@, views[i].uuid);
        lemma_property_words("wireguard.peers"@, views[i].uuid);
    }
    assert(list_run(t.take(n), Ok::<Vec<WireguardProfile>, AppError>(profiles)));
}

// ---------------------------------------------------------------------------
// The check of a fresh tunnel
// ---------------------------------------------------------------------------

/// Whether a step waits for the peer behind an interface.
pub open spec fn probes(step: Step, interface: Seq<char>) -> bool {
    step matches Step::Probe { interface: probed, health: _ } && probed == interface
}

/// Whether a fresh tunnel has to be checked: the settings do not turn the check off,
/// its interface is known and was not there before, and what is shown of the profile
/// says that it initiates its handshake.
pub open spec fn has_to_be_checked(
    t: Seq<Step>,
    interface: Option<Seq<char>>,
    existed: bool,
) -> bool {
    &&& t.len() > 2
    &&& t[1] matches Step::Load { settings } && (settings matches Some(c)
        ==> c.general.verify_tunnel_on_connect)
    &&& interface is Some
    &&& !existed
    &&& t[2] matches Step::Nmcli { args: _, reply } && (reply matches Ok(text) && initiates(
        settings_in(lines_of(text@)),
    ))
}

/// A tunnel that came up is probed exactly where it has to be checked, by its own
/// interface. One whose peer answers stays up; one whose peer does not is taken down
/// and told to be dead; one that is not probed stays up.
pub proof fn law_fresh_tunnels_are_checked(
    t: Seq<Step>,
    uuid: Seq<char>,
    interface: Option<Seq<char>>,
    existed: bool,
    r: AppResult<()>,
)
    requires
        brought_up(t, uuid, interface, existed, r),
    ensures
        t.len() > 0 && brings_up(t[0], uuid),
        failed(t[0]) ==> t.len() == 1 && r is Err,
        !failed(t[0]) ==> t.len() > 1 && (has_to_be_checked(t, interface, existed) ==> t.len() > 3
            && probes(t[3], interface->0) && match t[3]->health {
            TunnelHealth::Handshaken => t.len() == 4 && r is Ok,
            TunnelHealth::NoHandshake => t.len() == 5 && takes_down(t[4], uuid) && r
                matches Err(AppError::TunnelUnhealthy(_)),
        }) && (!has_to_be_checked(t, interface, existed) ==> r is Ok && forall|j: int|
            0 <= j < t.len() ==> !((#[trigger] t[j]) is Probe)),
{
    assert(verb_args("up"@, uuid) =~= seq!["connection"@, "up"@, uuid]);
    assert(verb_args("down"@, uuid) =~= seq!["connection"@, "down"@, uuid]);
    if !failed(t[0]) {
        let u = t.skip(2);
        if u.len() > 0 {
            assert(u[0] == t[2]);
            let v = u.skip(1);
            if v.len() > 0 {
                assert(v[0] == t[3]);
                if v.len() > 1 {
                    assert(v[1] == t[4]);
                }
            }
        }
        if !has_to_be_checked(t, interface, existed) {
            assert forall|j: int| 0 <= j < t.len() implies !((#[trigger] t[j]) is Probe) by {
                if j >= 2 {
                    assert(t[j] == u[j - 2]);
                }
            }
        }
    }
}

/// The resolvers of a tunnel are listed with a comma and a space between them.
pub proof fn law_resolvers_are_listed(servers: Seq<Seq<char>>, reply: AppResult<String>)
    requires
        servers.len() > 0,
        forall|i: int|
            0 <= i < servers.len() ==> (#[trigger] servers[i]).len() > 0 && !servers[i].contains(',')
                && !is_space(servers[i][0]) && !is_space(servers[i].last()),
        reply matches Ok(text) && text@ == joined(servers, seq![',']),
        joined(servers, seq![',']) != "--"@,
    ensures
        dns_in(reply) == Some(joined(servers, ", "@)),
{
    let text = joined(servers, seq![',']);
    lemma_ends(servers, seq![',']);
    crate::text::lemma_trimmed_plain(text);
    law_replacing_a_separator(servers, ',', ", "@);
}

/// Parts that are put together start with the first and end with the last.
proof fn lemma_ends(parts: Seq<Seq<char>>, sep: Seq<char>)
    requires
        parts.len() > 0,
        parts[0].len() > 0,
        parts.last().len() > 0,
    ensures
        joined(parts, sep).len() > 0,
        joined(parts, sep)[0] == parts[0][0],
        joined(parts, sep).last() == parts.last().last(),
    decreases parts.len(),
{
    if parts.len() > 1 {
        crate::text::lemma_joined_front(parts, sep);
        let rest = parts.skip(1);
        assert(rest.last() == parts.last());
        lemma_joined_last(parts, sep);
    } else {
        assert(joined(parts, sep) == parts[0]);
    }
}

proof fn lemma_joined_last(parts: Seq<Seq<char>>, sep: Seq<char>)
    requires
        parts.len() > 1,
        parts.last().len() > 0,
    ensures
        joined(parts, sep).len() > 0,
        joined(parts, sep).last() == parts.last().last(),
{
    let s = joined(parts.drop_last(), sep) + sep + parts.last();
    assert(joined(parts, sep) =~= s);
    assert(s.last() == parts.last().last());
}

} // verus!
