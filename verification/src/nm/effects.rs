//! What commands of `nmcli` ask for, and what the operations of the client come
//! to by that.
//!
//! A command `connection modify` names a connection, and then properties, each
//! with the value that it gets.

use vstd::prelude::*;
use vstd::string::*;

use crate::config::{AppConfig, SplitTunnelConfig, SplitTunnelMode};
use crate::error::{AppError, AppResult};
use crate::ip::IpAddr;
use crate::nm::activation::{activation_args, autoconnect_batches, kill_switch_batches, split_tunnel_batches};
use crate::nm::autoconnect::autoconnect_args;
use crate::nm::client::{activate_run, all_run, autoconnect_run, carries, families_in, interface_in, kill_switch_run, kill_switch_set, list_run, outcome_of, pinned, prepared, property_args, raised, reply_at, routes_run, show_args, split_tunnel_run, swept, verb_args};
use crate::nm::endpoints::carries_ipv6;
use crate::nm::kill_switch::kill_switch_args;
use crate::nm::machine::Step;
use crate::nm::profiles::{profile_views, ProfileView, WireguardProfile};
use crate::nm::split_tunnel::{are_routes_for, is_normal_route, law_routes_are_normal, split_tunnel_args};
use crate::nm::tunnel_routing::routing_args;
use crate::text::{is_blank, is_space, joined, law_trimming};

verus! {

// ---------------------------------------------------------------------------
// Properties
// ---------------------------------------------------------------------------

/// The value that a property gets in a list of properties, each followed by its
/// value; of several, the last.
pub open spec fn value_in(pairs: Seq<Seq<char>>, property: Seq<char>) -> Option<Seq<char>>
    decreases pairs.len(),
{
    if pairs.len() < 2 {
        None
    } else {
        match value_in(pairs.skip(2), property) {
            Some(value) => Some(value),
            None => if pairs[0] == property {
                Some(pairs[1])
            } else {
                None
            },
        }
    }
}

/// The value that a command gives a property of a connection.
pub open spec fn command_gives(
    args: Seq<Seq<char>>,
    uuid: Seq<char>,
    property: Seq<char>,
) -> Option<Seq<char>> {
    if args.len() >= 3 && args[0] == "connection"@ && args[1] == "modify"@ && args[2] == uuid {
        value_in(args.skip(3), property)
    } else {
        None
    }
}

/// The value that a step gives a property of a connection.
pub open spec fn step_gives(step: Step, uuid: Seq<char>, property: Seq<char>) -> Option<Seq<char>> {
    match step {
        Step::Nmcli { args, reply: _ } => command_gives(args, uuid, property),
        _ => None,
    }
}

/// The value that steps give a property of a connection; of several, the last.
pub open spec fn asked_for(t: Seq<Step>, uuid: Seq<char>, property: Seq<char>) -> Option<Seq<char>>
    decreases t.len(),
{
    if t.len() == 0 {
        None
    } else {
        match step_gives(t.last(), uuid, property) {
            Some(value) => Some(value),
            None => asked_for(t.drop_last(), uuid, property),
        }
    }
}

/// Whether a step changes no connection.
pub open spec fn changes_nothing(step: Step) -> bool {
    forall|uuid: Seq<char>, property: Seq<char>| #[trigger]
        step_gives(step, uuid, property) is None
}

/// Whether a step changes no connection but one.
pub open spec fn changes_only(step: Step, uuid: Seq<char>) -> bool {
    forall|other: Seq<char>, property: Seq<char>| #[trigger]
        step_gives(step, other, property) is Some ==> other == uuid
}

/// The word for a flag.
pub open spec fn flag(on: bool) -> Seq<char> {
    if on {
        "yes"@
    } else {
        "no"@
    }
}

/// The names of the properties differ.
pub proof fn lemma_names()
    ensures
        "ipv4.never-default"@ != "ipv6.never-default"@,
        "ipv4.routes"@ != "ipv6.routes"@,
        "ipv4.dns-priority"@ != "ipv6.dns-priority"@,
        "wireguard.ip4-auto-default-route"@ != "wireguard.ip6-auto-default-route"@,
        "ipv4.never-default"@.len() == 18,
        "ipv6.never-default"@.len() == 18,
        "ipv4.routes"@.len() == 11,
        "ipv6.routes"@.len() == 11,
        "ipv4.dns-priority"@.len() == 17,
        "ipv6.dns-priority"@.len() == 17,
        "wireguard.ip4-auto-default-route"@.len() == 32,
        "wireguard.ip6-auto-default-route"@.len() == 32,
        "connection.autoconnect"@.len() == 22,
{
    reveal_strlit("ipv4.never-default");
    reveal_strlit("ipv6.never-default");
    reveal_strlit("ipv4.routes");
    reveal_strlit("ipv6.routes");
    reveal_strlit("ipv4.dns-priority");
    reveal_strlit("ipv6.dns-priority");
    reveal_strlit("wireguard.ip4-auto-default-route");
    reveal_strlit("wireguard.ip6-auto-default-route");
    reveal_strlit("connection.autoconnect");
    assert("ipv4.never-default"@[3] != "ipv6.never-default"@[3]);
    assert("ipv4.routes"@[3] != "ipv6.routes"@[3]);
    assert("ipv4.dns-priority"@[3] != "ipv6.dns-priority"@[3]);
    assert("wireguard.ip4-auto-default-route"@[12] != "wireguard.ip6-auto-default-route"@[12]);
}

/// Four properties with their values.
proof fn lemma_four(
    pairs: Seq<Seq<char>>,
    property: Seq<char>,
)
    requires
        pairs.len() == 8,
    ensures
        value_in(pairs, property) == (if pairs[6] == property {
            Some(pairs[7])
        } else if pairs[4] == property {
            Some(pairs[5])
        } else if pairs[2] == property {
            Some(pairs[3])
        } else if pairs[0] == property {
            Some(pairs[1])
        } else {
            None
        }),
{
    reveal_with_fuel(value_in, 5);
}

/// What the command that configures split tunneling on a connection gives its
/// properties: the IPv4 routes to the one list, the IPv6 routes to the other, and
/// neither to anything else.
pub proof fn law_split_command(
    uuid: Seq<char>,
    mode: SplitTunnelMode,
    v4: Seq<Seq<char>>,
    v6: Seq<Seq<char>>,
    property: Seq<char>,
    other: Seq<char>,
)
    ensures
        ({
            let args = split_tunnel_args(uuid, mode, v4, v6);
            let on = mode != SplitTunnelMode::Disabled;
            &&& command_gives(args, uuid, property) == (if property == "ipv4.routes"@ {
                Some(if on { joined(v4, ", "@) } else { ""@ })
            } else if property == "ipv6.routes"@ {
                Some(if on { joined(v6, ", "@) } else { ""@ })
            } else if property == "ipv4.never-default"@ {
                Some(flag(on && v4.len() > 0))
            } else if property == "ipv6.never-default"@ {
                Some(flag(on && v6.len() > 0))
            } else {
                None
            })
            &&& other != uuid ==> command_gives(args, other, property) is None
        }),
{
    lemma_names();
    reveal_strlit("");
    let args = split_tunnel_args(uuid, mode, v4, v6);
    lemma_four(args.skip(3), property);
    assert(""@ =~= Seq::<char>::empty());
}

/// What the command that sets the kill switch on a connection gives its
/// properties: the tunnel's default route stays on, and the resolvers of the
/// tunnel are exclusive where the switch is on. IPv6 has either only where the
/// profile carries it.
pub proof fn law_kill_switch_command(
    uuid: Seq<char>,
    enable: bool,
    has_ipv6: bool,
    property: Seq<char>,
    other: Seq<char>,
)
    ensures
        ({
            let args = kill_switch_args(uuid, enable, has_ipv6);
            &&& command_gives(args, uuid, property) == (if property
                == "wireguard.ip4-auto-default-route"@ {
                Some("yes"@)
            } else if property == "wireguard.ip6-auto-default-route"@ {
                Some(flag(has_ipv6))
            } else if property == "ipv4.dns-priority"@ {
                Some(if enable { "-1500"@ } else { "0"@ })
            } else if property == "ipv6.dns-priority"@ {
                Some(if enable && has_ipv6 { "-1500"@ } else { "0"@ })
            } else {
                None
            })
            &&& other != uuid ==> command_gives(args, other, property) is None
        }),
{
    lemma_names();
    let args = kill_switch_args(uuid, enable, has_ipv6);
    lemma_four(args.skip(3), property);
}

/// What the command that pins the default route of a connection gives its
/// properties.
pub proof fn law_routing_command(
    uuid: Seq<char>,
    has_ipv6: bool,
    property: Seq<char>,
    other: Seq<char>,
)
    ensures
        ({
            let args = routing_args(uuid, has_ipv6);
            &&& command_gives(args, uuid, property) == (if property
                == "wireguard.ip4-auto-default-route"@ {
                Some("yes"@)
            } else if property == "wireguard.ip6-auto-default-route"@ {
                Some(flag(has_ipv6))
            } else {
                None
            })
            &&& other != uuid ==> command_gives(args, other, property) is None
        }),
{
    lemma_names();
    reveal_with_fuel(value_in, 3);
    let args = routing_args(uuid, has_ipv6);
    assert(args.skip(3).skip(2)[0] == args[5]);
}

/// What the command that sets whether a connection comes up on its own gives its
/// properties.
pub proof fn law_autoconnect_command(
    uuid: Seq<char>,
    enable: bool,
    property: Seq<char>,
    other: Seq<char>,
)
    ensures
        ({
            let args = autoconnect_args(uuid, enable);
            &&& command_gives(args, uuid, property) == (if property == "connection.autoconnect"@ {
                Some(flag(enable))
            } else {
                None
            })
            &&& other != uuid ==> command_gives(args, other, property) is None
        }),
{
    lemma_names();
    reveal_with_fuel(value_in, 2);
}

// ---------------------------------------------------------------------------
// Every profile
// ---------------------------------------------------------------------------

/// Whether a step gives a connection the routes that it was handed, each family
/// its own, and bars each family from the default route where it has routes.
pub open spec fn splits(
    step: Step,
    uuid: Seq<char>,
    mode: SplitTunnelMode,
    v4: Seq<Seq<char>>,
    v6: Seq<Seq<char>>,
) -> bool {
    let on = mode != SplitTunnelMode::Disabled;
    &&& step_gives(step, uuid, "ipv4.routes"@) == Some(
        if on {
            joined(v4, ", "@)
        } else {
            ""@
        },
    )
    &&& step_gives(step, uuid, "ipv6.routes"@) == Some(
        if on {
            joined(v6, ", "@)
        } else {
            ""@
        },
    )
    &&& step_gives(step, uuid, "ipv4.never-default"@) == Some(flag(on && v4.len() > 0))
    &&& step_gives(step, uuid, "ipv6.never-default"@) == Some(flag(on && v6.len() > 0))
    &&& changes_only(step, uuid)
}

/// Whether a step sets the kill switch on a connection: the default route of the
/// tunnel is on whatever the switch is, its resolvers are exclusive where the
/// switch is on, and IPv6 has either only where the profile carries it.
pub open spec fn guards(step: Step, uuid: Seq<char>, enable: bool, has_ipv6: bool) -> bool {
    &&& step_gives(step, uuid, "wireguard.ip4-auto-default-route"@) == Some("yes"@)
    &&& step_gives(step, uuid, "wireguard.ip6-auto-default-route"@) == Some(flag(has_ipv6))
    &&& step_gives(step, uuid, "ipv4.dns-priority"@) == Some(
        if enable {
            "-1500"@
        } else {
            "0"@
        },
    )
    &&& step_gives(step, uuid, "ipv6.dns-priority"@) == Some(
        if enable && has_ipv6 {
            "-1500"@
        } else {
            "0"@
        },
    )
    &&& changes_only(step, uuid)
}

/// Whether a value lists routes of one family.
pub open spec fn lists_routes(value: Seq<char>, want_v6: bool) -> bool {
    exists|routes: Seq<Seq<char>>|
        value == #[trigger] joined(routes, ", "@) && forall|i: int|
            0 <= i < routes.len() ==> is_normal_route(#[trigger] routes[i], want_v6)
}

pub proof fn lemma_splits(
    step: Step,
    uuid: Seq<char>,
    mode: SplitTunnelMode,
    v4: Seq<Seq<char>>,
    v6: Seq<Seq<char>>,
)
    requires
        step matches Step::Nmcli { args, reply: _ } && args == split_tunnel_args(uuid, mode, v4, v6),
    ensures
        splits(step, uuid, mode, v4, v6),
        step_gives(step, uuid, "wireguard.ip4-auto-default-route"@) is None,
        step_gives(step, uuid, "wireguard.ip6-auto-default-route"@) is None,
        step_gives(step, uuid, "ipv4.dns-priority"@) is None,
        step_gives(step, uuid, "ipv6.dns-priority"@) is None,
{
    lemma_names();
    law_split_command(uuid, mode, v4, v6, "ipv4.routes"@, uuid);
    law_split_command(uuid, mode, v4, v6, "ipv6.routes"@, uuid);
    law_split_command(uuid, mode, v4, v6, "ipv4.never-default"@, uuid);
    law_split_command(uuid, mode, v4, v6, "ipv6.never-default"@, uuid);
    law_split_command(uuid, mode, v4, v6, "wireguard.ip4-auto-default-route"@, uuid);
    law_split_command(uuid, mode, v4, v6, "wireguard.ip6-auto-default-route"@, uuid);
    law_split_command(uuid, mode, v4, v6, "ipv4.dns-priority"@, uuid);
    law_split_command(uuid, mode, v4, v6, "ipv6.dns-priority"@, uuid);
    assert forall|other: Seq<char>, property: Seq<char>| #[trigger]
        step_gives(step, other, property) is Some implies other == uuid by {
        law_split_command(uuid, mode, v4, v6, property, other);
    }
}

pub proof fn lemma_guards(step: Step, uuid: Seq<char>, enable: bool, has_ipv6: bool)
    requires
        step matches Step::Nmcli { args, reply: _ } && args == kill_switch_args(
            uuid,
            enable,
            has_ipv6,
        ),
    ensures
        guards(step, uuid, enable, has_ipv6),
        step_gives(step, uuid, "ipv4.routes"@) is None,
        step_gives(step, uuid, "ipv6.routes"@) is None,
        step_gives(step, uuid, "ipv4.never-default"@) is None,
        step_gives(step, uuid, "ipv6.never-default"@) is None,
{
    lemma_names();
    law_kill_switch_command(uuid, enable, has_ipv6, "ipv4.routes"@, uuid);
    law_kill_switch_command(uuid, enable, has_ipv6, "ipv6.routes"@, uuid);
    law_kill_switch_command(uuid, enable, has_ipv6, "ipv4.never-default"@, uuid);
    law_kill_switch_command(uuid, enable, has_ipv6, "ipv6.never-default"@, uuid);
    law_kill_switch_command(uuid, enable, has_ipv6, "wireguard.ip4-auto-default-route"@, uuid);
    law_kill_switch_command(uuid, enable, has_ipv6, "wireguard.ip6-auto-default-route"@, uuid);
    law_kill_switch_command(uuid, enable, has_ipv6, "ipv4.dns-priority"@, uuid);
    law_kill_switch_command(uuid, enable, has_ipv6, "ipv6.dns-priority"@, uuid);
    assert forall|other: Seq<char>, property: Seq<char>| #[trigger]
        step_gives(step, other, property) is Some implies other == uuid by {
        law_kill_switch_command(uuid, enable, has_ipv6, property, other);
    }
}

/// Whether steps configure split tunneling on profiles, each by one step.
pub open spec fn split_each(
    t: Seq<Step>,
    profiles: Seq<ProfileView>,
    mode: SplitTunnelMode,
    v4: Seq<Seq<char>>,
    v6: Seq<Seq<char>>,
) -> bool {
    t.len() == profiles.len() && forall|i: int|
        0 <= i < t.len() ==> splits(#[trigger] t[i], profiles[i].uuid, mode, v4, v6)
}

/// Configuring split tunneling on all profiles takes one step for each profile
/// that the listing gives, and that step gives the profile the IPv4 routes as its
/// IPv4 routes and the IPv6 routes as its IPv6 routes; nothing is changed where
/// the listing fails.
pub proof fn law_split_tunneling_reaches_every_profile(
    t: Seq<Step>,
    mode: SplitTunnelMode,
    v4: Seq<Seq<char>>,
    v6: Seq<Seq<char>>,
    r: AppResult<()>,
)
    requires
        split_tunnel_run(t, mode, v4, v6, r),
    ensures
        exists|n: int, list: AppResult<Vec<WireguardProfile>>|
            0 <= n <= t.len() && #[trigger] list_run(t.take(n), list) && match list {
                Err(e) => t.len() == n && r == Err::<(), AppError>(e),
                Ok(profiles) => split_each(t.skip(n), profile_views(profiles@), mode, v4, v6),
            },
{
    let (n, list) = choose|n: int, list: AppResult<Vec<WireguardProfile>>|
        0 <= n <= t.len() && #[trigger] list_run(t.take(n), list) && match list {
            Err(e) => t.len() == n && r == Err::<(), AppError>(e),
            Ok(profiles) => swept(
                t.skip(n),
                profile_views(profiles@),
                split_tunnel_batches(profile_views(profiles@), mode, v4, v6),
                r,
            ),
        };
    if let Ok(profiles) = list {
        let views = profile_views(profiles@);
        let u = t.skip(n);
        let batches = split_tunnel_batches(views, mode, v4, v6);
        assert forall|i: int| 0 <= i < u.len() implies splits(
            #[trigger] u[i],
            views[i].uuid,
            mode,
            v4,
            v6,
        ) by {
            assert(reply_at(u, i, batches[i]) is Some);
            lemma_splits(u[i], views[i].uuid, mode, v4, v6);
        }
        assert(split_each(u, views, mode, v4, v6));
    }
    assert(list_run(t.take(n), list));
}

/// Where the routes are those that settings ask for, what a profile gets as its
/// IPv4 routes are IPv4 blocks, and what it gets as its IPv6 routes are IPv6
/// blocks.
pub proof fn law_routes_keep_their_family(
    step: Step,
    uuid: Seq<char>,
    mode: SplitTunnelMode,
    cidrs: Seq<Seq<char>>,
    addresses: Seq<IpAddr>,
    v4: Seq<Seq<char>>,
    v6: Seq<Seq<char>>,
)
    requires
        splits(step, uuid, mode, v4, v6),
        are_routes_for((v4, v6), mode, cidrs, addresses),
    ensures
        step_gives(step, uuid, "ipv4.routes"@) matches Some(value) && lists_routes(value, false),
        step_gives(step, uuid, "ipv6.routes"@) matches Some(value) && lists_routes(value, true),
{
    assert forall|i: int| 0 <= i < v4.len() implies is_normal_route(#[trigger] v4[i], false) by {
        law_routes_are_normal((v4, v6), mode, cidrs, addresses, i);
    }
    assert forall|i: int| 0 <= i < v6.len() implies is_normal_route(#[trigger] v6[i], true) by {
        law_routes_are_normal((v4, v6), mode, cidrs, addresses, i);
    }
    reveal_strlit("");
    assert(joined(Seq::<Seq<char>>::empty(), ", "@) =~= ""@);
    assert(lists_routes(joined(v4, ", "@), false));
    assert(lists_routes(joined(v6, ", "@), true));
    assert(lists_routes(joined(Seq::<Seq<char>>::empty(), ", "@), false));
    assert(lists_routes(joined(Seq::<Seq<char>>::empty(), ", "@), true));
}

/// Whether a step asks for the IPv6 method of a connection.
pub open spec fn asks_method(step: Step, uuid: Seq<char>) -> bool {
    step matches Step::Nmcli { args, reply: _ } && args == seq![
        "-g"@,
        "ipv6.method"@,
        "connection"@,
        "show"@,
        uuid,
    ]
}

/// Whether the reply to a step says that a profile carries IPv6.
pub open spec fn says_ipv6(step: Step) -> bool {
    step matches Step::Nmcli { args: _, reply } && (reply matches Ok(method) && carries_ipv6(
        method@,
    ))
}

/// Whether a step is a command that failed.
pub open spec fn failed(step: Step) -> bool {
    step matches Step::Nmcli { args: _, reply } && reply is Err
}

/// Whether steps set the kill switch on profiles: the method of each is asked for,
/// then each is set in turn as its method says, up to the first that fails.
pub open spec fn guarded_each(
    t: Seq<Step>,
    profiles: Seq<ProfileView>,
    enable: bool,
    r: AppResult<()>,
) -> bool {
    let k = profiles.len() as int;
    &&& k <= t.len() <= 2 * k
    &&& forall|i: int| 0 <= i < k ==> asks_method(#[trigger] t[i], profiles[i].uuid)
    &&& forall|i: int|
        k <= i < t.len() ==> guards(
            #[trigger] t[i],
            profiles[i - k].uuid,
            enable,
            says_ipv6(t[i - k]),
        )
    &&& forall|i: int| k <= i < t.len() - 1 ==> !failed(#[trigger] t[i])
    &&& r is Ok <==> t.len() == 2 * k && (k > 0 ==> !failed(t.last()))
}

/// Setting the kill switch on all profiles sets it on each that the listing gives,
/// as the IPv6 method of that profile says; a success means that each took it.
pub proof fn law_kill_switch_reaches_every_profile(t: Seq<Step>, enable: bool, r: AppResult<()>)
    requires
        kill_switch_run(t, enable, r),
    ensures
        exists|n: int, list: AppResult<Vec<WireguardProfile>>|
            0 <= n <= t.len() && #[trigger] list_run(t.take(n), list) && match list {
                Err(e) => t.len() == n && r == Err::<(), AppError>(e),
                Ok(profiles) => guarded_each(t.skip(n), profile_views(profiles@), enable, r),
            },
{
    let (n, list) = choose|n: int, list: AppResult<Vec<WireguardProfile>>|
        0 <= n <= t.len() && #[trigger] list_run(t.take(n), list) && match list {
            Err(e) => t.len() == n && r == Err::<(), AppError>(e),
            Ok(profiles) => kill_switch_set(t.skip(n), profile_views(profiles@), enable, r),
        };
    if let Ok(profiles) = list {
        let views = profile_views(profiles@);
        let u = t.skip(n);
        let k = views.len() as int;
        let families = families_in(u, views.len());
        let batches = kill_switch_batches(views, enable, families);
        let v = u.skip(k);
        assert forall|i: int| 0 <= i < k implies asks_method(#[trigger] u[i], views[i].uuid) by {
            assert(reply_at(u, i, property_args("ipv6.method"@, views[i].uuid)) is Some);
        }
        assert forall|i: int| k <= i < u.len() implies guards(
            #[trigger] u[i],
            views[i - k].uuid,
            enable,
            says_ipv6(u[i - k]),
        ) by {
            assert(v[i - k] == u[i]);
            assert(reply_at(v, i - k, batches[i - k]) is Some);
            assert(families[i - k] == says_ipv6(u[i - k]));
            lemma_guards(u[i], views[i - k].uuid, enable, families[i - k]);
        }
        assert forall|i: int| k <= i < u.len() - 1 implies !failed(#[trigger] u[i]) by {
            assert(v[i - k] == u[i]);
            assert(outcome_of(v[i - k]) is Ok);
        }
        if v.len() > 0 {
            assert(v.last() == u.last());
        }
        assert(guarded_each(u, views, enable, r));
    }
    assert(list_run(t.take(n), list));
}

/// Whether steps set on profiles if they come up on their own, each by one step.
pub open spec fn autoconnected_each(
    t: Seq<Step>,
    profiles: Seq<ProfileView>,
    enable: bool,
) -> bool {
    t.len() == profiles.len() && forall|i: int|
        0 <= i < t.len() ==> step_gives(
            #[trigger] t[i],
            profiles[i].uuid,
            "connection.autoconnect"@,
        ) == Some(flag(enable)) && changes_only(t[i], profiles[i].uuid)
}

/// Setting whether profiles come up on their own sets it on each profile that the
/// listing gives.
pub proof fn law_autoconnect_reaches_every_profile(t: Seq<Step>, enable: bool, r: AppResult<()>)
    requires
        autoconnect_run(t, enable, r),
    ensures
        exists|n: int, list: AppResult<Vec<WireguardProfile>>|
            0 <= n <= t.len() && #[trigger] list_run(t.take(n), list) && match list {
                Err(e) => t.len() == n && r == Err::<(), AppError>(e),
                Ok(profiles) => autoconnected_each(t.skip(n), profile_views(profiles@), enable),
            },
{
    let (n, list) = choose|n: int, list: AppResult<Vec<WireguardProfile>>|
        0 <= n <= t.len() && #[trigger] list_run(t.take(n), list) && match list {
            Err(e) => t.len() == n && r == Err::<(), AppError>(e),
            Ok(profiles) => swept(
                t.skip(n),
                profile_views(profiles@),
                autoconnect_batches(profile_views(profiles@), enable),
                r,
            ),
        };
    if let Ok(profiles) = list {
        let views = profile_views(profiles@);
        let u = t.skip(n);
        let batches = autoconnect_batches(views, enable);
        assert forall|i: int| 0 <= i < u.len() implies step_gives(
            #[trigger] u[i],
            views[i].uuid,
            "connection.autoconnect"@,
        ) == Some(flag(enable)) && changes_only(u[i], views[i].uuid) by {
            assert(reply_at(u, i, batches[i]) is Some);
            law_autoconnect_command(views[i].uuid, enable, "connection.autoconnect"@, views[i].uuid);
            assert forall|other: Seq<char>, property: Seq<char>| #[trigger]
                step_gives(u[i], other, property) is Some implies other == views[i].uuid by {
                law_autoconnect_command(views[i].uuid, enable, property, other);
            }
        }
        assert(autoconnected_each(u, views, enable));
    }
    assert(list_run(t.take(n), list));
}

// ---------------------------------------------------------------------------
// IPv6
// ---------------------------------------------------------------------------

/// A profile carries IPv6 unless its method, whatever white space is around it, is
/// `disabled`, `ignore`, unset or missing; with `auto` and `manual` it does.
pub proof fn law_ipv6_methods(before: Seq<char>, method: Seq<char>, after: Seq<char>)
    requires
        is_blank(before),
        is_blank(after),
        method.len() > 0 ==> !is_space(method[0]) && !is_space(method.last()),
    ensures
        method == "disabled"@ || method == "ignore"@ || method == "--"@ || method == ""@
            ==> !carries_ipv6(before + method + after),
        method == "auto"@ || method == "manual"@ ==> carries_ipv6(before + method + after),
        !carries_ipv6(before + method + after) ==> method == "disabled"@ || method == "ignore"@
            || method == "--"@ || method == ""@,
{
    law_trimming(before, method, after);
    reveal_strlit("disabled");
    reveal_strlit("ignore");
    reveal_strlit("--");
    reveal_strlit("");
    reveal_strlit("auto");
    reveal_strlit("manual");
    assert("disabled"@.len() == 8 && "--"@.len() == 2 && "auto"@.len() == 4);
    assert("ignore"@.len() == 6 && "manual"@.len() == 6 && "ignore"@[0] != "manual"@[0]);
    if method.len() == 0 {
        assert(method =~= ""@);
    }
}

/// A profile whose IPv6 method is `disabled`, `ignore`, unset or missing gets
/// neither the IPv6 default route of the tunnel nor its IPv6 resolvers, whether
/// the kill switch is on or off; one with `auto` or `manual` gets the default
/// route, and the resolvers where the switch is on.
pub proof fn law_ipv6_goes_by_the_method(
    asked: Step,
    set: Step,
    uuid: Seq<char>,
    enable: bool,
    before: Seq<char>,
    method: Seq<char>,
    after: Seq<char>,
)
    requires
        is_blank(before),
        is_blank(after),
        asked matches Step::Nmcli { args: _, reply } && (reply matches Ok(text) && text@ == before
            + method + after),
        guards(set, uuid, enable, says_ipv6(asked)),
    ensures
        method == "disabled"@ || method == "ignore"@ || method == "--"@ || method == ""@
            ==> step_gives(set, uuid, "wireguard.ip6-auto-default-route"@) == Some("no"@)
            && step_gives(set, uuid, "ipv6.dns-priority"@) == Some("0"@),
        method == "auto"@ || method == "manual"@ ==> step_gives(
            set,
            uuid,
            "wireguard.ip6-auto-default-route"@,
        ) == Some("yes"@) && step_gives(set, uuid, "ipv6.dns-priority"@) == Some(
            if enable {
                "-1500"@
            } else {
                "0"@
            },
        ),
{
    reveal_strlit("disabled");
    reveal_strlit("ignore");
    reveal_strlit("--");
    reveal_strlit("");
    reveal_strlit("auto");
    reveal_strlit("manual");
    if method == "disabled"@ || method == "ignore"@ || method == "--"@ || method == ""@ || method
        == "auto"@ || method == "manual"@ {
        law_ipv6_methods(before, method, after);
    }
}

// ---------------------------------------------------------------------------
// Bringing a profile up
// ---------------------------------------------------------------------------

/// Whether a step brings a connection up.
pub open spec fn brings_up(step: Step, uuid: Seq<char>) -> bool {
    step matches Step::Nmcli { args, reply: _ } && args == seq!["connection"@, "up"@, uuid]
}

/// Whether a step takes a connection down.
pub open spec fn takes_down(step: Step, uuid: Seq<char>) -> bool {
    step matches Step::Nmcli { args, reply: _ } && args == seq!["connection"@, "down"@, uuid]
}

/// Whether steps give a connection the routes that the settings ask for, where the
/// domains resolved to `addresses`.
pub open spec fn routed_for(
    t: Seq<Step>,
    uuid: Seq<char>,
    split: SplitTunnelConfig,
    addresses: Seq<IpAddr>,
) -> bool {
    exists|v4: Seq<Seq<char>>, v6: Seq<Seq<char>>| #[trigger]
        are_routes_for((v4, v6), split.mode, split.cidrs.deep_view(), addresses) && asked_for(
            t,
            uuid,
            "ipv4.routes"@,
        ) == Some(joined(v4, ", "@)) && asked_for(t, uuid, "ipv6.routes"@) == Some(
            joined(v6, ", "@),
        ) && asked_for(t, uuid, "ipv4.never-default"@) == Some(flag(v4.len() > 0)) && asked_for(
            t,
            uuid,
            "ipv6.never-default"@,
        ) == Some(flag(v6.len() > 0))
}

/// Whether steps leave the routes of a connection alone.
pub open spec fn unrouted(t: Seq<Step>, uuid: Seq<char>) -> bool {
    &&& asked_for(t, uuid, "ipv4.routes"@) is None
    &&& asked_for(t, uuid, "ipv6.routes"@) is None
    &&& asked_for(t, uuid, "ipv4.never-default"@) is None
    &&& asked_for(t, uuid, "ipv6.never-default"@) is None
}

/// Whether steps bring a connection in line with settings: name resolution goes by
/// the kill switch, and the routes by how traffic is split.
pub open spec fn in_line(
    t: Seq<Step>,
    uuid: Seq<char>,
    has_ipv6: bool,
    settings: Option<AppConfig>,
) -> bool {
    match settings {
        None => unrouted(t, uuid) && asked_for(t, uuid, "ipv4.dns-priority"@) is None && asked_for(
            t,
            uuid,
            "ipv6.dns-priority"@,
        ) is None,
        Some(config) => {
            &&& asked_for(t, uuid, "ipv4.dns-priority"@) == Some(
                if config.kill_switch_enabled {
                    "-1500"@
                } else {
                    "0"@
                },
            )
            &&& asked_for(t, uuid, "ipv6.dns-priority"@) == Some(
                if config.kill_switch_enabled && has_ipv6 {
                    "-1500"@
                } else {
                    "0"@
                },
            )
            &&& if config.global_split_tunnel.mode == SplitTunnelMode::Disabled {
                unrouted(t, uuid)
            } else {
                t.len() > 3 && (t[3] matches Step::Resolve { domains, addresses } && domains
                    == config.global_split_tunnel.domains.deep_view() && routed_for(
                    t,
                    uuid,
                    config.global_split_tunnel,
                    addresses,
                ))
            }
        },
    }
}

/// Whether steps prepare a connection to be brought up: the default route of the
/// tunnel is on, for IPv6 where the profile carries it, and it is in line with the
/// settings that were read.
pub open spec fn ready(t: Seq<Step>, uuid: Seq<char>) -> bool {
    &&& t.len() > 2
    &&& asks_method(t[0], uuid)
    &&& asked_for(t, uuid, "wireguard.ip4-auto-default-route"@) == Some("yes"@)
    &&& asked_for(t, uuid, "wireguard.ip6-auto-default-route"@) == Some(flag(says_ipv6(t[0])))
    &&& t[2] matches Step::Load { settings } && in_line(t, uuid, says_ipv6(t[0]), settings)
}

/// The last of the steps that give a property decides over it.
proof fn lemma_asked_at(t: Seq<Step>, n: int, i: int, uuid: Seq<char>, property: Seq<char>)
    requires
        0 <= i < n <= t.len(),
        step_gives(t[i], uuid, property) is Some,
        forall|j: int| i < j < n ==> step_gives(#[trigger] t[j], uuid, property) is None,
    ensures
        asked_for(t.take(n), uuid, property) == step_gives(t[i], uuid, property),
    decreases n,
{
    assert(t.take(n).last() == t[n - 1]);
    assert(t.take(n).drop_last() =~= t.take(n - 1));
    if i < n - 1 {
        lemma_asked_at(t, n - 1, i, uuid, property);
    }
}

/// Steps that do not give a property leave it.
proof fn lemma_asked_nowhere(t: Seq<Step>, n: int, uuid: Seq<char>, property: Seq<char>)
    requires
        0 <= n <= t.len(),
        forall|j: int| 0 <= j < n ==> step_gives(#[trigger] t[j], uuid, property) is None,
    ensures
        asked_for(t.take(n), uuid, property) is None,
    decreases n,
{
    if n > 0 {
        assert(t.take(n).last() == t[n - 1]);
        assert(t.take(n).drop_last() =~= t.take(n - 1));
        lemma_asked_nowhere(t, n - 1, uuid, property);
    }
}

/// A command that is no modification changes nothing.
proof fn lemma_reads(step: Step)
    requires
        step matches Step::Nmcli { args, reply: _ } ==> args.len() < 3 || args[0] == "-g"@ || args[0]
            == "-s"@ || args[1] == "up"@ || args[1] == "down"@ || args[1] == "delete"@ || args[1]
            == "import"@ || args[0] == "-t"@,
    ensures
        changes_nothing(step),
{
    reveal_strlit("connection");
    reveal_strlit("modify");
    reveal_strlit("-g");
    reveal_strlit("-s");
    reveal_strlit("-t");
    reveal_strlit("up");
    reveal_strlit("down");
    reveal_strlit("delete");
    reveal_strlit("import");
    assert("connection"@.len() == 10 && "modify"@.len() == 6 && "-g"@.len() == 2 && "-s"@.len()
        == 2 && "-t"@.len() == 2);
    assert("up"@.len() == 2 && "down"@.len() == 4 && "delete"@.len() == 6 && "import"@.len() == 6);
    assert("delete"@[0] != "modify"@[0] && "import"@[0] != "modify"@[0]);
}

/// The step that pins the default route.
proof fn lemma_pins(step: Step, uuid: Seq<char>, has_ipv6: bool)
    requires
        step matches Step::Nmcli { args, reply: _ } && args == routing_args(uuid, has_ipv6),
    ensures
        step_gives(step, uuid, "wireguard.ip4-auto-default-route"@) == Some("yes"@),
        step_gives(step, uuid, "wireguard.ip6-auto-default-route"@) == Some(flag(has_ipv6)),
        step_gives(step, uuid, "ipv4.routes"@) is None,
        step_gives(step, uuid, "ipv6.routes"@) is None,
        step_gives(step, uuid, "ipv4.never-default"@) is None,
        step_gives(step, uuid, "ipv6.never-default"@) is None,
        step_gives(step, uuid, "ipv4.dns-priority"@) is None,
        step_gives(step, uuid, "ipv6.dns-priority"@) is None,
        changes_only(step, uuid),
{
    lemma_names();
    law_routing_command(uuid, has_ipv6, "wireguard.ip4-auto-default-route"@, uuid);
    law_routing_command(uuid, has_ipv6, "wireguard.ip6-auto-default-route"@, uuid);
    law_routing_command(uuid, has_ipv6, "ipv4.routes"@, uuid);
    law_routing_command(uuid, has_ipv6, "ipv6.routes"@, uuid);
    law_routing_command(uuid, has_ipv6, "ipv4.never-default"@, uuid);
    law_routing_command(uuid, has_ipv6, "ipv6.never-default"@, uuid);
    law_routing_command(uuid, has_ipv6, "ipv4.dns-priority"@, uuid);
    law_routing_command(uuid, has_ipv6, "ipv6.dns-priority"@, uuid);
    assert forall|other: Seq<char>, property: Seq<char>| #[trigger]
        step_gives(step, other, property) is Some implies other == uuid by {
        law_routing_command(uuid, has_ipv6, property, other);
    }
}

/// Where the step stands that brings a profile up, behind the steps that prepare
/// it.
pub open spec fn up_at(t: Seq<Step>, m: int, uuid: Seq<char>) -> int {
    match reply_at(t, m, property_args("connection.interface-name"@, uuid)) {
        Some(reply) => if interface_in(reply) is Some {
            m + 2
        } else {
            m + 1
        },
        None => m + 1,
    }
}

/// The steps of an activation behind its preparation: they change nothing, and
/// bring the profile up at one place.
proof fn lemma_raised(t: Seq<Step>, m: int, uuid: Seq<char>, r: AppResult<()>)
    requires
        0 <= m <= t.len(),
        raised(t.skip(m), uuid, r),
    ensures
        m < up_at(t, m, uuid) < t.len(),
        brings_up(t[up_at(t, m, uuid)], uuid),
        forall|j: int| m <= j < t.len() ==> changes_nothing(#[trigger] t[j]),
        forall|j: int, other: Seq<char>|
            m <= j < t.len() && #[trigger] brings_up(t[j], other) ==> j == up_at(t, m, uuid),
        forall|j: int, other: Seq<char>|
            m <= j < t.len() && #[trigger] takes_down(t[j], other) ==> other == uuid && j > up_at(
                t,
                m,
                uuid,
            ) && r is Err,
        r is Ok ==> !failed(t[up_at(t, m, uuid)]),
{
    let v = t.skip(m);
    let u = up_at(t, m, uuid);
    let first = property_args("connection.interface-name"@, uuid);
    assert(reply_at(v, 0, first) == reply_at(t, m, first)) by {
        assert(v[0] == t[m]);
    }
    let w = t.skip(u);
    assert(w =~= v.skip(u - m));
    assert(t[m] == v[0]);
    assert(w[0] == t[u]);
    lemma_reads(t[m]);
    lemma_reads(t[u]);
    reveal_strlit("up");
    reveal_strlit("down");
    reveal_strlit("connection");
    reveal_strlit("-g");
    reveal_strlit("-s");
    assert("up"@.len() == 2 && "down"@.len() == 4);
    assert("connection"@.len() == 10 && "-g"@.len() == 2 && "-s"@.len() == 2);
    assert(seq!["connection"@, "up"@, uuid] =~= verb_args("up"@, uuid));
    assert forall|j: int| m <= j < t.len() implies changes_nothing(#[trigger] t[j]) && (forall|
        other: Seq<char>,
    |
        #[trigger] brings_up(t[j], other) ==> j == u) && (forall|other: Seq<char>| #[trigger]
        takes_down(t[j], other) ==> other == uuid && j > u && r is Err) by {
        if j == m {
        } else if j < u {
            assert(t[j] == v[1]);
            lemma_reads(t[j]);
        } else if j == u {
            assert forall|other: Seq<char>| !takes_down(t[j], other) by {
                if takes_down(t[j], other) {
                    let args = seq!["connection"@, "down"@, other];
                    assert(args[1] == verb_args("up"@, uuid)[1]);
                }
            }
        } else {
            assert(t[j] == w[j - u]);
            let x = w.skip(2);
            if j == u + 1 {
                lemma_reads(t[j]);
            } else {
                assert(t[j] == x[j - u - 2]);
                if j == u + 2 {
                    lemma_reads(t[j]);
                    assert(show_args(uuid).len() == 4);
                } else {
                    let y = x.skip(1);
                    assert(t[j] == y[j - u - 3]);
                    if j == u + 3 {
                        lemma_reads(t[j]);
                    } else {
                        assert(j == u + 4);
                        let down = verb_args("down"@, uuid);
                        assert(reply_at(y, 1, down) is Some);
                        lemma_reads(t[j]);
                        assert forall|other: Seq<char>| #[trigger] brings_up(t[j], other) implies j
                            == u by {
                            let args = seq!["connection"@, "up"@, other];
                            assert(args[1] == down[1]);
                        }
                        assert forall|other: Seq<char>| #[trigger]
                            takes_down(t[j], other) implies other == uuid by {
                            let args = seq!["connection"@, "down"@, other];
                            assert(args[2] == down[2]);
                        }
                    }
                }
            }
        }
    }
}

/// The steps that pin the default route and read the settings.
proof fn lemma_pinned(
    t: Seq<Step>,
    uuid: Seq<char>,
    has_ipv6: bool,
    settings: Option<AppConfig>,
)
    requires
        t.len() >= 3,
        pinned(t.take(3), uuid, has_ipv6, settings),
    ensures
        asks_method(t[0], uuid),
        says_ipv6(t[0]) == has_ipv6,
        t[1] matches Step::Nmcli { args, reply: _ } && args == routing_args(uuid, has_ipv6),
        t[2] matches Step::Load { settings: read } && read == settings,
        changes_nothing(t[0]),
        changes_nothing(t[2]),
{
    let p = t.take(3);
    assert(p[0] == t[0] && p[1] == t[1] && p[2] == t[2]);
    assert(property_args("ipv6.method"@, uuid) =~= seq![
        "-g"@,
        "ipv6.method"@,
        "connection"@,
        "show"@,
        uuid,
    ]);
    lemma_reads(t[0]);
    lemma_reads(t[2]);
}

/// A modification brings nothing up and takes nothing down.
proof fn lemma_modification(step: Step)
    requires
        step matches Step::Nmcli { args, reply: _ } ==> args.len() > 3,
    ensures
        forall|other: Seq<char>| !#[trigger] brings_up(step, other),
        forall|other: Seq<char>| !#[trigger] takes_down(step, other),
{
    assert forall|other: Seq<char>| !#[trigger] brings_up(step, other) by {
        assert(seq!["connection"@, "up"@, other].len() == 3);
    }
    assert forall|other: Seq<char>| !#[trigger] takes_down(step, other) by {
        assert(seq!["connection"@, "down"@, other].len() == 3);
    }
}

/// What steps give a connection that only the step at `i` gives: the properties of
/// the kill switch.
proof fn lemma_guarded_at(
    t: Seq<Step>,
    u: int,
    i: int,
    uuid: Seq<char>,
    enable: bool,
    has_ipv6: bool,
)
    requires
        0 <= i < u <= t.len(),
        guards(t[i], uuid, enable, has_ipv6),
        forall|j: int, property: Seq<char>|
            i < j < u && (property == "wireguard.ip4-auto-default-route"@ || property
                == "wireguard.ip6-auto-default-route"@ || property == "ipv4.dns-priority"@
                || property == "ipv6.dns-priority"@) ==> #[trigger] step_gives(t[j], uuid, property)
                is None,
    ensures
        asked_for(t.take(u), uuid, "wireguard.ip4-auto-default-route"@) == Some("yes"@),
        asked_for(t.take(u), uuid, "wireguard.ip6-auto-default-route"@) == Some(flag(has_ipv6)),
        asked_for(t.take(u), uuid, "ipv4.dns-priority"@) == step_gives(
            t[i],
            uuid,
            "ipv4.dns-priority"@,
        ),
        asked_for(t.take(u), uuid, "ipv6.dns-priority"@) == step_gives(
            t[i],
            uuid,
            "ipv6.dns-priority"@,
        ),
{
    lemma_asked_at(t, u, i, uuid, "wireguard.ip4-auto-default-route"@);
    lemma_asked_at(t, u, i, uuid, "wireguard.ip6-auto-default-route"@);
    lemma_asked_at(t, u, i, uuid, "ipv4.dns-priority"@);
    lemma_asked_at(t, u, i, uuid, "ipv6.dns-priority"@);
}

/// Whether a step is the command with the given arguments.
spec fn runs(step: Step, args: Seq<Seq<char>>) -> bool {
    step matches Step::Nmcli { args: given, reply: _ } && given == args
}

/// The steps of an activation that prepare a profile with settings that split no
/// traffic.
proof fn lemma_ready_plain(
    t: Seq<Step>,
    u: int,
    uuid: Seq<char>,
    has_ipv6: bool,
    on: bool,
)
    requires
        4 < u <= t.len(),
        changes_nothing(t[0]),
        runs(t[1], routing_args(uuid, has_ipv6)),
        changes_nothing(t[2]),
        runs(t[3], kill_switch_args(uuid, on, has_ipv6)),
        forall|j: int| 4 <= j < u ==> changes_nothing(#[trigger] t[j]),
    ensures
        asked_for(t.take(u), uuid, "wireguard.ip4-auto-default-route"@) == Some("yes"@),
        asked_for(t.take(u), uuid, "wireguard.ip6-auto-default-route"@) == Some(flag(has_ipv6)),
        asked_for(t.take(u), uuid, "ipv4.dns-priority"@) == Some(if on { "-1500"@ } else { "0"@ }),
        asked_for(t.take(u), uuid, "ipv6.dns-priority"@) == Some(
            if on && has_ipv6 { "-1500"@ } else { "0"@ },
        ),
        unrouted(t.take(u), uuid),
        changes_only(t[3], uuid),
{
    lemma_pins(t[1], uuid, has_ipv6);
    lemma_guards(t[3], uuid, on, has_ipv6);
    lemma_guarded_at(t, u, 3, uuid, on, has_ipv6);
    lemma_asked_nowhere(t, u, uuid, "ipv4.routes"@);
    lemma_asked_nowhere(t, u, uuid, "ipv6.routes"@);
    lemma_asked_nowhere(t, u, uuid, "ipv4.never-default"@);
    lemma_asked_nowhere(t, u, uuid, "ipv6.never-default"@);
}

/// The steps of an activation that prepare a profile with settings that split
/// traffic.
proof fn lemma_ready_split(
    t: Seq<Step>,
    u: int,
    uuid: Seq<char>,
    has_ipv6: bool,
    on: bool,
    mode: SplitTunnelMode,
    v4: Seq<Seq<char>>,
    v6: Seq<Seq<char>>,
)
    requires
        6 < u <= t.len(),
        mode != SplitTunnelMode::Disabled,
        runs(t[4], kill_switch_args(uuid, on, has_ipv6)),
        runs(t[5], split_tunnel_args(uuid, mode, v4, v6)),
        forall|j: int| 6 <= j < u ==> changes_nothing(#[trigger] t[j]),
    ensures
        asked_for(t.take(u), uuid, "wireguard.ip4-auto-default-route"@) == Some("yes"@),
        asked_for(t.take(u), uuid, "wireguard.ip6-auto-default-route"@) == Some(flag(has_ipv6)),
        asked_for(t.take(u), uuid, "ipv4.dns-priority"@) == Some(if on { "-1500"@ } else { "0"@ }),
        asked_for(t.take(u), uuid, "ipv6.dns-priority"@) == Some(
            if on && has_ipv6 { "-1500"@ } else { "0"@ },
        ),
        asked_for(t.take(u), uuid, "ipv4.routes"@) == Some(joined(v4, ", "@)),
        asked_for(t.take(u), uuid, "ipv6.routes"@) == Some(joined(v6, ", "@)),
        asked_for(t.take(u), uuid, "ipv4.never-default"@) == Some(flag(v4.len() > 0)),
        asked_for(t.take(u), uuid, "ipv6.never-default"@) == Some(flag(v6.len() > 0)),
        changes_only(t[4], uuid),
        changes_only(t[5], uuid),
{
    lemma_guards(t[4], uuid, on, has_ipv6);
    lemma_splits(t[5], uuid, mode, v4, v6);
    lemma_guarded_at(t, u, 4, uuid, on, has_ipv6);
    lemma_asked_at(t, u, 5, uuid, "ipv4.routes"@);
    lemma_asked_at(t, u, 5, uuid, "ipv6.routes"@);
    lemma_asked_at(t, u, 5, uuid, "ipv4.never-default"@);
    lemma_asked_at(t, u, 5, uuid, "ipv6.never-default"@);
}

/// The steps of an activation that prepare a profile where no settings can be
/// read.
proof fn lemma_ready_bare(t: Seq<Step>, u: int, uuid: Seq<char>, has_ipv6: bool)
    requires
        3 < u <= t.len(),
        changes_nothing(t[0]),
        runs(t[1], routing_args(uuid, has_ipv6)),
        changes_nothing(t[2]),
        forall|j: int| 3 <= j < u ==> changes_nothing(#[trigger] t[j]),
    ensures
        asked_for(t.take(u), uuid, "wireguard.ip4-auto-default-route"@) == Some("yes"@),
        asked_for(t.take(u), uuid, "wireguard.ip6-auto-default-route"@) == Some(flag(has_ipv6)),
        asked_for(t.take(u), uuid, "ipv4.dns-priority"@) is None,
        asked_for(t.take(u), uuid, "ipv6.dns-priority"@) is None,
        unrouted(t.take(u), uuid),
{
    lemma_pins(t[1], uuid, has_ipv6);
    lemma_asked_at(t, u, 1, uuid, "wireguard.ip4-auto-default-route"@);
    lemma_asked_at(t, u, 1, uuid, "wireguard.ip6-auto-default-route"@);
    lemma_asked_nowhere(t, u, uuid, "ipv4.routes"@);
    lemma_asked_nowhere(t, u, uuid, "ipv6.routes"@);
    lemma_asked_nowhere(t, u, uuid, "ipv4.never-default"@);
    lemma_asked_nowhere(t, u, uuid, "ipv6.never-default"@);
    lemma_asked_nowhere(t, u, uuid, "ipv4.dns-priority"@);
    lemma_asked_nowhere(t, u, uuid, "ipv6.dns-priority"@);
}

/// What stands between the pinning and the raising of a profile.
proof fn lemma_prepared(
    t: Seq<Step>,
    m: int,
    uuid: Seq<char>,
    has_ipv6: bool,
    config: AppConfig,
) -> (routes: (Seq<Seq<char>>, Seq<Seq<char>>))
    requires
        3 <= m <= t.len(),
        prepared(t.subrange(3, m), uuid, has_ipv6, Some(config)),
    ensures
        ({
            let split = config.global_split_tunnel;
            let guard = kill_switch_args(uuid, config.kill_switch_enabled, has_ipv6);
            if split.mode == SplitTunnelMode::Disabled {
                m == 4 && runs(t[3], guard)
            } else {
                m == 6 && (t[3] matches Step::Resolve { domains, addresses } && domains
                    == split.domains.deep_view() && are_routes_for(
                    routes,
                    split.mode,
                    split.cidrs.deep_view(),
                    addresses,
                )) && runs(t[4], guard) && runs(
                    t[5],
                    split_tunnel_args(uuid, split.mode, routes.0, routes.1),
                )
            }
        }),
{
    let p = t.subrange(3, m);
    let mode = config.global_split_tunnel.mode;
    let on = config.kill_switch_enabled;
    let (n, routes) = choose|n: int, routes: (Seq<Seq<char>>, Seq<Seq<char>>)|
        0 <= n <= p.len() && #[trigger] routes_run(p.take(n), config, routes) && all_run(
            p.skip(n),
            activation_args(uuid, has_ipv6, on, mode, routes.0, routes.1),
        );
    let batches = activation_args(uuid, has_ipv6, on, mode, routes.0, routes.1);
    let q = p.skip(n);
    assert(reply_at(q, 0, batches[0]) is Some);
    assert(q[0] == t[3 + n]);
    if mode != SplitTunnelMode::Disabled {
        assert(p.take(n)[0] == t[3]);
        assert(reply_at(q, 1, batches[1]) is Some);
        assert(q[1] == t[5]);
    }
    routes
}

/// The steps of an activation that prepare its profile change that profile only,
/// and bring nothing up or down.
proof fn lemma_before(
    t: Seq<Step>,
    m: int,
    uuid: Seq<char>,
    has_ipv6: bool,
    settings: Option<AppConfig>,
)
    requires
        3 <= m <= t.len(),
        pinned(t.take(3), uuid, has_ipv6, settings),
        prepared(t.subrange(3, m), uuid, has_ipv6, settings),
    ensures
        forall|j: int| 0 <= j < m ==> changes_only(#[trigger] t[j], uuid),
        forall|j: int, other: Seq<char>| 0 <= j < m ==> !#[trigger] brings_up(t[j], other),
        forall|j: int, other: Seq<char>| 0 <= j < m ==> !#[trigger] takes_down(t[j], other),
{
    lemma_pinned(t, uuid, has_ipv6, settings);
    lemma_pins(t[1], uuid, has_ipv6);
    lemma_modification(t[0]);
    lemma_modification(t[1]);
    lemma_modification(t[2]);
    if let Some(config) = settings {
        let split = config.global_split_tunnel;
        let on = config.kill_switch_enabled;
        let routes = lemma_prepared(t, m, uuid, has_ipv6, config);
        lemma_modification(t[3]);
        if split.mode == SplitTunnelMode::Disabled {
            lemma_guards(t[3], uuid, on, has_ipv6);
        } else {
            lemma_reads(t[3]);
            lemma_guards(t[4], uuid, on, has_ipv6);
            lemma_splits(t[5], uuid, split.mode, routes.0, routes.1);
            lemma_modification(t[4]);
            lemma_modification(t[5]);
        }
    }
}

/// The steps of an activation bring its profile in line with the settings.
proof fn lemma_in_line(
    t: Seq<Step>,
    m: int,
    u: int,
    uuid: Seq<char>,
    has_ipv6: bool,
    config: AppConfig,
)
    requires
        3 <= m < u <= t.len(),
        changes_nothing(t[0]),
        runs(t[1], routing_args(uuid, has_ipv6)),
        changes_nothing(t[2]),
        prepared(t.subrange(3, m), uuid, has_ipv6, Some(config)),
        forall|j: int| m <= j < u ==> changes_nothing(#[trigger] t[j]),
    ensures
        in_line(t.take(u), uuid, has_ipv6, Some(config)),
        asked_for(t.take(u), uuid, "wireguard.ip4-auto-default-route"@) == Some("yes"@),
        asked_for(t.take(u), uuid, "wireguard.ip6-auto-default-route"@) == Some(flag(has_ipv6)),
{
    let b = t.take(u);
    let split = config.global_split_tunnel;
    let on = config.kill_switch_enabled;
    let routes = lemma_prepared(t, m, uuid, has_ipv6, config);
    if split.mode == SplitTunnelMode::Disabled {
        lemma_ready_plain(t, u, uuid, has_ipv6, on);
    } else {
        lemma_ready_split(t, u, uuid, has_ipv6, on, split.mode, routes.0, routes.1);
        assert(b[3] == t[3]);
        let addresses = t[3]->addresses;
        let (v4, v6) = routes;
        assert(are_routes_for((v4, v6), split.mode, split.cidrs.deep_view(), addresses));
        assert(routed_for(b, uuid, split, addresses));
    }
}

/// The steps of an activation prepare its profile.
proof fn lemma_ready(
    t: Seq<Step>,
    m: int,
    u: int,
    uuid: Seq<char>,
    has_ipv6: bool,
    settings: Option<AppConfig>,
)
    requires
        3 <= m < u <= t.len(),
        pinned(t.take(3), uuid, has_ipv6, settings),
        prepared(t.subrange(3, m), uuid, has_ipv6, settings),
        forall|j: int| m <= j < u ==> changes_nothing(#[trigger] t[j]),
    ensures
        ready(t.take(u), uuid),
{
    lemma_pinned(t, uuid, has_ipv6, settings);
    let b = t.take(u);
    assert(b[0] == t[0] && b[2] == t[2]);
    match settings {
        None => {
            lemma_ready_bare(t, u, uuid, has_ipv6);
        },
        Some(config) => {
            lemma_in_line(t, m, u, uuid, has_ipv6, config);
        },
    }
}

/// Whether steps bring a profile up at `u` and never another one, prepared as the
/// settings say, and change no other connection and nothing afterwards.
pub open spec fn comes_up(t: Seq<Step>, uuid: Seq<char>, u: int) -> bool {
    &&& 0 <= u < t.len()
    &&& brings_up(t[u], uuid)
    &&& ready(t.take(u), uuid)
    &&& forall|j: int, other: Seq<char>|
        0 <= j < t.len() && #[trigger] brings_up(t[j], other) ==> j == u && other == uuid
    &&& forall|j: int| 0 <= j < t.len() ==> changes_only(#[trigger] t[j], uuid)
    &&& forall|j: int| u < j < t.len() ==> changes_nothing(#[trigger] t[j])
    &&& forall|j: int, other: Seq<char>|
        0 <= j < t.len() && #[trigger] takes_down(t[j], other) ==> j > u && other == uuid
}

/// An activation brings its profile up once, and no other one. Before that, the
/// default route of the tunnel is pinned, the kill switch is set to what the
/// settings say, and, where they split traffic, the profile gets exactly the
/// routes that they ask for; where they do not, its routes are left alone.
/// Whatever is changed is changed on this profile, and before it comes up.
pub proof fn law_profile_is_ready_when_it_comes_up(t: Seq<Step>, uuid: Seq<char>, r: AppResult<()>)
    requires
        activate_run(t, uuid, r),
    ensures
        exists|u: int| #[trigger] comes_up(t, uuid, u) && (r is Ok ==> !failed(t[u])),
{
    let (m, has_ipv6, settings) = choose|m: int, has_ipv6: bool, settings: Option<AppConfig>|
        3 <= m <= t.len() && #[trigger] pinned(t.take(3), uuid, has_ipv6, settings)
            && #[trigger] prepared(t.subrange(3, m), uuid, has_ipv6, settings) && raised(
            t.skip(m),
            uuid,
            r,
        );
    lemma_raised(t, m, uuid, r);
    let u = up_at(t, m, uuid);
    lemma_before(t, m, uuid, has_ipv6, settings);
    lemma_ready(t, m, u, uuid, has_ipv6, settings);
    assert forall|j: int, other: Seq<char>|
        0 <= j < t.len() && #[trigger] brings_up(t[j], other) implies j == u && other == uuid by {
        if j == u {
            assert(seq!["connection"@, "up"@, other][2] == seq!["connection"@, "up"@, uuid][2]);
        }
    }
    assert(comes_up(t, uuid, u));
}

} // verus!
