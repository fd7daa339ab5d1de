//! What calls of the library's functions come to.
//!
//! Each law is about any result that a call may return.

use vstd::prelude::*;
use vstd::string::*;

use crate::app::uninstall::reset_confirmed;
use crate::config::{AppConfig, SplitTunnelMode};
use crate::error::{AppError, AppResult};
use crate::firewall::helper::{action_directory, activation_request, polkit_release, refresh_without_helper};
use crate::firewall::packets::{accepts, drops, law_lockdown_lets_out, may_leave, Packet};
use crate::firewall::rules::{host_views, lockdown_enable_batches, lockdown_rules, reload, ResolvedHost};
use crate::firewall::script::{build_firewall_script, law_script_runs_the_commands, runs_lines};
use crate::ip::IpAddr;
use crate::nm::activation::{activation_batches, activation_outcome, autoconnect_arg_batches, health_check_enabled, kill_switch_arg_batches, split_tunnel_arg_batches};
use crate::nm::effects::{command_gives, flag, law_autoconnect_command, law_ipv6_methods, law_kill_switch_command, law_split_command};
use crate::nm::endpoints::{law_endpoint_reads_back, opt_endpoint, parse_endpoint, profile_has_ipv6, tunnel_views, Endpoint, EndpointView, WireguardTunnel};
use crate::nm::health::TunnelHealth;
use crate::nm::operations::{is_meant, law_the_meant_profile_is_found, tells_why};
use crate::nm::profiles::{find_unique_profile_by_identifier, found_view, profile_views, WireguardProfile};
use crate::nm::split_tunnel::{family_bits, is_named, law_tunnel_carries_what_settings_name, routed, routes_for};
use crate::portforward::{build_map_request, gateway_for_address, grants, law_gateway_shares_three_octets, parse_map_response};
use crate::text::{decimal, is_blank, is_space, joined, trimmed};
use vstd::arithmetic::power2::pow2;

verus! {

/// The gateway of a tunnel with the address `a.b.c.d`, with white space around it or
/// not and with a prefix length or without, is `a.b.c.1`.
pub proof fn law_gateway_call(
    text: &str,
    r: Option<IpAddr>,
    a: nat,
    b: nat,
    c: nat,
    d: nat,
    before: Seq<char>,
    after: Seq<char>,
    prefix: Seq<char>,
)
    requires
        call_ensures(gateway_for_address, (text,), r),
        a <= 255,
        b <= 255,
        c <= 255,
        d <= 255,
        is_blank(before),
        is_blank(after),
        prefix.len() > 0 ==> prefix[0] == '/',
        text@ == before + (decimal(a) + seq!['.'] + decimal(b) + seq!['.'] + decimal(c) + seq!['.']
            + decimal(d)) + after + prefix,
    ensures
        r matches Some(gateway) && gateway is V4 && gateway.spec_text() == decimal(a) + seq!['.']
            + decimal(b) + seq!['.'] + decimal(c) + seq!['.'] + seq!['1'],
{
    law_gateway_shares_three_octets(a, b, c, d, before, after, prefix);
}

/// A profile carries IPv6 unless its method is `disabled`, `ignore`, unset or missing,
/// whatever white space is around it.
pub proof fn law_ipv6_call(
    text: &str,
    r: bool,
    before: Seq<char>,
    method: Seq<char>,
    after: Seq<char>,
)
    requires
        call_ensures(profile_has_ipv6, (text,), r),
        text@ == before + method + after,
        is_blank(before),
        is_blank(after),
        method.len() > 0 ==> !is_space(method[0]) && !is_space(method.last()),
    ensures
        r <==> method != "disabled"@ && method != "ignore"@ && method != "--"@ && method != ""@,
{
    law_ipv6_methods(before, method, after);
}

/// The command lines that install the lockdown let a packet out exactly where it may
/// leave, drop it otherwise, and end with the reload.
pub proof fn law_lockdown_call(
    tunnels: &[WireguardTunnel],
    hosts: &[ResolvedHost],
    r: Vec<Vec<String>>,
    p: Packet,
)
    requires
        call_ensures(lockdown_enable_batches, (tunnels, hosts), r),
    ensures
        r.deep_view().len() > 0,
        r.deep_view().last() == seq!["--reload"@],
        accepts(r.deep_view().drop_last(), p) <==> may_leave(
            p,
            tunnel_views(tunnels@),
            host_views(hosts@),
        ),
        drops(r.deep_view().drop_last(), p) <==> !may_leave(
            p,
            tunnel_views(tunnels@),
            host_views(hosts@),
        ),
{
    let rules = lockdown_rules(tunnel_views(tunnels@), host_views(hosts@));
    law_lockdown_lets_out(tunnel_views(tunnels@), host_views(hosts@), p);
    assert(r.deep_view().drop_last() =~= rules);
    assert(reload() =~= seq!["--reload"@]);
}

/// Split tunneling gives each profile the IPv4 routes as such and the IPv6 routes as
/// such, and none where traffic is not split.
pub proof fn law_split_tunnel_call(
    profiles: &[WireguardProfile],
    mode: SplitTunnelMode,
    v4: &[String],
    v6: &[String],
    r: Vec<Vec<String>>,
    i: int,
)
    requires
        call_ensures(split_tunnel_arg_batches, (profiles, mode, v4, v6), r),
        0 <= i < profiles@.len(),
    ensures
        r.deep_view().len() == profiles@.len(),
        ({
            let on = mode != SplitTunnelMode::Disabled;
            let args = r.deep_view()[i];
            let uuid = profiles@[i].uuid@;
            &&& command_gives(args, uuid, "ipv4.routes"@) == Some(
                if on {
                    joined(v4.deep_view(), ", "@)
                } else {
                    ""@
                },
            )
            &&& command_gives(args, uuid, "ipv6.routes"@) == Some(
                if on {
                    joined(v6.deep_view(), ", "@)
                } else {
                    ""@
                },
            )
            &&& command_gives(args, uuid, "ipv4.never-default"@) == Some(
                flag(on && v4.deep_view().len() > 0),
            )
            &&& command_gives(args, uuid, "ipv6.never-default"@) == Some(
                flag(on && v6.deep_view().len() > 0),
            )
        }),
{
    let uuid = profiles@[i].uuid@;
    assert(profile_views(profiles@)[i].uuid == uuid);
    let (a, b) = (v4.deep_view(), v6.deep_view());
    crate::nm::effects::lemma_names();
    law_split_command(uuid, mode, a, b, "ipv4.routes"@, uuid);
    law_split_command(uuid, mode, a, b, "ipv6.routes"@, uuid);
    law_split_command(uuid, mode, a, b, "ipv4.never-default"@, uuid);
    law_split_command(uuid, mode, a, b, "ipv6.never-default"@, uuid);
}

/// The kill switch sets each profile's default route and resolvers, those of IPv6 as
/// the profile carries it.
pub proof fn law_kill_switch_call(
    profiles: &[WireguardProfile],
    enable: bool,
    has_ipv6: &[bool],
    r: Vec<Vec<String>>,
    i: int,
)
    requires
        call_ensures(kill_switch_arg_batches, (profiles, enable, has_ipv6), r),
        has_ipv6@.len() == profiles@.len(),
        0 <= i < profiles@.len(),
    ensures
        r.deep_view().len() == profiles@.len(),
        ({
            let args = r.deep_view()[i];
            let uuid = profiles@[i].uuid@;
            &&& command_gives(args, uuid, "wireguard.ip4-auto-default-route"@) == Some("yes"@)
            &&& command_gives(args, uuid, "wireguard.ip6-auto-default-route"@) == Some(
                flag(has_ipv6@[i]),
            )
            &&& command_gives(args, uuid, "ipv4.dns-priority"@) == Some(
                if enable {
                    "-1500"@
                } else {
                    "0"@
                },
            )
            &&& command_gives(args, uuid, "ipv6.dns-priority"@) == Some(
                if enable && has_ipv6@[i] {
                    "-1500"@
                } else {
                    "0"@
                },
            )
        }),
{
    let uuid = profiles@[i].uuid@;
    assert(profile_views(profiles@)[i].uuid == uuid);
    crate::nm::effects::lemma_names();
    law_kill_switch_command(uuid, enable, has_ipv6@[i], "wireguard.ip4-auto-default-route"@, uuid);
    law_kill_switch_command(uuid, enable, has_ipv6@[i], "wireguard.ip6-auto-default-route"@, uuid);
    law_kill_switch_command(uuid, enable, has_ipv6@[i], "ipv4.dns-priority"@, uuid);
    law_kill_switch_command(uuid, enable, has_ipv6@[i], "ipv6.dns-priority"@, uuid);
}

/// Whether profiles come up on their own is set on each of them.
pub proof fn law_autoconnect_call(
    profiles: &[WireguardProfile],
    enable: bool,
    r: Vec<Vec<String>>,
    i: int,
)
    requires
        call_ensures(autoconnect_arg_batches, (profiles, enable), r),
        0 <= i < profiles@.len(),
    ensures
        r.deep_view().len() == profiles@.len(),
        command_gives(r.deep_view()[i], profiles@[i].uuid@, "connection.autoconnect"@) == Some(
            flag(enable),
        ),
{
    let uuid = profiles@[i].uuid@;
    assert(profile_views(profiles@)[i].uuid == uuid);
    law_autoconnect_command(uuid, enable, "connection.autoconnect"@, uuid);
}

/// Before a profile comes up, the kill switch is set to what the settings say, and
/// the routes are where they split traffic, by a command of its own.
pub proof fn law_activation_call(
    uuid: &str,
    has_ipv6: bool,
    config: &AppConfig,
    v4: &[String],
    v6: &[String],
    r: Vec<Vec<String>>,
)
    requires
        call_ensures(activation_batches, (uuid, has_ipv6, config, v4, v6), r),
    ensures
        ({
            let batches = r.deep_view();
            let on = config.global_split_tunnel.mode != SplitTunnelMode::Disabled;
            &&& batches.len() == (if on {
                2int
            } else {
                1int
            })
            &&& command_gives(batches[0], uuid@, "ipv4.dns-priority"@) == Some(
                if config.kill_switch_enabled {
                    "-1500"@
                } else {
                    "0"@
                },
            )
            &&& on ==> command_gives(batches[1], uuid@, "ipv4.routes"@) == Some(
                joined(v4.deep_view(), ", "@),
            ) && command_gives(batches[1], uuid@, "ipv6.routes"@) == Some(
                joined(v6.deep_view(), ", "@),
            )
        }),
{
    let mode = config.global_split_tunnel.mode;
    let (a, b) = (v4.deep_view(), v6.deep_view());
    crate::nm::effects::lemma_names();
    law_kill_switch_command(
        uuid@,
        config.kill_switch_enabled,
        has_ipv6,
        "ipv4.dns-priority"@,
        uuid@,
    );
    law_split_command(uuid@, mode, a, b, "ipv4.routes"@, uuid@);
    law_split_command(uuid@, mode, a, b, "ipv6.routes"@, uuid@);
}

/// The routes of a mode that splits traffic carry exactly what the settings name, or
/// all else.
pub proof fn law_routes_call(
    mode: SplitTunnelMode,
    cidrs: &[String],
    addresses: &[IpAddr],
    r: (Vec<String>, Vec<String>),
    want_v6: bool,
    x: int,
)
    requires
        call_ensures(routes_for, (mode, cidrs, addresses), r),
        0 <= x < pow2(family_bits(want_v6) as nat),
    ensures
        mode == SplitTunnelMode::Disabled ==> r.0.deep_view().len() == 0 && r.1.deep_view().len()
            == 0,
        mode != SplitTunnelMode::Disabled ==> (routed(
            if want_v6 {
                r.1.deep_view()
            } else {
                r.0.deep_view()
            },
            want_v6,
            x,
        ) <==> is_named(cidrs.deep_view(), addresses@, want_v6, x) == (mode
            == SplitTunnelMode::Include)),
{
    let routes = (r.0.deep_view(), r.1.deep_view());
    if mode != SplitTunnelMode::Disabled {
        law_tunnel_carries_what_settings_name(
            routes,
            mode,
            cidrs.deep_view(),
            addresses@,
            want_v6,
            x,
        );
    }
}

/// The profile that is found is the one that is meant.
pub proof fn law_find_call<'a>(
    profiles: &'a [WireguardProfile],
    identifier: &str,
    r: Result<&'a WireguardProfile, AppError>,
)
    requires
        call_ensures(find_unique_profile_by_identifier, (profiles, identifier), r),
    ensures
        match r {
            Ok(p) => exists|i: int| #[trigger]
                is_meant(profile_views(profiles@), identifier@, i) && profile_views(profiles@)[i]
                    == p@,
            Err(e) => tells_why(profile_views(profiles@), identifier@, e),
        },
{
    law_the_meant_profile_is_found(found_view(r), profile_views(profiles@), identifier@);
}

/// A request has the version zero, its operation, and its ports and lease with the
/// most significant byte first.
pub proof fn law_request_call(
    opcode: u8,
    internal: u16,
    external: u16,
    lifetime: u32,
    r: [u8; 12],
)
    requires
        call_ensures(build_map_request, (opcode, internal, external, lifetime), r),
    ensures
        r@.len() == 12,
        r@[0] == 0 && r@[1] == opcode && r@[2] == 0 && r@[3] == 0,
        r@[4] * 256 + r@[5] == internal,
        r@[6] * 256 + r@[7] == external,
        ((r@[8] * 256 + r@[9]) * 256 + r@[10]) * 256 + r@[11] == lifetime,
{
    crate::portforward::law_request_reads_back(opcode, internal, external, lifetime);
}

/// A reply to the mapping of UDP is a success exactly where it grants a port, and it
/// is that port.
pub proof fn law_reply_call(bytes: &[u8], r: AppResult<u16>)
    requires
        call_ensures(parse_map_response, (bytes, 1u8), r),
    ensures
        match r {
            Ok(port) => grants(bytes@, port as int),
            Err(_) => forall|port: int| !#[trigger] grants(bytes@, port),
        },
{
}

/// A peer that is written as its host and its port is read as these.
pub proof fn law_endpoint_call(text: &str, r: Option<Endpoint>, host: Seq<char>, port: u16)
    requires
        call_ensures(parse_endpoint, (text,), r),
        host.len() > 0,
        host[0] != '[' && text@ == host + seq![':'] + decimal(port as nat) || !host.contains(']')
            && text@ == seq!['['] + host + seq![']', ':'] + decimal(port as nat),
    ensures
        opt_endpoint(r) == Some(EndpointView { host, port }),
{
    law_endpoint_reads_back(host, port);
}

/// The script of the firewall stops at the first failure and runs exactly the given
/// command lines.
pub proof fn law_script_call(batches: &[Vec<String>], r: String)
    requires
        call_ensures(build_firewall_script, (batches,), r),
    ensures
        r@.len() >= 7,
        r@.take(7) == "set -e\n"@,
        runs_lines(r@.skip(7), batches.deep_view()),
{
    law_script_runs_the_commands(batches.deep_view());
}

/// The actions of polkit are in the local directory from release 126 on, and in the
/// one of the system before; without a release that can be read there is none.
pub proof fn law_action_directory_call(version: &str, r: AppResult<&'static str>)
    requires
        call_ensures(action_directory, (version,), r),
    ensures
        match polkit_release(version@) {
            Some(release) => r matches Ok(dir) && dir@ == (if release < 126 {
                "/usr/share/polkit-1/actions"@
            } else {
                "/usr/local/share/polkit-1/actions"@
            }),
            None => r is Err,
        },
{
}

/// A reset goes ahead only where the answer is the word itself.
pub proof fn law_reset_call(answer: Option<&str>, r: AppResult<bool>)
    requires
        call_ensures(reset_confirmed, (answer,), r),
    ensures
        r == Ok::<bool, AppError>(true) <==> (answer matches Some(a) && trimmed(a@) == "reset"@),
        answer is None ==> r is Err,
{
}

/// An activation is asked for by an identifier of hexadecimal digits in groups of
/// eight, four, four, four and twelve, or not at all; nothing else is let through.
pub proof fn law_activation_request_call(requested: &str, r: AppResult<Option<String>>, i: int)
    requires
        call_ensures(activation_request, (requested,), r),
        0 <= i < 36,
    ensures
        match r {
            Ok(Some(uuid)) => uuid@ == requested@ && uuid@.len() == 36 && if i == 8 || i == 13 || i
                == 18 || i == 23 {
                uuid@[i] == '-'
            } else {
                '0' <= uuid@[i] <= '9' || 'a' <= uuid@[i] <= 'f' || 'A' <= uuid@[i] <= 'F'
            },
            Ok(None) => requested@.len() == 0,
            Err(_) => requested@.len() > 0,
        },
{
    if let Ok(Some(uuid)) = r {
        assert(uuid@[i] == requested@[i]);
    }
}

/// Without the helper a refresh succeeds only where there is nothing to do.
pub proof fn law_refresh_call(nothing_to_do: bool, r: AppResult<()>)
    requires
        call_ensures(refresh_without_helper, (nothing_to_do,), r),
    ensures
        r is Ok <==> nothing_to_do,
{
}

/// Fresh tunnels are checked unless settings that can be read turn that off.
pub proof fn law_check_call(settings: Option<&AppConfig>, r: bool)
    requires
        call_ensures(health_check_enabled, (settings,), r),
    ensures
        !r <==> (settings matches Some(c) && !c.general.verify_tunnel_on_connect),
{
}

/// An activation succeeds exactly where the peer answered.
pub proof fn law_activation_outcome_call(
    interface: &str,
    health: TunnelHealth,
    r: Result<(), AppError>,
)
    requires
        call_ensures(activation_outcome, (interface, health), r),
    ensures
        r is Ok <==> health == TunnelHealth::Handshaken,
        r is Err ==> r->Err_0 is TunnelUnhealthy,
{
}

} // verus!
