//! The client of NetworkManager: which commands each operation runs, and what
//! comes of their replies.
//!
//! Each operation is stated by the steps that it takes: what the record of the
//! client got since the operation started.

use vstd::prelude::*;
use vstd::string::*;

use crate::config::{forget_profile, forgot, remembers, AppConfig, SplitTunnelMode};
use crate::error::{AppError, AppResult};
use crate::ip::IpAddr;
use crate::nm::activation::{activation_args, activation_batches, activation_outcome, autoconnect_arg_batches, autoconnect_batches, comments_kept, dead_tunnel_text, first_new, health_check_enabled, import_args, import_batches, imported_profile, is_sweep_result, keep_comments, kill_switch_arg_batches, kill_switch_batches, profile_to_disconnect, settle_args, settle_batches, split_tunnel_arg_batches, split_tunnel_batches, sweep_result};
use crate::nm::comments::{comments_in, extract_interface_comments};
use crate::nm::diagnostics::{counted_in, initiates, or_text, overlaid, overlay_counters, overlay_wg_dump, parse_peer_settings, settings_in, settings_to_diagnostics, shown, DiagnosticsView, ProfileDiagnostics};
use crate::nm::endpoints::{carries_ipv6, endpoints_of, first_address, parse_interface_name, profile_has_ipv6, set_value, tunnel_address, tunnel_dns, tunnel_from, tunnel_views, TunnelView, WireguardTunnel};
use crate::nm::health::TunnelHealth;
use crate::nm::machine::{CliNmClient, Step};
use crate::nm::profiles::{active_of, active_profile, find_unique_profile_by_identifier, first_bad, found_by_identifier, found_view, is_sorted_list, listed, profile_views, profiles_from, ProfileState, ProfileView, WireguardProfile};
use crate::nm::split_tunnel::{are_routes_for, routes_for};
use crate::nm::tunnel_routing::{self, routing_args};
use crate::record::{grown, lemma_part, lemma_parts, lemma_since, lemma_since_none, lemma_since_one, lemma_since_push, since};
use crate::text::{after_each, lines_of, opt_text, opt_view, with_char_replaced};

verus! {

// ---------------------------------------------------------------------------
// Commands
// ---------------------------------------------------------------------------

/// The arguments that list all connections.
pub open spec fn list_args() -> Seq<Seq<char>> {
    seq!["-t"@, "-f"@, "NAME,UUID,TYPE"@, "connection"@, "show"@]
}

/// The arguments that list the active connections.
pub open spec fn active_args() -> Seq<Seq<char>> {
    seq!["-t"@, "-f"@, "NAME,UUID,TYPE"@, "connection"@, "show"@, "--active"@]
}

/// The arguments that print one property of a profile.
pub open spec fn property_args(property: Seq<char>, uuid: Seq<char>) -> Seq<Seq<char>> {
    seq!["-g"@, property, "connection"@, "show"@, uuid]
}

/// The arguments that print all that is known of a profile.
pub open spec fn show_args(uuid: Seq<char>) -> Seq<Seq<char>> {
    seq!["-s"@, "connection"@, "show"@, uuid]
}

/// The arguments that apply `verb` to a profile.
pub open spec fn verb_args(verb: Seq<char>, uuid: Seq<char>) -> Seq<Seq<char>> {
    seq!["connection"@, verb, uuid]
}

/// The arguments that import a configuration file.
pub open spec fn import_file_args(path: Seq<char>) -> Seq<Seq<char>> {
    seq!["connection"@, "import"@, "type"@, "wireguard"@, "file"@, path]
}

/// What `nmcli` replied at a step, where that step ran it with `args`.
pub open spec fn reply_at(t: Seq<Step>, i: int, args: Seq<Seq<char>>) -> Option<AppResult<String>> {
    if 0 <= i < t.len() {
        match t[i] {
            Step::Nmcli { args: given, reply } => if given == args {
                Some(reply)
            } else {
                None
            },
            _ => None,
        }
    } else {
        None
    }
}

/// What came of a command whose output does not matter.
pub open spec fn outcome_of(step: Step) -> AppResult<()> {
    match step {
        Step::Nmcli { args: _, reply: Err(e) } => Err(e),
        _ => Ok(()),
    }
}

/// What came of commands whose outputs do not matter.
pub open spec fn outcomes_of(t: Seq<Step>) -> Seq<AppResult<()>> {
    t.map_values(|s: Step| outcome_of(s))
}

/// Whether the steps run the batches, each once and in order, whatever the others
/// come to.
pub open spec fn all_run(t: Seq<Step>, batches: Seq<Seq<Seq<char>>>) -> bool {
    t.len() == batches.len() && forall|i: int|
        0 <= i < batches.len() ==> reply_at(t, i, #[trigger] batches[i]) is Some
}

/// Whether the steps run the batches in order up to the first that fails, and
/// come to `r`.
pub open spec fn run_in_order(t: Seq<Step>, batches: Seq<Seq<Seq<char>>>, r: AppResult<()>) -> bool {
    &&& t.len() <= batches.len()
    &&& forall|i: int| 0 <= i < t.len() ==> reply_at(t, i, #[trigger] batches[i]) is Some
    &&& forall|i: int| 0 <= i < t.len() - 1 ==> outcome_of(#[trigger] t[i]) is Ok
    &&& t.len() < batches.len() ==> t.len() > 0 && outcome_of(t.last()) is Err
    &&& r == (if t.len() > 0 {
        outcome_of(t.last())
    } else {
        Ok(())
    })
}

// ---------------------------------------------------------------------------
// Listing
// ---------------------------------------------------------------------------

/// Whether `r` is what two listings come to.
pub open spec fn is_listing(
    r: AppResult<Vec<WireguardProfile>>,
    connections: Seq<char>,
    active: Seq<char>,
) -> bool {
    match r {
        Ok(list) => first_bad(lines_of(active), 0) is None && first_bad(
            lines_of(connections),
            0,
        ) is None && is_sorted_list(
            profile_views(list@),
            listed(lines_of(connections), lines_of(active)),
        ),
        Err(e) => e matches AppError::NmParseFailed(m) && Some(m@) == (match first_bad(
            lines_of(active),
            0,
        ) {
            Some(line) => Some(line),
            None => first_bad(lines_of(connections), 0),
        }),
    }
}

/// Whether `r` is what listing the profiles comes to, where the second command
/// printed `active`.
pub open spec fn listed_with(
    r: AppResult<Vec<WireguardProfile>>,
    connections: Seq<char>,
    active: AppResult<String>,
) -> bool {
    match active {
        Err(e) => r == Err::<Vec<WireguardProfile>, AppError>(e),
        Ok(text) => is_listing(r, connections, text@),
    }
}

/// Whether the steps list the profiles and come to `r`: all connections are
/// listed, then the active ones, and a command that fails ends it.
pub open spec fn list_run(t: Seq<Step>, r: AppResult<Vec<WireguardProfile>>) -> bool {
    reply_at(t, 0, list_args()) matches Some(all) && match all {
        Err(e) => t.len() == 1 && r == Err::<Vec<WireguardProfile>, AppError>(e),
        Ok(connections) => t.len() == 2 && (reply_at(t, 1, active_args()) matches Some(active)
            && listed_with(r, connections@, active)),
    }
}

impl<
    N: Fn(&[String]) -> AppResult<String>,
    L: Fn() -> Option<AppConfig>,
    V: Fn(&Vec<String>) -> Vec<IpAddr>,
    X: Fn(&str) -> bool,
    P: Fn(&str) -> TunnelHealth,
    S: Fn(&AppConfig) -> AppResult<()>,
> CliNmClient<N, L, V, X, P, S> {
    /// Run `nmcli`.
    pub fn run_nmcli(&mut self, args: &[&str]) -> (r: AppResult<String>)
        ensures
            final(self).taken() == old(self).taken().push(
                Step::Nmcli { args: args.deep_view(), reply: r },
            ),
            final(self).follows(*old(self)),
    {
        let mut owned: Vec<String> = Vec::new();
        let mut i: usize = 0;
        while i < args.len()
            invariant
                i <= args.len(),
                owned.deep_view() == args.deep_view().take(i as int),
            decreases args.len() - i,
        {
            let ghost before = owned.deep_view();
            owned.push(args[i].to_owned());
            assert(owned.deep_view() =~= before.push(args.deep_view()[i as int]));
            i += 1;
        }
        let slice = owned.as_slice();
        assert(slice.deep_view() =~= args.deep_view());
        self.run_nmcli_owned(slice)
    }

    /// The WireGuard profiles, sorted by name.
    pub fn list_wireguard_profiles(&mut self) -> (r: AppResult<Vec<WireguardProfile>>)
        ensures
            final(self).follows(*old(self)),
            list_run(since(old(self).taken(), final(self).taken()), r),
    {
        let ghost start = self.taken();
        let all = ["-t", "-f", "NAME,UUID,TYPE", "connection", "show"];
        let all_slice = all.as_slice();
        assert(all_slice.deep_view() =~= list_args());
        let first = self.run_nmcli(all_slice);
        proof {
            lemma_since_one(start, Step::Nmcli { args: list_args(), reply: first });
        }
        let connections = match first {
            Ok(text) => text,
            Err(e) => {
                return Err(e);
            },
        };
        let up = ["-t", "-f", "NAME,UUID,TYPE", "connection", "show", "--active"];
        let up_slice = up.as_slice();
        assert(up_slice.deep_view() =~= active_args());
        let ghost middle = self.taken();
        let second = self.run_nmcli(up_slice);
        proof {
            lemma_since_push(start, middle, Step::Nmcli { args: active_args(), reply: second });
        }
        match second {
            Ok(active) => profiles_from(connections.as_str(), active.as_str()),
            Err(e) => Err(e),
        }
    }
}

// ---------------------------------------------------------------------------
// Properties
// ---------------------------------------------------------------------------

/// Whether a reply says that a profile carries IPv6: one of which nothing can be
/// read does not.
pub open spec fn carries(reply: AppResult<String>) -> bool {
    match reply {
        Ok(method) => carries_ipv6(method@),
        Err(_) => false,
    }
}

/// The interface that a reply names.
pub open spec fn interface_in(reply: AppResult<String>) -> Option<Seq<char>> {
    match reply {
        Ok(value) => set_value(value@),
        Err(_) => None,
    }
}

/// The first address that a reply holds.
pub open spec fn address_in(reply: AppResult<String>) -> Option<Seq<char>> {
    match reply {
        Ok(value) => first_address(value@),
        Err(_) => None,
    }
}

/// The resolvers that a reply holds.
pub open spec fn dns_in(reply: AppResult<String>) -> Option<Seq<char>> {
    match reply {
        Ok(value) => match set_value(value@) {
            Some(t) => Some(with_char_replaced(t, ',', ", "@)),
            None => None,
        },
        Err(_) => None,
    }
}

/// Whether the steps read one property of a profile, and `r` is the reply.
pub open spec fn property_read(
    t: Seq<Step>,
    property: Seq<char>,
    uuid: Seq<char>,
    r: AppResult<String>,
) -> bool {
    t == seq![Step::Nmcli { args: property_args(property, uuid), reply: r }]
}

/// Whether the steps find if a profile carries IPv6.
pub open spec fn ipv6_run(t: Seq<Step>, uuid: Seq<char>, r: bool) -> bool {
    exists|reply: AppResult<String>| #[trigger]
        property_read(t, "ipv6.method"@, uuid, reply) && r == carries(reply)
}

/// Whether the steps find the interface of a profile.
pub open spec fn interface_run(t: Seq<Step>, uuid: Seq<char>, r: Option<Seq<char>>) -> bool {
    exists|reply: AppResult<String>| #[trigger]
        property_read(t, "connection.interface-name"@, uuid, reply) && r == interface_in(reply)
}

/// Whether the steps find the address of a tunnel.
pub open spec fn address_run(t: Seq<Step>, uuid: Seq<char>, r: Option<Seq<char>>) -> bool {
    exists|reply: AppResult<String>| #[trigger]
        property_read(t, "ipv4.addresses"@, uuid, reply) && r == address_in(reply)
}

/// Whether the steps find the resolvers of a tunnel.
pub open spec fn dns_run(t: Seq<Step>, uuid: Seq<char>, r: Option<Seq<char>>) -> bool {
    exists|reply: AppResult<String>| #[trigger]
        property_read(t, "ipv4.dns"@, uuid, reply) && r == dns_in(reply)
}

/// Whether the steps find the tunnel of one profile and come to `r`: its interface
/// is read, then its peers, and a command that fails ends it.
pub open spec fn tunnel_run(t: Seq<Step>, p: ProfileView, r: Result<TunnelView, AppError>) -> bool {
    reply_at(t, 0, property_args("connection.interface-name"@, p.uuid)) matches Some(interface)
        && match interface {
        Err(e) => t.len() == 1 && r == Err::<TunnelView, AppError>(e),
        Ok(name) => t.len() == 2 && (reply_at(t, 1, property_args("wireguard.peers"@, p.uuid))
            matches Some(peers) && tunnel_with(p, name@, peers, r)),
    }
}

/// Whether `r` is what the replies say of the tunnel of a profile.
pub open spec fn tunnel_with(
    p: ProfileView,
    interface: Seq<char>,
    peers: AppResult<String>,
    r: Result<TunnelView, AppError>,
) -> bool {
    match peers {
        Err(e) => r == Err::<TunnelView, AppError>(e),
        Ok(text) => r == Ok::<TunnelView, AppError>(
            TunnelView {
                interface: set_value(interface),
                endpoints: endpoints_of(after_each(text@, "endpoint"@)),
                is_active: p.state == ProfileState::Active,
            },
        ),
    }
}

/// Whether the steps find the tunnel of a profile.
pub open spec fn tunnel_found(t: Seq<Step>, p: ProfileView) -> bool {
    exists|v: TunnelView| #[trigger] tunnel_run(t, p, Ok::<TunnelView, AppError>(v))
}

/// The two steps that find the tunnel of the profile at `i`.
pub open spec fn pair_at(t: Seq<Step>, i: int) -> Seq<Step> {
    t.subrange(2 * i, 2 * i + 2)
}

/// Whether the steps find the tunnels of `profiles` and come to `r`: of each in
/// turn, up to the first that fails.
pub open spec fn tunnels_of(
    t: Seq<Step>,
    profiles: Seq<ProfileView>,
    r: AppResult<Vec<WireguardTunnel>>,
) -> bool {
    match r {
        Ok(list) => list@.len() == profiles.len() && t.len() == 2 * profiles.len() && forall|i: int|
            0 <= i < profiles.len() ==> tunnel_run(
                pair_at(t, i),
                profiles[i],
                Ok::<TunnelView, AppError>(#[trigger] tunnel_views(list@)[i]),
            ),
        Err(e) => exists|i: int|
            0 <= i < profiles.len() && 2 * i <= t.len() && (forall|k: int|
                0 <= k < i ==> tunnel_found(pair_at(t, k), #[trigger] profiles[k])) && tunnel_run(
                t.skip(2 * i),
                #[trigger] profiles[i],
                Err::<TunnelView, AppError>(e),
            ),
    }
}

/// Whether the steps find the tunnels of all profiles and come to `r`.
pub open spec fn tunnels_run(t: Seq<Step>, r: AppResult<Vec<WireguardTunnel>>) -> bool {
    exists|n: int, list: AppResult<Vec<WireguardProfile>>|
        0 <= n <= t.len() && #[trigger] list_run(t.take(n), list) && match list {
            Err(e) => t.len() == n && r == Err::<Vec<WireguardTunnel>, AppError>(e),
            Ok(profiles) => tunnels_of(t.skip(n), profile_views(profiles@), r),
        }
}

impl<
    N: Fn(&[String]) -> AppResult<String>,
    L: Fn() -> Option<AppConfig>,
    V: Fn(&Vec<String>) -> Vec<IpAddr>,
    X: Fn(&str) -> bool,
    P: Fn(&str) -> TunnelHealth,
    S: Fn(&AppConfig) -> AppResult<()>,
> CliNmClient<N, L, V, X, P, S> {
    /// What `nmcli` prints of one property of a profile.
    fn property(&mut self, property: &str, uuid: &str) -> (r: AppResult<String>)
        ensures
            final(self).follows(*old(self)),
            property_read(since(old(self).taken(), final(self).taken()), property@, uuid@, r),
    {
        let args = ["-g", property, "connection", "show", uuid];
        let slice = args.as_slice();
        assert(slice.deep_view() =~= property_args(property@, uuid@));
        let r = self.run_nmcli(slice);
        proof {
            lemma_since_one(
                old(self).taken(),
                Step::Nmcli { args: property_args(property@, uuid@), reply: r },
            );
        }
        r
    }

    /// Whether a profile carries IPv6.
    pub fn profile_has_ipv6(&mut self, uuid: &str) -> (r: bool)
        ensures
            final(self).follows(*old(self)),
            ipv6_run(since(old(self).taken(), final(self).taken()), uuid@, r),
    {
        let reply = self.property("ipv6.method", uuid);
        let ghost given = reply;
        let r = match reply {
            Ok(value) => profile_has_ipv6(value.as_str()),
            Err(_) => false,
        };
        assert(property_read(
            since(old(self).taken(), self.taken()),
            "ipv6.method"@,
            uuid@,
            given,
        ));
        r
    }

    /// The interface that a profile is configured with, where it has one.
    pub fn tunnel_interface_name(&mut self, uuid: &str) -> (r: Option<String>)
        ensures
            final(self).follows(*old(self)),
            interface_run(since(old(self).taken(), final(self).taken()), uuid@, opt_text(r)),
    {
        let reply = self.property("connection.interface-name", uuid);
        let ghost given = reply;
        let r = match reply {
            Ok(value) => parse_interface_name(value.as_str()),
            Err(_) => None,
        };
        assert(property_read(
            since(old(self).taken(), self.taken()),
            "connection.interface-name"@,
            uuid@,
            given,
        ));
        r
    }

    /// The address of the tunnel of a profile, where it has one.
    pub fn tunnel_address(&mut self, uuid: &str) -> (r: Option<String>)
        ensures
            final(self).follows(*old(self)),
            address_run(since(old(self).taken(), final(self).taken()), uuid@, opt_text(r)),
    {
        let reply = self.property("ipv4.addresses", uuid);
        let ghost given = reply;
        let r = match reply {
            Ok(value) => tunnel_address(value.as_str()),
            Err(_) => None,
        };
        assert(property_read(
            since(old(self).taken(), self.taken()),
            "ipv4.addresses"@,
            uuid@,
            given,
        ));
        r
    }

    /// The resolvers of the tunnel of a profile, where it has any.
    pub fn tunnel_dns(&mut self, uuid: &str) -> (r: Option<String>)
        ensures
            final(self).follows(*old(self)),
            dns_run(since(old(self).taken(), final(self).taken()), uuid@, opt_text(r)),
    {
        let reply = self.property("ipv4.dns", uuid);
        let ghost given = reply;
        let r = match reply {
            Ok(value) => tunnel_dns(value.as_str()),
            Err(_) => None,
        };
        assert(property_read(
            since(old(self).taken(), self.taken()),
            "ipv4.dns"@,
            uuid@,
            given,
        ));
        r
    }

    /// What the lockdown needs of one profile.
    fn tunnel(&mut self, profile: &WireguardProfile) -> (r: AppResult<WireguardTunnel>)
        ensures
            final(self).follows(*old(self)),
            tunnel_run(
                since(old(self).taken(), final(self).taken()),
                profile@,
                match r {
                    Ok(t) => Ok::<TunnelView, AppError>(t@),
                    Err(e) => Err::<TunnelView, AppError>(e),
                },
            ),
    {
        let ghost p = profile@;
        let ghost start = self.taken();
        let name_reply = self.property("connection.interface-name", profile.uuid.as_str());
        let interface = match name_reply {
            Ok(text) => text,
            Err(e) => {
                return Err(e);
            },
        };
        let ghost middle = self.taken();
        let peers_reply = self.property("wireguard.peers", profile.uuid.as_str());
        proof {
            lemma_since(start, middle, self.taken());
        }
        match peers_reply {
            Ok(peers) => {
                let r = tunnel_from(interface.as_str(), peers.as_str(), profile.is_active());
                assert(tunnel_with(
                    p,
                    interface@,
                    Ok::<String, AppError>(peers),
                    Ok::<TunnelView, AppError>(r@),
                ));
                Ok(r)
            },
            Err(e) => Err(e),
        }
    }

    /// What the lockdown needs of every profile.
    pub fn wireguard_tunnels(&mut self) -> (r: AppResult<Vec<WireguardTunnel>>)
        ensures
            final(self).follows(*old(self)),
            tunnels_run(since(old(self).taken(), final(self).taken()), r),
    {
        let ghost start = self.taken();
        let found = self.list_wireguard_profiles();
        let ghost list = found;
        let ghost middle = self.taken();
        let ghost n = since(start, middle).len() as int;
        assert(since(start, middle).take(n) =~= since(start, middle));
        let profiles = match found {
            Ok(list) => list,
            Err(e) => {
                return Err(e);
            },
        };
        let ghost views = profile_views(profiles@);
        let mut tunnels: Vec<WireguardTunnel> = Vec::new();
        let mut i: usize = 0;
        proof {
            lemma_since_none(middle);
        }
        while i < profiles.len()
            invariant
                i <= profiles.len(),
                tunnels.len() == i,
                start == old(self).taken(),
                grown(start, middle),
                grown(middle, self.taken()),
                self.follows(*old(self)),
                n == since(start, middle).len(),
                views == profile_views(profiles@),
                list == Ok::<Vec<WireguardProfile>, AppError>(profiles),
                list_run(since(start, middle), list),
                since(middle, self.taken()).len() == 2 * i,
                forall|k: int|
                    0 <= k < i ==> tunnel_run(
                        pair_at(since(middle, self.taken()), k),
                        views[k],
                        Ok::<TunnelView, AppError>(#[trigger] tunnel_views(tunnels@)[k]),
                    ),
            decreases profiles.len() - i,
        {
            assert(views[i as int] == profiles[i as int]@);
            let ghost before = self.taken();
            let ghost t = since(middle, before);
            let one = self.tunnel(&profiles[i]);
            let ghost u = since(middle, self.taken());
            proof {
                lemma_since(middle, before, self.taken());
                lemma_since(start, before, self.taken());
                assert forall|k: int| 0 <= k < i implies pair_at(u, k) == #[trigger] pair_at(t, k) by {
                    assert(pair_at(u, k) =~= pair_at(t, k));
                }
                assert(u.skip(2 * i) =~= since(before, self.taken()));
            }
            match one {
                Ok(tunnel) => {
                    let ghost shown = tunnel_views(tunnels@);
                    let ghost v = tunnel@;
                    tunnels.push(tunnel);
                    assert(tunnel_views(tunnels@) =~= shown.push(v));
                    assert(pair_at(u, i as int) =~= since(before, self.taken()));
                    assert forall|k: int| 0 <= k < i + 1 implies tunnel_run(
                        pair_at(u, k),
                        views[k],
                        Ok::<TunnelView, AppError>(#[trigger] tunnel_views(tunnels@)[k]),
                    ) by {
                        if k < i {
                            assert(tunnel_views(tunnels@)[k] == shown[k]);
                            assert(pair_at(u, k) == pair_at(t, k));
                        }
                    }
                },
                Err(e) => {
                    proof {
                        assert forall|k: int| 0 <= k < i implies tunnel_found(
                            pair_at(u, k),
                            #[trigger] views[k],
                        ) by {
                            assert(pair_at(u, k) == pair_at(t, k));
                            assert(tunnel_run(
                                pair_at(u, k),
                                views[k],
                                Ok::<TunnelView, AppError>(tunnel_views(tunnels@)[k]),
                            ));
                        }
                        assert(tunnels_of(u, views, Err::<Vec<WireguardTunnel>, AppError>(e)));
                        lemma_since(start, middle, self.taken());
                        let all = since(start, self.taken());
                        assert(all.take(n) =~= since(start, middle));
                        assert(all.skip(n) =~= u);
                    }
                    return Err(e);
                },
            }
            i += 1;
        }
        proof {
            let u = since(middle, self.taken());
            assert(tunnels_of(u, views, Ok::<Vec<WireguardTunnel>, AppError>(tunnels)));
            lemma_since(start, middle, self.taken());
            let all = since(start, self.taken());
            assert(all.take(n) =~= since(start, middle));
            assert(all.skip(n) =~= u);
        }
        Ok(tunnels)
    }
}

// ---------------------------------------------------------------------------
// Every profile
// ---------------------------------------------------------------------------

/// Whether the steps run one batch for each profile and come to `r`: each is run
/// once and in order, whatever the others came to, and every failure is told.
pub open spec fn swept(
    t: Seq<Step>,
    profiles: Seq<ProfileView>,
    batches: Seq<Seq<Seq<char>>>,
    r: AppResult<()>,
) -> bool {
    all_run(t, batches) && is_sweep_result(r, profiles, outcomes_of(t))
}

/// What replies say of which profiles carry IPv6.
pub open spec fn families_in(t: Seq<Step>, n: nat) -> Seq<bool> {
    Seq::new(n, |i: int| t[i] matches Step::Nmcli { args: _, reply } && carries(reply))
}

/// Whether the steps set the kill switch on `profiles` and come to `r`: which of
/// them carry IPv6 is found first, then the batches are run in order, up to the
/// first that fails.
pub open spec fn kill_switch_set(
    t: Seq<Step>,
    profiles: Seq<ProfileView>,
    enable: bool,
    r: AppResult<()>,
) -> bool {
    let n = profiles.len();
    &&& n <= t.len()
    &&& families_asked(t, profiles)
    &&& run_in_order(
        t.skip(n as int),
        kill_switch_batches(profiles, enable, families_in(t, n)),
        r,
    )
}

/// Whether the first steps ask of each profile whether it carries IPv6.
pub open spec fn families_asked(t: Seq<Step>, profiles: Seq<ProfileView>) -> bool {
    forall|i: int|
        0 <= i < profiles.len() ==> reply_at(
            t,
            i,
            property_args("ipv6.method"@, (#[trigger] profiles[i]).uuid),
        ) is Some
}

/// Whether the steps set the kill switch on all profiles and come to `r`.
pub open spec fn kill_switch_run(t: Seq<Step>, enable: bool, r: AppResult<()>) -> bool {
    exists|n: int, list: AppResult<Vec<WireguardProfile>>|
        0 <= n <= t.len() && #[trigger] list_run(t.take(n), list) && match list {
            Err(e) => t.len() == n && r == Err::<(), AppError>(e),
            Ok(profiles) => kill_switch_set(t.skip(n), profile_views(profiles@), enable, r),
        }
}

/// Whether the steps set on all profiles if they come up on their own, and come to
/// `r`.
pub open spec fn autoconnect_run(t: Seq<Step>, enable: bool, r: AppResult<()>) -> bool {
    exists|n: int, list: AppResult<Vec<WireguardProfile>>|
        0 <= n <= t.len() && #[trigger] list_run(t.take(n), list) && match list {
            Err(e) => t.len() == n && r == Err::<(), AppError>(e),
            Ok(profiles) => swept(
                t.skip(n),
                profile_views(profiles@),
                autoconnect_batches(profile_views(profiles@), enable),
                r,
            ),
        }
}

/// Whether the steps configure split tunneling on all profiles and come to `r`.
pub open spec fn split_tunnel_run(
    t: Seq<Step>,
    mode: SplitTunnelMode,
    v4: Seq<Seq<char>>,
    v6: Seq<Seq<char>>,
    r: AppResult<()>,
) -> bool {
    exists|n: int, list: AppResult<Vec<WireguardProfile>>|
        0 <= n <= t.len() && #[trigger] list_run(t.take(n), list) && match list {
            Err(e) => t.len() == n && r == Err::<(), AppError>(e),
            Ok(profiles) => swept(
                t.skip(n),
                profile_views(profiles@),
                split_tunnel_batches(profile_views(profiles@), mode, v4, v6),
                r,
            ),
        }
}

impl<
    N: Fn(&[String]) -> AppResult<String>,
    L: Fn() -> Option<AppConfig>,
    V: Fn(&Vec<String>) -> Vec<IpAddr>,
    X: Fn(&str) -> bool,
    P: Fn(&str) -> TunnelHealth,
    S: Fn(&AppConfig) -> AppResult<()>,
> CliNmClient<N, L, V, X, P, S> {
    /// Run one batch for each profile, whatever earlier ones came to, and report
    /// all failures together.
    pub fn apply_to_every_profile(
        &mut self,
        profiles: &[WireguardProfile],
        batches: Vec<Vec<String>>,
    ) -> (r: AppResult<()>)
        requires
            batches.len() == profiles.len(),
        ensures
            final(self).follows(*old(self)),
            swept(since(old(self).taken(), final(self).taken()), profile_views(profiles@), batches.deep_view(), r),
    {
        let ghost start = self.taken();
        let mut outcomes: Vec<AppResult<()>> = Vec::new();
        let mut i: usize = 0;
        proof {
            lemma_since_none(start);
            assert(outcomes@ =~= outcomes_of(since(start, start)));
        }
        while i < batches.len()
            invariant
                i <= batches.len(),
                start == old(self).taken(),
                grown(start, self.taken()),
                self.follows(*old(self)),
                since(start, self.taken()).len() == i,
                outcomes@ == outcomes_of(since(start, self.taken())),
                forall|k: int|
                    0 <= k < i ==> reply_at(
                        since(start, self.taken()),
                        k,
                        #[trigger] batches.deep_view()[k],
                    ) is Some,
            decreases batches.len() - i,
        {
            let args = batches[i].as_slice();
            assert(args.deep_view() =~= batches.deep_view()[i as int]);
            let ghost before = self.taken();
            let ghost t = since(start, before);
            let reply = self.run_nmcli_owned(args);
            let ghost step = Step::Nmcli { args: args.deep_view(), reply };
            proof {
                lemma_since_push(start, before, step);
                assert(outcomes_of(t.push(step)) =~= outcomes_of(t).push(outcome_of(step)));
            }
            let outcome = match reply {
                Ok(_) => Ok(()),
                Err(e) => Err(e),
            };
            assert(outcome == outcome_of(step));
            outcomes.push(outcome);
            assert forall|k: int| 0 <= k < i + 1 implies reply_at(
                t.push(step),
                k,
                #[trigger] batches.deep_view()[k],
            ) is Some by {
                if k < i {
                    assert(t.push(step)[k] == t[k]);
                    assert(reply_at(t, k, batches.deep_view()[k]) is Some);
                }
            }
            i += 1;
        }
        sweep_result(profiles, &outcomes)
    }

    /// Run batches in order, up to the first that fails.
    fn run_batches_in_order(&mut self, batches: &Vec<Vec<String>>) -> (r: AppResult<()>)
        ensures
            final(self).follows(*old(self)),
            run_in_order(since(old(self).taken(), final(self).taken()), batches.deep_view(), r),
    {
        let ghost start = self.taken();
        let mut i: usize = 0;
        proof {
            lemma_since_none(start);
        }
        while i < batches.len()
            invariant
                i <= batches.len(),
                start == old(self).taken(),
                grown(start, self.taken()),
                self.follows(*old(self)),
                since(start, self.taken()).len() == i,
                forall|k: int|
                    0 <= k < i ==> reply_at(
                        since(start, self.taken()),
                        k,
                        #[trigger] batches.deep_view()[k],
                    ) is Some,
                forall|k: int|
                    0 <= k < i ==> outcome_of(#[trigger] since(start, self.taken())[k]) is Ok,
            decreases batches.len() - i,
        {
            let args = batches[i].as_slice();
            assert(args.deep_view() =~= batches.deep_view()[i as int]);
            let ghost before = self.taken();
            let ghost t = since(start, before);
            let reply = self.run_nmcli_owned(args);
            let ghost step = Step::Nmcli { args: args.deep_view(), reply };
            proof {
                lemma_since_push(start, before, step);
                assert forall|k: int| 0 <= k < i + 1 implies reply_at(
                    t.push(step),
                    k,
                    #[trigger] batches.deep_view()[k],
                ) is Some by {
                    if k < i {
                        assert(t.push(step)[k] == t[k]);
                        assert(reply_at(t, k, batches.deep_view()[k]) is Some);
                    }
                }
                assert forall|k: int| 0 <= k < i implies outcome_of(
                    #[trigger] t.push(step)[k],
                ) is Ok by {
                    assert(t.push(step)[k] == t[k]);
                }
            }
            if let Err(e) = reply {
                return Err(e);
            }
            i += 1;
        }
        Ok(())
    }

    /// Which profiles carry IPv6.
    fn families(&mut self, profiles: &[WireguardProfile]) -> (r: Vec<bool>)
        ensures
            final(self).follows(*old(self)),
            since(old(self).taken(), final(self).taken()).len() == profiles.len(),
            families_asked(since(old(self).taken(), final(self).taken()), profile_views(profiles@)),
            r@ == families_in(since(old(self).taken(), final(self).taken()), profiles@.len()),
    {
        let ghost start = self.taken();
        let ghost views = profile_views(profiles@);
        let mut r: Vec<bool> = Vec::new();
        let mut i: usize = 0;
        proof {
            lemma_since_none(start);
        }
        while i < profiles.len()
            invariant
                i <= profiles.len(),
                r.len() == i,
                start == old(self).taken(),
                views == profile_views(profiles@),
                grown(start, self.taken()),
                self.follows(*old(self)),
                since(start, self.taken()).len() == i,
                forall|k: int|
                    0 <= k < i ==> reply_at(
                        since(start, self.taken()),
                        k,
                        property_args("ipv6.method"@, (#[trigger] views[k]).uuid),
                    ) is Some,
                forall|k: int|
                    0 <= k < i ==> #[trigger] r@[k] == (since(start, self.taken())[k] matches
                        Step::Nmcli { args: _, reply } && carries(reply)),
            decreases profiles.len() - i,
        {
            let ghost before = self.taken();
            let ghost t = since(start, before);
            assert(views[i as int] == profiles[i as int]@);
            let one = self.profile_has_ipv6(profiles[i].uuid.as_str());
            let ghost u = since(start, self.taken());
            proof {
                lemma_since(start, before, self.taken());
                let reply = choose|reply: AppResult<String>| #[trigger]
                    property_read(
                        since(before, self.taken()),
                        "ipv6.method"@,
                        views[i as int].uuid,
                        reply,
                    ) && one == carries(reply);
                assert(u[i as int] == since(before, self.taken())[0]);
                assert forall|k: int| 0 <= k < i + 1 implies reply_at(
                    u,
                    k,
                    property_args("ipv6.method"@, (#[trigger] views[k]).uuid),
                ) is Some by {
                    if k < i {
                        assert(u[k] == t[k]);
                    }
                }
            }
            let ghost had = r@;
            r.push(one);
            assert forall|k: int| 0 <= k < i + 1 implies #[trigger] r@[k] == (u[k] matches
                Step::Nmcli { args: _, reply } && carries(reply)) by {
                if k < i {
                    assert(u[k] == t[k] && r@[k] == had[k]);
                }
            }
            i += 1;
        }
        assert(r@ =~= families_in(since(start, self.taken()), profiles@.len()));
        r
    }

    /// Turn the kill switch of every profile on or off. The first failure ends
    /// it: the profiles that follow keep what they have.
    pub fn set_kill_switch_all(&mut self, enable: bool) -> (r: AppResult<()>)
        ensures
            final(self).follows(*old(self)),
            kill_switch_run(since(old(self).taken(), final(self).taken()), enable, r),
    {
        let ghost start = self.taken();
        let found = self.list_wireguard_profiles();
        let ghost list = found;
        let ghost middle = self.taken();
        proof {
            lemma_part(start, middle);
        }
        let profiles = match found {
            Ok(list) => list,
            Err(e) => {
                return Err(e);
            },
        };
        let ghost views = profile_views(profiles@);
        let has_ipv6 = self.families(profiles.as_slice());
        let ghost third = self.taken();
        let batches = kill_switch_arg_batches(profiles.as_slice(), enable, has_ipv6.as_slice());
        let r = self.run_batches_in_order(&batches);
        proof {
            let u = since(middle, self.taken());
            lemma_parts(middle, third, self.taken());
            assert forall|i: int| 0 <= i < views.len() implies reply_at(
                u,
                i,
                property_args("ipv6.method"@, (#[trigger] views[i]).uuid),
            ) is Some by {
                assert(u[i] == u.take(views.len() as int)[i]);
            }
            assert(families_in(u, views.len()) =~= families_in(
                since(middle, third),
                views.len(),
            )) by {
                assert forall|i: int| 0 <= i < views.len() implies u[i] == #[trigger] since(
                    middle,
                    third,
                )[i] by {
                    assert(u[i] == u.take(views.len() as int)[i]);
                }
            }
            assert(kill_switch_set(u, views, enable, r));
            lemma_parts(start, middle, self.taken());
            assert(list_run(
                since(start, self.taken()).take(since(start, middle).len() as int),
                list,
            ));
        }
        r
    }

    /// Set on every profile whether it comes up on its own.
    pub fn set_autoconnect_all(&mut self, enable: bool) -> (r: AppResult<()>)
        ensures
            final(self).follows(*old(self)),
            autoconnect_run(since(old(self).taken(), final(self).taken()), enable, r),
    {
        let ghost start = self.taken();
        let found = self.list_wireguard_profiles();
        let ghost list = found;
        let ghost middle = self.taken();
        proof {
            lemma_part(start, middle);
        }
        let profiles = match found {
            Ok(list) => list,
            Err(e) => {
                return Err(e);
            },
        };
        let batches = autoconnect_arg_batches(profiles.as_slice(), enable);
        assert(batches.deep_view().len() == profiles@.len());
        let r = self.apply_to_every_profile(profiles.as_slice(), batches);
        proof {
            lemma_parts(start, middle, self.taken());
            assert(list_run(
                since(start, self.taken()).take(since(start, middle).len() as int),
                list,
            ));
        }
        r
    }

    /// Configure split tunneling on every profile.
    pub fn apply_split_tunnel_all(
        &mut self,
        mode: SplitTunnelMode,
        v4_routes: &[String],
        v6_routes: &[String],
    ) -> (r: AppResult<()>)
        ensures
            final(self).follows(*old(self)),
            split_tunnel_run(since(old(self).taken(), final(self).taken()), mode, v4_routes.deep_view(), v6_routes.deep_view(), r),
    {
        let ghost start = self.taken();
        let found = self.list_wireguard_profiles();
        let ghost list = found;
        let ghost middle = self.taken();
        proof {
            lemma_part(start, middle);
        }
        let profiles = match found {
            Ok(list) => list,
            Err(e) => {
                return Err(e);
            },
        };
        let batches = split_tunnel_arg_batches(profiles.as_slice(), mode, v4_routes, v6_routes);
        assert(batches.deep_view().len() == profiles@.len());
        let r = self.apply_to_every_profile(profiles.as_slice(), batches);
        proof {
            lemma_parts(start, middle, self.taken());
            assert(list_run(
                since(start, self.taken()).take(since(start, middle).len() as int),
                list,
            ));
        }
        r
    }
}

// ---------------------------------------------------------------------------
// Activation
// ---------------------------------------------------------------------------

/// Whether the steps find the routes that the settings ask for: none where traffic
/// is not split, and otherwise those for the blocks and for what the domains
/// resolve to.
pub open spec fn routes_run(
    t: Seq<Step>,
    config: AppConfig,
    r: (Seq<Seq<char>>, Seq<Seq<char>>),
) -> bool {
    let split = config.global_split_tunnel;
    if split.mode.spec_is_enabled() {
        t.len() == 1 && (t[0] matches Step::Resolve { domains, addresses } && domains
            == split.domains.deep_view() && are_routes_for(
            r,
            split.mode,
            split.cidrs.deep_view(),
            addresses,
        ))
    } else {
        t.len() == 0 && r.0.len() == 0 && r.1.len() == 0
    }
}

/// Whether the steps bring a profile in line with the settings, where they can be
/// read.
pub open spec fn prepared(
    t: Seq<Step>,
    uuid: Seq<char>,
    has_ipv6: bool,
    settings: Option<AppConfig>,
) -> bool {
    match settings {
        None => t.len() == 0,
        Some(config) => exists|n: int, routes: (Seq<Seq<char>>, Seq<Seq<char>>)|
            0 <= n <= t.len() && #[trigger] routes_run(t.take(n), config, routes) && all_run(
                t.skip(n),
                activation_args(
                    uuid,
                    has_ipv6,
                    config.kill_switch_enabled,
                    config.global_split_tunnel.mode,
                    routes.0,
                    routes.1,
                ),
            ),
    }
}

/// Whether the peers of a profile say that its tunnel initiates a handshake on
/// its own. A profile of which nothing can be read does not.
pub open spec fn initiating(reply: AppResult<String>) -> bool {
    match reply {
        Ok(text) => initiates(settings_in(lines_of(text@))),
        Err(_) => false,
    }
}

/// Whether the steps check a tunnel that was just brought up and come to `r`. It is
/// probed where the check is on, the interface is known and new, and the tunnel
/// initiates its handshake on its own; where the peer does not answer, the tunnel
/// is taken down again. Otherwise nothing is done.
pub open spec fn verified(
    t: Seq<Step>,
    uuid: Seq<char>,
    interface: Option<Seq<char>>,
    existed: bool,
    check: bool,
    r: AppResult<()>,
) -> bool {
    match interface {
        Some(name) if check && !existed => reply_at(t, 0, show_args(uuid)) matches Some(reply) && (
        if initiating(reply) {
            tested(t.skip(1), uuid, name, r)
        } else {
            t.len() == 1 && r is Ok
        }),
        _ => t.len() == 0 && r is Ok,
    }
}

/// Whether the steps probe a tunnel and come to `r`: one whose peer does not answer
/// is taken down again, and no other.
pub open spec fn tested(
    t: Seq<Step>,
    uuid: Seq<char>,
    interface: Seq<char>,
    r: AppResult<()>,
) -> bool {
    t.len() > 0 && (t[0] matches Step::Probe { interface: probed, health } && probed == interface
        && match health {
        TunnelHealth::Handshaken => t.len() == 1 && r is Ok,
        TunnelHealth::NoHandshake => t.len() == 2 && reply_at(t, 1, verb_args("down"@, uuid))
            is Some && is_dead(r, interface),
    })
}

/// Whether `r` tells that the peer behind an interface did not answer.
pub open spec fn is_dead(r: AppResult<()>, interface: Seq<char>) -> bool {
    r matches Err(AppError::TunnelUnhealthy(m)) && m@ == dead_tunnel_text(interface)
}

/// Whether the check of fresh tunnels is on.
pub open spec fn check_on(settings: Option<AppConfig>) -> bool {
    match settings {
        Some(c) => c.general.verify_tunnel_on_connect,
        None => true,
    }
}

/// Whether the steps bring a prepared profile up and come to `r`: it is brought
/// up, and then checked.
pub open spec fn brought_up(
    t: Seq<Step>,
    uuid: Seq<char>,
    interface: Option<Seq<char>>,
    existed: bool,
    r: AppResult<()>,
) -> bool {
    reply_at(t, 0, verb_args("up"@, uuid)) matches Some(up) && match up {
        Err(e) => t.len() == 1 && r == Err::<(), AppError>(e),
        Ok(_) => t.len() > 1 && (t[1] matches Step::Load { settings } && verified(
            t.skip(2),
            uuid,
            interface,
            existed,
            check_on(settings),
            r,
        )),
    }
}

/// Whether the steps look for the interface of a prepared profile, then bring it
/// up, and come to `r`.
pub open spec fn raised(t: Seq<Step>, uuid: Seq<char>, r: AppResult<()>) -> bool {
    reply_at(t, 0, property_args("connection.interface-name"@, uuid)) matches Some(reply)
        && match interface_in(reply) {
        Some(name) => t.len() > 1 && (t[1] matches Step::Exists { interface, found } && interface
            == name && brought_up(t.skip(2), uuid, Some(name), found, r)),
        None => brought_up(t.skip(1), uuid, None, false, r),
    }
}

/// Whether the steps that start an activation pin the default route of a profile
/// and read the settings.
pub open spec fn pinned(
    t: Seq<Step>,
    uuid: Seq<char>,
    has_ipv6: bool,
    settings: Option<AppConfig>,
) -> bool {
    &&& t.len() == 3
    &&& reply_at(t, 0, property_args("ipv6.method"@, uuid)) matches Some(reply) && has_ipv6
        == carries(reply)
    &&& reply_at(t, 1, routing_args(uuid, has_ipv6)) is Some
    &&& t[2] matches Step::Load { settings: read } && read == settings
}

/// Whether the steps bring a profile up and come to `r`. Its default route is
/// pinned and it is brought in line with the settings; then it is looked whether
/// its interface is there, and only then is it brought up and checked.
pub open spec fn activate_run(t: Seq<Step>, uuid: Seq<char>, r: AppResult<()>) -> bool {
    exists|m: int, has_ipv6: bool, settings: Option<AppConfig>|
        3 <= m <= t.len() && #[trigger] pinned(t.take(3), uuid, has_ipv6, settings)
            && #[trigger] prepared(t.subrange(3, m), uuid, has_ipv6, settings) && raised(
            t.skip(m),
            uuid,
            r,
        )
}

impl<
    N: Fn(&[String]) -> AppResult<String>,
    L: Fn() -> Option<AppConfig>,
    V: Fn(&Vec<String>) -> Vec<IpAddr>,
    X: Fn(&str) -> bool,
    P: Fn(&str) -> TunnelHealth,
    S: Fn(&AppConfig) -> AppResult<()>,
> CliNmClient<N, L, V, X, P, S> {
    /// Run batches, each whatever the others come to.
    fn run_all(&mut self, batches: &Vec<Vec<String>>)
        ensures
            final(self).follows(*old(self)),
            all_run(since(old(self).taken(), final(self).taken()), batches.deep_view()),
    {
        let ghost start = self.taken();
        let mut i: usize = 0;
        proof {
            lemma_since_none(start);
        }
        while i < batches.len()
            invariant
                i <= batches.len(),
                start == old(self).taken(),
                grown(start, self.taken()),
                self.follows(*old(self)),
                since(start, self.taken()).len() == i,
                forall|k: int|
                    0 <= k < i ==> reply_at(
                        since(start, self.taken()),
                        k,
                        #[trigger] batches.deep_view()[k],
                    ) is Some,
            decreases batches.len() - i,
        {
            let args = batches[i].as_slice();
            assert(args.deep_view() =~= batches.deep_view()[i as int]);
            let ghost before = self.taken();
            let ghost t = since(start, before);
            let reply = self.run_nmcli_owned(args);
            proof {
                let step = Step::Nmcli { args: args.deep_view(), reply };
                lemma_since_push(start, before, step);
                assert forall|k: int| 0 <= k < i + 1 implies reply_at(
                    t.push(step),
                    k,
                    #[trigger] batches.deep_view()[k],
                ) is Some by {
                    if k < i {
                        assert(t.push(step)[k] == t[k]);
                        assert(reply_at(t, k, batches.deep_view()[k]) is Some);
                    }
                }
            }
            i += 1;
        }
    }

    /// Apply `verb` to a profile.
    fn apply(&mut self, verb: &str, uuid: &str) -> (r: AppResult<String>)
        ensures
            final(self).taken() == old(self).taken().push(
                Step::Nmcli { args: verb_args(verb@, uuid@), reply: r },
            ),
            final(self).follows(*old(self)),
    {
        let args = ["connection", verb, uuid];
        let slice = args.as_slice();
        assert(slice.deep_view() =~= verb_args(verb@, uuid@));
        self.run_nmcli(slice)
    }

    /// What is known of a profile.
    fn show(&mut self, uuid: &str) -> (r: AppResult<String>)
        ensures
            final(self).taken() == old(self).taken().push(
                Step::Nmcli { args: show_args(uuid@), reply: r },
            ),
            final(self).follows(*old(self)),
    {
        let args = ["-s", "connection", "show", uuid];
        let slice = args.as_slice();
        assert(slice.deep_view() =~= show_args(uuid@));
        self.run_nmcli(slice)
    }

    /// The routes that the settings ask for.
    fn routes_of(&mut self, config: &AppConfig) -> (r: (Vec<String>, Vec<String>))
        ensures
            final(self).follows(*old(self)),
            routes_run(since(old(self).taken(), final(self).taken()), *config, (r.0.deep_view(), r.1.deep_view())),
    {
        let ghost start = self.taken();
        let split = &config.global_split_tunnel;
        if split.mode.is_enabled() {
            let addresses = self.resolve_domains(&split.domains);
            proof {
                lemma_since_one(
                    start,
                    Step::Resolve { domains: split.domains.deep_view(), addresses: addresses@ },
                );
            }
            let cidrs = split.cidrs.as_slice();
            assert(cidrs.deep_view() =~= split.cidrs.deep_view());
            routes_for(split.mode, cidrs, addresses.as_slice())
        } else {
            proof {
                lemma_since_none(start);
            }
            (Vec::new(), Vec::new())
        }
    }

    /// Check a tunnel that was just brought up, and take it down again where its
    /// peer does not answer. Whether the interface was there is as it was found
    /// before.
    pub fn verify_or_disconnect(
        &mut self,
        uuid: &str,
        interface: Option<&str>,
        existed: bool,
        check: bool,
    ) -> (r: AppResult<()>)
        ensures
            final(self).follows(*old(self)),
            verified(since(old(self).taken(), final(self).taken()), uuid@, opt_view(interface), existed, check, r),
    {
        let ghost start = self.taken();
        proof {
            lemma_since_none(start);
        }
        let name = match interface {
            Some(name) => name,
            None => {
                return Ok(());
            },
        };
        if !check || existed {
            return Ok(());
        }
        let reply = self.show(uuid);
        let ghost first = self.taken();
        proof {
            lemma_since_one(start, Step::Nmcli { args: show_args(uuid@), reply });
        }
        let starts = match &reply {
            Ok(text) => parse_peer_settings(text.as_str()).initiates_handshake(),
            Err(_) => false,
        };
        assert(starts == initiating(reply));
        if !starts {
            return Ok(());
        }
        let health = self.probe_interface(name);
        let ghost probe = Step::Probe { interface: name@, health };
        let ghost second = self.taken();
        proof {
            lemma_since_one(first, probe);
            lemma_parts(start, first, second);
        }
        let r = activation_outcome(name, health);
        if !health.is_healthy() {
            let down = self.apply("down", uuid);
            proof {
                lemma_since_push(
                    first,
                    second,
                    Step::Nmcli { args: verb_args("down"@, uuid@), reply: down },
                );
                lemma_parts(start, first, self.taken());
            }
            assert(is_dead(r, name@));
        }
        assert(tested(since(first, self.taken()), uuid@, name@, r));
        assert(since(start, self.taken())[0] == since(start, self.taken()).take(1)[0]);
        r
    }

    /// Bring a profile in line with the settings, where they could be read.
    fn prepare(&mut self, uuid: &str, has_ipv6: bool, settings: &Option<AppConfig>)
        ensures
            final(self).follows(*old(self)),
            prepared(since(old(self).taken(), final(self).taken()), uuid@, has_ipv6, *settings),
    {
        let ghost start = self.taken();
        let config = match settings {
            Some(config) => config,
            None => {
                proof {
                    lemma_since_none(start);
                }
                return;
            },
        };
        let (v4, v6) = self.routes_of(config);
        let ghost middle = self.taken();
        let ghost routes = (v4.deep_view(), v6.deep_view());
        let (v4_slice, v6_slice) = (v4.as_slice(), v6.as_slice());
        assert(v4_slice.deep_view() =~= v4.deep_view());
        assert(v6_slice.deep_view() =~= v6.deep_view());
        let batches = activation_batches(uuid, has_ipv6, config, v4_slice, v6_slice);
        self.run_all(&batches);
        proof {
            lemma_parts(start, middle, self.taken());
            assert(routes_run(
                since(start, self.taken()).take(since(start, middle).len() as int),
                *config,
                routes,
            ));
        }
    }

    /// Look for the interface of a prepared profile, then bring it up and check
    /// that its peer answers.
    fn raise(&mut self, uuid: &str) -> (r: AppResult<()>)
        ensures
            final(self).follows(*old(self)),
            raised(since(old(self).taken(), final(self).taken()), uuid@, r),
    {
        let ghost start = self.taken();
        let interface = self.tunnel_interface_name(uuid);
        let ghost found = opt_text(interface);
        let ghost named = self.taken();
        let ghost reply = choose|reply: AppResult<String>| #[trigger]
            property_read(
                since(start, named),
                "connection.interface-name"@,
                uuid@,
                reply,
            ) && found == interface_in(reply);
        let known = match &interface {
            Some(name) => Some(name.as_str()),
            None => None,
        };
        let existed = match known {
            Some(name) => {
                let there = self.interface_exists(name);
                proof {
                    lemma_since_push(
                        start,
                        named,
                        Step::Exists { interface: name@, found: there },
                    );
                }
                there
            },
            None => false,
        };
        assert(opt_view(known) == found);
        let ghost looked = self.taken();
        let up = self.apply("up", uuid);
        let ghost lifted = self.taken();
        proof {
            lemma_since_one(looked, Step::Nmcli { args: verb_args("up"@, uuid@), reply: up });
        }
        let r = match up {
            Err(e) => Err(e),
            Ok(_) => {
                let again = self.load_settings();
                let ghost read = self.taken();
                proof {
                    lemma_since_push(looked, lifted, Step::Load { settings: again });
                }
                let check = health_check_enabled(again.as_ref());
                assert(check == check_on(again));
                let r = self.verify_or_disconnect(uuid, known, existed, check);
                proof {
                    lemma_parts(looked, read, self.taken());
                    let t = since(looked, self.taken());
                    assert(t[0] == t.take(2)[0] && t[1] == t.take(2)[1]);
                }
                r
            },
        };
        assert(brought_up(since(looked, self.taken()), uuid@, found, existed, r));
        proof {
            lemma_parts(start, looked, self.taken());
            let t = since(start, self.taken());
            let n = since(start, looked).len() as int;
            assert(t[0] == t.take(n)[0]);
            assert(n == 2 ==> t[1] == t.take(n)[1]);
        }
        r
    }

    /// Bring a profile up: pin its default route, bring it in line with the
    /// settings, bring it up, and check that its peer answers.
    pub fn activate(&mut self, uuid: &str) -> (r: AppResult<()>)
        ensures
            final(self).follows(*old(self)),
            activate_run(since(old(self).taken(), final(self).taken()), uuid@, r),
    {
        let ghost start = self.taken();
        let has_ipv6 = self.profile_has_ipv6(uuid);
        let ghost one = self.taken();
        let ghost reply = choose|reply: AppResult<String>| #[trigger]
            property_read(since(start, one), "ipv6.method"@, uuid@, reply) && has_ipv6 == carries(
                reply,
            );
        let pin = tunnel_routing::set_args(uuid, has_ipv6);
        let pin_slice = pin.as_slice();
        assert(pin_slice.deep_view() =~= routing_args(uuid@, has_ipv6));
        let pin_reply = self.run_nmcli_owned(pin_slice);
        let ghost two = self.taken();
        let settings = self.load_settings();
        let ghost three = self.taken();
        proof {
            lemma_since_push(
                start,
                one,
                Step::Nmcli { args: routing_args(uuid@, has_ipv6), reply: pin_reply },
            );
            lemma_since_push(start, two, Step::Load { settings });
            assert(pinned(since(start, three), uuid@, has_ipv6, settings));
        }
        self.prepare(uuid, has_ipv6, &settings);
        let ghost ready = self.taken();
        let r = self.raise(uuid);
        proof {
            let end = self.taken();
            lemma_parts(start, three, ready);
            lemma_parts(start, ready, end);
            let t = since(start, end);
            let m = since(start, ready).len() as int;
            assert(t.take(3) =~= t.take(m).take(3));
            assert(t.take(3) =~= since(start, three));
            assert(t.subrange(3, m) =~= t.take(m).skip(3));
            assert(pinned(t.take(3), uuid@, has_ipv6, settings));
            assert(prepared(t.subrange(3, m), uuid@, has_ipv6, settings));
        }
        r
    }
}

/// A tunnel that was just brought up is taken down exactly where its check fails:
/// never one whose peer answered, and never an idle one that does not initiate a
/// handshake on its own.
pub proof fn law_only_a_dead_tunnel_is_taken_down(
    t: Seq<Step>,
    uuid: Seq<char>,
    interface: Option<Seq<char>>,
    existed: bool,
    check: bool,
    r: AppResult<()>,
)
    requires
        verified(t, uuid, interface, existed, check, r),
    ensures
        (exists|i: int| #[trigger] reply_at(t, i, verb_args("down"@, uuid)) is Some) <==> r is Err,
        r is Err ==> exists|i: int|
            0 <= i < t.len() && (#[trigger] t[i] matches Step::Probe { interface: _, health }
                && health == TunnelHealth::NoHandshake),
        (interface is Some && check && !existed && (reply_at(t, 0, show_args(uuid)) matches Some(
            reply,
        ) && !initiating(reply))) ==> t.len() == 1 && r is Ok,
{
    let down = verb_args("down"@, uuid);
    assert(show_args(uuid).len() == 4 && down.len() == 3);
    if interface is Some && check && !existed {
        assert(reply_at(t, 0, down) is None);
        if initiating(reply_at(t, 0, show_args(uuid))->0) {
            let u = t.skip(1);
            assert(t[1] == u[0]);
            if r is Err {
                assert(t[2] == u[1]);
                assert(reply_at(t, 2, down) is Some);
            }
        }
    }
}

/// Whether an interface is there is looked for before the profile is brought up,
/// and never afterwards.
pub proof fn law_interface_is_sampled_first(
    t: Seq<Step>,
    uuid: Seq<char>,
    r: AppResult<()>,
    i: int,
    j: int,
)
    requires
        raised(t, uuid, r),
        0 <= i < t.len(),
        t[i] is Exists,
        reply_at(t, j, verb_args("up"@, uuid)) is Some,
    ensures
        i < j,
{
    let first = property_args("connection.interface-name"@, uuid);
    assert(first.len() == 5 && verb_args("up"@, uuid).len() == 3);
    let name = interface_in(reply_at(t, 0, first)->0);
    let n: int = if name is Some { 2 } else { 1 };
    let u = t.skip(n);
    assert(u[0] == t[n]);
    if i >= n {
        assert(u[i - n] == t[i]);
        if i - n >= 2 {
            let v = u.skip(2);
            assert(v[i - n - 2] == t[i]);
            if i - n - 2 >= 1 {
                assert(v.skip(1)[i - n - 3] == t[i]);
            }
        }
    }
}

// ---------------------------------------------------------------------------
// Connecting
// ---------------------------------------------------------------------------

/// Whether the steps connect one of `profiles` and come to `r`.
pub open spec fn connected(
    t: Seq<Step>,
    profiles: Seq<ProfileView>,
    identifier: Seq<char>,
    r: AppResult<()>,
) -> bool {
    exists|found: Result<ProfileView, AppError>| #[trigger]
        found_by_identifier(found, profiles, identifier) && match found {
            Err(e) => t.len() == 0 && r == Err::<(), AppError>(e),
            Ok(p) => activate_run(t, p.uuid, r),
        }
}

/// Whether the steps connect a profile and come to `r`.
pub open spec fn connect_run(t: Seq<Step>, identifier: Seq<char>, r: AppResult<()>) -> bool {
    exists|n: int, list: AppResult<Vec<WireguardProfile>>|
        0 <= n <= t.len() && #[trigger] list_run(t.take(n), list) && match list {
            Err(e) => t.len() == n && r == Err::<(), AppError>(e),
            Ok(profiles) => connected(t.skip(n), profile_views(profiles@), identifier, r),
        }
}

/// Whether the steps apply `verb` to a profile and come to `r`.
pub open spec fn verb_run(
    t: Seq<Step>,
    verb: Seq<char>,
    uuid: Seq<char>,
    r: AppResult<()>,
) -> bool {
    t.len() == 1 && reply_at(t, 0, verb_args(verb, uuid)) is Some && r == outcome_of(t[0])
}

/// Whether the steps take down the active one of `profiles` and come to `r`.
pub open spec fn disconnected(
    t: Seq<Step>,
    profiles: Seq<ProfileView>,
    r: AppResult<()>,
) -> bool {
    match active_of(profiles) {
        None => t.len() == 0 && r matches Err(AppError::NoActiveProfile),
        Some(p) => verb_run(t, "down"@, p.uuid, r),
    }
}

/// Whether the steps disconnect and come to `r`.
pub open spec fn disconnect_run(t: Seq<Step>, r: AppResult<()>) -> bool {
    exists|n: int, list: AppResult<Vec<WireguardProfile>>|
        0 <= n <= t.len() && #[trigger] list_run(t.take(n), list) && match list {
            Err(e) => t.len() == n && r == Err::<(), AppError>(e),
            Ok(profiles) => disconnected(t.skip(n), profile_views(profiles@), r),
        }
}

/// Whether the steps replace the active one of `profiles` by `target` and come to
/// `r`: nothing is done where it is up already; the active one is taken down before
/// anything is done to the target, and one that cannot be taken down ends it.
pub open spec fn replaced(
    t: Seq<Step>,
    profiles: Seq<ProfileView>,
    target: ProfileView,
    r: AppResult<()>,
) -> bool {
    if target.state == ProfileState::Active {
        t.len() == 0 && r is Ok
    } else {
        match active_of(profiles) {
            None => activate_run(t, target.uuid, r),
            Some(active) => reply_at(t, 0, verb_args("down"@, active.uuid)) matches Some(down)
                && match down {
                Err(e) => t.len() == 1 && r == Err::<(), AppError>(e),
                Ok(_) => activate_run(t.skip(1), target.uuid, r),
            },
        }
    }
}

/// Whether the steps switch among `profiles` and come to `r`.
pub open spec fn switched(
    t: Seq<Step>,
    profiles: Seq<ProfileView>,
    identifier: Seq<char>,
    r: AppResult<()>,
) -> bool {
    exists|found: Result<ProfileView, AppError>| #[trigger]
        found_by_identifier(found, profiles, identifier) && match found {
            Err(e) => t.len() == 0 && r == Err::<(), AppError>(e),
            Ok(target) => replaced(t, profiles, target, r),
        }
}

/// Whether the steps switch to a profile and come to `r`.
pub open spec fn switch_run(t: Seq<Step>, identifier: Seq<char>, r: AppResult<()>) -> bool {
    exists|n: int, list: AppResult<Vec<WireguardProfile>>|
        0 <= n <= t.len() && #[trigger] list_run(t.take(n), list) && match list {
            Err(e) => t.len() == n && r == Err::<(), AppError>(e),
            Ok(profiles) => switched(t.skip(n), profile_views(profiles@), identifier, r),
        }
}

impl<
    N: Fn(&[String]) -> AppResult<String>,
    L: Fn() -> Option<AppConfig>,
    V: Fn(&Vec<String>) -> Vec<IpAddr>,
    X: Fn(&str) -> bool,
    P: Fn(&str) -> TunnelHealth,
    S: Fn(&AppConfig) -> AppResult<()>,
> CliNmClient<N, L, V, X, P, S> {
    /// Connect the profile with the given identifier or name.
    pub fn connect(&mut self, profile_identifier: &str) -> (r: AppResult<()>)
        ensures
            final(self).follows(*old(self)),
            connect_run(since(old(self).taken(), final(self).taken()), profile_identifier@, r),
    {
        let ghost start = self.taken();
        let listing = self.list_wireguard_profiles();
        let ghost list = listing;
        let ghost middle = self.taken();
        proof {
            lemma_part(start, middle);
            lemma_since_none(middle);
        }
        let profiles = match listing {
            Ok(list) => list,
            Err(e) => {
                return Err(e);
            },
        };
        let found = find_unique_profile_by_identifier(profiles.as_slice(), profile_identifier);
        let ghost seen = found_view(found);
        let r = match found {
            Err(e) => Err(e),
            Ok(profile) => {
                assert(seen == Ok::<ProfileView, AppError>(profile@));
                self.activate(profile.uuid.as_str())
            },
        };
        proof {
            assert(found_by_identifier(seen, profile_views(profiles@), profile_identifier@));
            lemma_parts(start, middle, self.taken());
            assert(list_run(
                since(start, self.taken()).take(since(start, middle).len() as int),
                list,
            ));
        }
        r
    }

    /// Take the active profile down.
    pub fn disconnect_active(&mut self) -> (r: AppResult<()>)
        ensures
            final(self).follows(*old(self)),
            disconnect_run(since(old(self).taken(), final(self).taken()), r),
    {
        let ghost start = self.taken();
        let listing = self.list_wireguard_profiles();
        let ghost list = listing;
        let ghost middle = self.taken();
        proof {
            lemma_part(start, middle);
            lemma_since_none(middle);
        }
        let profiles = match listing {
            Ok(list) => list,
            Err(e) => {
                return Err(e);
            },
        };
        let r = match profile_to_disconnect(profiles.as_slice()) {
            Err(e) => Err(e),
            Ok(uuid) => self.take_down(uuid.as_str()),
        };
        proof {
            assert(disconnected(since(middle, self.taken()), profile_views(profiles@), r));
            lemma_parts(start, middle, self.taken());
            assert(list_run(
                since(start, self.taken()).take(since(start, middle).len() as int),
                list,
            ));
        }
        r
    }

    /// Take a profile down.
    fn take_down(&mut self, uuid: &str) -> (r: AppResult<()>)
        ensures
            final(self).follows(*old(self)),
            verb_run(since(old(self).taken(), final(self).taken()), "down"@, uuid@, r),
    {
        let reply = self.apply("down", uuid);
        proof {
            lemma_since_one(
                old(self).taken(),
                Step::Nmcli { args: verb_args("down"@, uuid@), reply },
            );
        }
        match reply {
            Ok(_) => Ok(()),
            Err(e) => Err(e),
        }
    }

    /// Take the active one of `profiles` down, and bring `target` up.
    fn replace(&mut self, profiles: &[WireguardProfile], target: &WireguardProfile) -> (r: AppResult<
        (),
    >)
        ensures
            final(self).follows(*old(self)),
            replaced(since(old(self).taken(), final(self).taken()), profile_views(profiles@), target@, r),
    {
        let ghost start = self.taken();
        let ghost views = profile_views(profiles@);
        let ghost t = target@;
        proof {
            lemma_since_none(start);
        }
        if target.is_active() {
            return Ok(());
        }
        match active_profile(profiles) {
            None => self.activate(target.uuid.as_str()),
            Some(active) => {
                let ghost a = active@;
                assert(active_of(views) == Some(a));
                let down = self.take_down(active.uuid.as_str());
                let ghost ended = down;
                let ghost first = self.taken();
                if let Err(e) = down {
                    return Err(e);
                }
                let r = self.activate(target.uuid.as_str());
                proof {
                    lemma_parts(start, first, self.taken());
                    let all = since(start, self.taken());
                    assert(all[0] == all.take(1)[0]);
                    assert(all.skip(1) == since(first, self.taken()));
                    assert(activate_run(all.skip(1), t.uuid, r));
                }
                r
            },
        }
    }

    /// Switch to the profile with the given identifier or name.
    pub fn switch_to(&mut self, profile_identifier: &str) -> (r: AppResult<()>)
        ensures
            final(self).follows(*old(self)),
            switch_run(since(old(self).taken(), final(self).taken()), profile_identifier@, r),
    {
        let ghost start = self.taken();
        let listing = self.list_wireguard_profiles();
        let ghost list = listing;
        let ghost middle = self.taken();
        proof {
            lemma_part(start, middle);
            lemma_since_none(middle);
        }
        let profiles = match listing {
            Ok(list) => list,
            Err(e) => {
                return Err(e);
            },
        };
        let found = find_unique_profile_by_identifier(profiles.as_slice(), profile_identifier);
        let ghost seen = found_view(found);
        let r = match found {
            Err(e) => Err(e),
            Ok(target) => {
                assert(seen == Ok::<ProfileView, AppError>(target@));
                self.replace(profiles.as_slice(), target)
            },
        };
        proof {
            assert(found_by_identifier(seen, profile_views(profiles@), profile_identifier@));
            lemma_parts(start, middle, self.taken());
            assert(list_run(
                since(start, self.taken()).take(since(start, middle).len() as int),
                list,
            ));
        }
        r
    }
}

// ---------------------------------------------------------------------------
// Importing and deleting
// ---------------------------------------------------------------------------

/// The profiles that a listing gave: none where it failed.
pub open spec fn seen_in(list: AppResult<Vec<WireguardProfile>>) -> Seq<ProfileView> {
    match list {
        Ok(profiles) => profile_views(profiles@),
        Err(_) => Seq::empty(),
    }
}

/// Whether the steps find if a profile carries IPv6, where that has to be known.
pub open spec fn family_run(t: Seq<Step>, uuid: Seq<char>, needed: bool, r: bool) -> bool {
    if needed {
        ipv6_run(t, uuid, r)
    } else {
        t.len() == 0 && !r
    }
}

/// Whether the steps bring an imported profile in line with the settings and then
/// save them with the comments of its configuration.
pub open spec fn adopted(
    t: Seq<Step>,
    uuid: Seq<char>,
    content: Seq<char>,
    config: AppConfig,
) -> bool {
    exists|n: int, m: int, has_ipv6: bool, routes: (Seq<Seq<char>>, Seq<Seq<char>>)|
        0 <= n <= m < t.len() && #[trigger] routes_run(t.take(n), config, routes)
            && #[trigger] family_run(
            t.subrange(n, m),
            uuid,
            config.kill_switch_enabled,
            has_ipv6,
        ) && all_run(
            t.subrange(m, t.len() - 1),
            import_args(
                uuid,
                has_ipv6,
                config.kill_switch_enabled,
                config.global_split_tunnel.mode,
                routes.0,
                routes.1,
            ),
        ) && (t.last() matches Step::Save { config: after, outcome: _ } && comments_kept(
            after,
            config,
            uuid,
            comments_in(content),
        ))
}

/// Whether the steps settle a profile that was just imported: it is taken down and
/// does not come up on its own; then, where the settings can be read, they take
/// the profile in with the comments that `content` has.
pub open spec fn settled(t: Seq<Step>, uuid: Seq<char>, content: Seq<char>) -> bool {
    let n = settle_args(uuid).len() as int;
    &&& n < t.len()
    &&& all_run(t.take(n), settle_args(uuid))
    &&& t[n] matches Step::Load { settings } && match settings {
        None => t.len() == n + 1,
        Some(config) => adopted(t.skip(n + 1), uuid, content, config),
    }
}

/// Whether the steps that follow an import settle the profile that it brought,
/// where it brought one.
pub open spec fn import_settled<C: FnOnce() -> String>(
    t: Seq<Step>,
    before: Seq<ProfileView>,
    after: Seq<ProfileView>,
    read: C,
) -> bool {
    match first_new(before, after, 0) {
        None => t.len() == 0,
        Some(uuid) => exists|content: String| #[trigger]
            read.ensures((), content) && settled(t, uuid, content@),
    }
}

/// Whether the steps that follow an import list the profiles again and settle the
/// new one.
pub open spec fn import_followed<C: FnOnce() -> String>(
    t: Seq<Step>,
    before: Seq<ProfileView>,
    read: C,
) -> bool {
    exists|n: int, after: AppResult<Vec<WireguardProfile>>|
        0 <= n <= t.len() && #[trigger] list_run(t.take(n), after) && import_settled(
            t.skip(n),
            before,
            seen_in(after),
            read,
        )
}

/// Whether the steps import a file and come to `r`. A path that is not text is
/// refused. The profiles are listed, the file is imported, and where that
/// succeeded they are listed again, so that the new one is known; what the command
/// printed is returned whatever settling it comes to.
pub open spec fn import_run<C: FnOnce() -> String>(
    t: Seq<Step>,
    path: Option<Seq<char>>,
    read: C,
    r: AppResult<String>,
) -> bool {
    match path {
        None => t.len() == 0 && (r matches Err(AppError::Config(m)) && m@
            == "import path is not valid UTF-8"@),
        Some(file) => exists|n: int, before: AppResult<Vec<WireguardProfile>>|
            0 <= n < t.len() && #[trigger] list_run(t.take(n), before) && reply_at(
                t,
                n,
                import_file_args(file),
            ) == Some(r) && match r {
                Err(_) => t.len() == n + 1,
                Ok(_) => import_followed(t.skip(n + 1), seen_in(before), read),
            },
    }
}

/// Whether the steps delete a profile and come to `r`. What the settings keep of
/// it is dropped, and they are saved where that was anything; a failure to do so
/// is not told.
pub open spec fn delete_run(t: Seq<Step>, uuid: Seq<char>, r: AppResult<()>) -> bool {
    reply_at(t, 0, verb_args("delete"@, uuid)) matches Some(reply) && match reply {
        Err(e) => t.len() == 1 && r == Err::<(), AppError>(e),
        Ok(_) => r is Ok && t.len() > 1 && (t[1] matches Step::Load { settings } && dropped(
            t.skip(2),
            settings,
            uuid,
        )),
    }
}

/// Whether the steps drop what the settings keep of a profile.
pub open spec fn dropped(t: Seq<Step>, settings: Option<AppConfig>, uuid: Seq<char>) -> bool {
    match settings {
        None => t.len() == 0,
        Some(config) => if remembers(config, uuid) {
            t.len() == 1 && (t[0] matches Step::Save { config: after, outcome: _ } && forgot(
                after,
                config,
                uuid,
            ))
        } else {
            t.len() == 0
        },
    }
}

impl<
    N: Fn(&[String]) -> AppResult<String>,
    L: Fn() -> Option<AppConfig>,
    V: Fn(&Vec<String>) -> Vec<IpAddr>,
    X: Fn(&str) -> bool,
    P: Fn(&str) -> TunnelHealth,
    S: Fn(&AppConfig) -> AppResult<()>,
> CliNmClient<N, L, V, X, P, S> {
    /// The profiles that a listing gives: none where it fails.
    fn listed_or_none(&mut self) -> (r: Vec<WireguardProfile>)
        ensures
            final(self).follows(*old(self)),
            exists|list: AppResult<Vec<WireguardProfile>>| #[trigger]
                list_run(since(old(self).taken(), final(self).taken()), list) && profile_views(r@) == seen_in(list),
    {
        let list = self.list_wireguard_profiles();
        let ghost given = list;
        assert(list_run(since(old(self).taken(), self.taken()), given));
        match list {
            Ok(profiles) => profiles,
            Err(_) => {
                let none: Vec<WireguardProfile> = Vec::new();
                assert(profile_views(none@) =~= seen_in(given));
                none
            },
        }
    }

    /// Whether a profile carries IPv6, where that has to be known.
    fn family(&mut self, uuid: &str, needed: bool) -> (r: bool)
        ensures
            final(self).follows(*old(self)),
            family_run(since(old(self).taken(), final(self).taken()), uuid@, needed, r),
    {
        if needed {
            self.profile_has_ipv6(uuid)
        } else {
            proof {
                lemma_since_none(self.taken());
            }
            false
        }
    }

    /// Take an imported profile into the settings, and bring it in line with them.
    fn adopt(&mut self, uuid: &str, content: &str, config: AppConfig)
        ensures
            final(self).follows(*old(self)),
            adopted(since(old(self).taken(), final(self).taken()), uuid@, content@, config),
    {
        let ghost start = self.taken();
        let comments = extract_interface_comments(content);
        let mut kept = config;
        keep_comments(&mut kept, uuid, comments.as_str());
        assert(comments_kept(kept, config, uuid@, comments_in(content@)));
        let (v4, v6) = self.routes_of(&kept);
        let ghost one = self.taken();
        let ghost routes = (v4.deep_view(), v6.deep_view());
        assert(routes_run(since(start, one), config, routes));
        let needed = kept.kill_switch_enabled;
        let has_ipv6 = self.family(uuid, needed);
        let ghost two = self.taken();
        let (v4_slice, v6_slice) = (v4.as_slice(), v6.as_slice());
        assert(v4_slice.deep_view() =~= v4.deep_view());
        assert(v6_slice.deep_view() =~= v6.deep_view());
        let batches = import_batches(uuid, has_ipv6, &kept, v4_slice, v6_slice);
        self.run_all(&batches);
        let ghost three = self.taken();
        let saved = self.save_settings(&kept);
        proof {
            let end = self.taken();
            let save = Step::Save { config: kept, outcome: saved };
            lemma_parts(start, one, two);
            lemma_parts(start, two, three);
            lemma_since_push(start, three, save);
            let t = since(start, end);
            let u = since(start, three);
            let n = since(start, one).len() as int;
            let m = since(start, two).len() as int;
            assert(t == u.push(save));
            assert(t.take(n) =~= u.take(m).take(n));
            assert(t.take(n) =~= since(start, one));
            assert(t.subrange(n, m) =~= u.take(m).skip(n));
            assert(t.subrange(m, t.len() - 1) =~= u.skip(m));
            assert(routes_run(t.take(n), config, routes));
            assert(family_run(
                t.subrange(n, m),
                uuid@,
                config.kill_switch_enabled,
                has_ipv6,
            ));
            assert(t.last() == save);
        }
    }

    /// Settle a profile that was just imported from the configuration that `read`
    /// reads.
    fn settle<C: FnOnce() -> String>(&mut self, uuid: &str, read: C)
        requires
            read.requires(()),
        ensures
            final(self).follows(*old(self)),
            exists|content: String| #[trigger]
                read.ensures((), content) && settled(
                    since(old(self).taken(), final(self).taken()),
                    uuid@,
                    content@,
                ),
    {
        let ghost start = self.taken();
        let batches = settle_batches(uuid);
        self.run_all(&batches);
        let ghost one = self.taken();
        let content = read();
        assert(read.ensures((), content));
        let settings = self.load_settings();
        let ghost found = settings;
        let ghost two = self.taken();
        let ghost load = Step::Load { settings: found };
        proof {
            lemma_since_push(start, one, load);
            lemma_since_none(two);
        }
        if let Some(config) = settings {
            self.adopt(uuid, content.as_str(), config);
        }
        proof {
            lemma_parts(start, two, self.taken());
            let t = since(start, self.taken());
            let n = settle_args(uuid@).len() as int;
            assert(t.take(n) =~= t.take(n + 1).take(n));
            assert(t.take(n) =~= since(start, one));
            assert(t[n] == t.take(n + 1)[n]);
            assert(settled(t, uuid@, content@));
        }
    }

    /// Import a configuration file as a new profile, which stays down until it is
    /// connected. The path is none where it is not text, and `read` reads the file.
    pub fn import_wireguard_profile<C: FnOnce() -> String>(
        &mut self,
        path: Option<&str>,
        read: C,
    ) -> (r: AppResult<String>)
        requires
            read.requires(()),
        ensures
            final(self).follows(*old(self)),
            import_run(since(old(self).taken(), final(self).taken()), opt_view(path), read, r),
    {
        let ghost start = self.taken();
        let file = match path {
            Some(file) => file,
            None => {
                proof {
                    lemma_since_none(start);
                }
                return Err(AppError::Config("import path is not valid UTF-8".to_owned()));
            },
        };
        let before = self.listed_or_none();
        let ghost one = self.taken();
        let ghost first = choose|list: AppResult<Vec<WireguardProfile>>| #[trigger]
            list_run(since(start, one), list) && profile_views(before@) == seen_in(list);
        let args = ["connection", "import", "type", "wireguard", "file", file];
        let slice = args.as_slice();
        assert(slice.deep_view() =~= import_file_args(file@));
        let r = self.run_nmcli(slice);
        let ghost two = self.taken();
        let ghost n = since(start, one).len() as int;
        proof {
            lemma_since_push(start, one, Step::Nmcli { args: import_file_args(file@), reply: r });
            lemma_since_none(two);
        }
        if r.is_ok() {
            self.follow_import(before.as_slice(), read);
        }
        proof {
            lemma_parts(start, two, self.taken());
            let t = since(start, self.taken());
            assert(t.take(n) =~= t.take(n + 1).take(n));
            assert(t.take(n) =~= since(start, one));
            assert(t[n] == t.take(n + 1)[n]);
            assert(list_run(t.take(n), first));
        }
        r
    }

    /// Find the profile that an import brought, and settle it.
    fn follow_import<C: FnOnce() -> String>(&mut self, before: &[WireguardProfile], read: C)
        requires
            read.requires(()),
        ensures
            final(self).follows(*old(self)),
            import_followed(since(old(self).taken(), final(self).taken()), profile_views(before@), read),
    {
        let ghost start = self.taken();
        let after = self.listed_or_none();
        let ghost one = self.taken();
        let ghost second = choose|list: AppResult<Vec<WireguardProfile>>| #[trigger]
            list_run(since(start, one), list) && profile_views(after@) == seen_in(list);
        proof {
            lemma_since_none(one);
        }
        if let Some(uuid) = imported_profile(before, after.as_slice()) {
            self.settle(uuid.as_str(), read);
        }
        proof {
            assert(import_settled(
                since(one, self.taken()),
                profile_views(before@),
                seen_in(second),
                read,
            ));
            lemma_parts(start, one, self.taken());
            assert(list_run(
                since(start, self.taken()).take(since(start, one).len() as int),
                second,
            ));
        }
    }

    /// Delete a profile, and drop what the settings keep of it.
    pub fn delete_profile(&mut self, uuid: &str) -> (r: AppResult<()>)
        ensures
            final(self).follows(*old(self)),
            delete_run(since(old(self).taken(), final(self).taken()), uuid@, r),
    {
        let ghost start = self.taken();
        let reply = self.apply("delete", uuid);
        let ghost one = self.taken();
        proof {
            lemma_since_one(start, Step::Nmcli { args: verb_args("delete"@, uuid@), reply });
        }
        if let Err(e) = reply {
            return Err(e);
        }
        let settings = self.load_settings();
        let ghost found = settings;
        let ghost two = self.taken();
        proof {
            lemma_since_push(start, one, Step::Load { settings: found });
            lemma_since_none(two);
        }
        if let Some(config) = settings {
            let mut kept = config;
            if forget_profile(&mut kept, uuid) {
                let saved = self.save_settings(&kept);
                proof {
                    lemma_since_one(two, Step::Save { config: kept, outcome: saved });
                }
            }
        }
        proof {
            assert(dropped(since(two, self.taken()), found, uuid@));
            lemma_parts(start, two, self.taken());
            let t = since(start, self.taken());
            assert(t[0] == t.take(2)[0] && t[1] == t.take(2)[1]);
        }
        Ok(())
    }
}

// ---------------------------------------------------------------------------
// Diagnostics
// ---------------------------------------------------------------------------

/// Whether `v` is what may be shown of the live link of an interface: `wg` has
/// the first word, and the counters of the interface stand in for it.
pub open spec fn live_run<W: FnOnce(&str) -> AppResult<String>, B: FnOnce(&str) -> (u64, u64)>(
    base: DiagnosticsView,
    interface: Seq<char>,
    wg: W,
    counters: B,
    now: nat,
    v: DiagnosticsView,
) -> bool {
    exists|i: &str, dump: AppResult<String>|
        i@ == interface && #[trigger] wg.ensures((i,), dump) && match dump {
            Ok(text) => v == overlaid(base, text@, now),
            Err(_) => exists|j: &str, n: (u64, u64)|
                j@ == interface && #[trigger] counters.ensures((j,), n) && v == counted_in(
                    base,
                    n.0 as nat,
                    n.1 as nat,
                ),
        }
}

/// Whether the steps diagnose a profile and come to `r`. A profile without an
/// interface goes by its identifier.
pub open spec fn diagnostics_run<
    W: FnOnce(&str) -> AppResult<String>,
    B: FnOnce(&str) -> (u64, u64),
>(
    t: Seq<Step>,
    uuid: Seq<char>,
    is_active: bool,
    wg: W,
    counters: B,
    now: nat,
    r: AppResult<ProfileDiagnostics>,
) -> bool {
    t.len() == 1 && (reply_at(t, 0, show_args(uuid)) matches Some(reply) && match reply {
        Err(e) => r == Err::<ProfileDiagnostics, AppError>(e),
        Ok(text) => {
            let settings = settings_in(lines_of(text@));
            let interface = or_text(settings.interface_name, uuid);
            let base = shown(settings, interface, is_active);
            r matches Ok(d) && (if is_active {
                live_run(base, interface, wg, counters, now, d@)
            } else {
                d@ == base
            })
        },
    })
}

impl<
    N: Fn(&[String]) -> AppResult<String>,
    L: Fn() -> Option<AppConfig>,
    V: Fn(&Vec<String>) -> Vec<IpAddr>,
    X: Fn(&str) -> bool,
    P: Fn(&str) -> TunnelHealth,
    S: Fn(&AppConfig) -> AppResult<()>,
> CliNmClient<N, L, V, X, P, S> {
    /// What is shown of a profile at time `now` in seconds, where `wg` prints the
    /// dump of an interface and `counters` are its received and sent bytes. Neither
    /// is asked for a profile that is not up, and the counters only where `wg`
    /// fails.
    pub fn get_profile_diagnostics<
        W: FnOnce(&str) -> AppResult<String>,
        B: FnOnce(&str) -> (u64, u64),
    >(&mut self, uuid: &str, is_active: bool, wg: W, counters: B, now: u64) -> (r: AppResult<
        ProfileDiagnostics,
    >)
        requires
            is_active ==> forall|i: &str| wg.requires((i,)),
            forall|i: &str, d: AppResult<String>, j: &str|
                is_active && #[trigger] wg.ensures((i,), d) && d is Err
                    ==> #[trigger] counters.requires((j,)),
        ensures
            final(self).follows(*old(self)),
            diagnostics_run(since(old(self).taken(), final(self).taken()), uuid@, is_active, wg, counters, now as nat, r),
    {
        let reply = self.show(uuid);
        proof {
            lemma_since_one(
                old(self).taken(),
                Step::Nmcli { args: show_args(uuid@), reply },
            );
        }
        let text = match reply {
            Ok(text) => text,
            Err(e) => {
                return Err(e);
            },
        };
        let settings = parse_peer_settings(text.as_str());
        let interface = match &settings.interface_name {
            Some(name) => name.clone(),
            None => uuid.to_owned(),
        };
        let ghost name = interface@;
        assert(name == or_text(settings@.interface_name, uuid@));
        let mut diagnostics = settings_to_diagnostics(&settings, interface.clone(), is_active);
        let ghost base = diagnostics@;
        if is_active {
            let i = interface.as_str();
            let dump = wg(i);
            let ghost printed = dump;
            assert(wg.ensures((i,), printed));
            match dump {
                Ok(live) => {
                    overlay_wg_dump(&mut diagnostics, live.as_str(), now);
                },
                Err(_) => {
                    let (rx, tx) = counters(i);
                    assert(counters.ensures((i,), (rx, tx)));
                    overlay_counters(&mut diagnostics, rx, tx);
                },
            }
            assert(live_run(base, name, wg, counters, now as nat, diagnostics@));
        }
        Ok(diagnostics)
    }
}

/// A profile that is down is diagnosed from its settings alone; for one that is up the
/// counters of its interface stand in where `wg` fails.
pub proof fn law_diagnosing<W: FnOnce(&str) -> AppResult<String>, B: FnOnce(&str) -> (u64, u64)>(
    t: Seq<Step>,
    uuid: Seq<char>,
    is_active: bool,
    wg: W,
    counters: B,
    now: nat,
    text: String,
    r: AppResult<ProfileDiagnostics>,
)
    requires
        diagnostics_run(t, uuid, is_active, wg, counters, now, r),
        t.len() > 0,
        t[0] matches Step::Nmcli { args, reply } && reply == Ok::<String, AppError>(text),
    ensures
        t.len() == 1,
        t[0] matches Step::Nmcli { args, reply } && args == seq!["-s"@, "connection"@, "show"@, uuid],
        r is Ok,
        ({
            let settings = settings_in(lines_of(text@));
            let interface = match settings.interface_name {
                Some(name) => name,
                None => uuid,
            };
            let base = shown(settings, interface, is_active);
            &&& !is_active ==> r->Ok_0@ == base
            &&& is_active && (forall|i: &str, dump: AppResult<String>| #[trigger]
                wg.ensures((i,), dump) ==> dump is Err) ==> exists|j: &str, n: (u64, u64)|
                j@ == interface && #[trigger] counters.ensures((j,), n) && r->Ok_0@ == counted_in(
                    base,
                    n.0 as nat,
                    n.1 as nat,
                )
        }),
{
}

} // verus!
