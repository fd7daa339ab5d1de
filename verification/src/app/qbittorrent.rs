//! Handing the forwarded port to qBittorrent, and the commands around it.

use vstd::prelude::*;
use vstd::string::*;

use crate::config::{AppConfig, PortForwardMode, QBittorrentConfig};
use crate::error::{AppError, AppResult};
use crate::ip::IpAddr;
use crate::nm::client::interface_run;
use crate::nm::health::TunnelHealth;
use crate::nm::machine::{CliNmClient, Step};
use crate::nm::profiles::{active_of, active_profile, profile_views, ProfileView, WireguardProfile};
use crate::portforward::qbittorrent::{fresh_client, json_object, preferences_run, sync_run, version_run, ClientView, Exchange, HttpResponse, QBittorrentClient, QBittorrentPreferences, QBittorrentSyncReport};
use crate::portforward::webui::{bound_to, is_base_of, law_sync_sets_the_forwarded_port, posts};
use crate::record::{lemma_part, lemma_parts, since, Recorder};
use crate::text::{decimal, decimal_string, opt_text, opt_view, trim, trimmed};

verus! {

/// Whether the steps and the exchanges hand a port over for the tunnel that leased
/// it and come to `r`: the interface that is configured for the tunnel is looked up,
/// and the port is pushed with it, or with none where none is configured.
pub open spec fn push_run(
    steps: Seq<Step>,
    exchanges: Seq<Exchange>,
    config: QBittorrentConfig,
    uuid: Seq<char>,
    port: u16,
    r: AppResult<QBittorrentSyncReport>,
) -> bool {
    exists|interface: Option<Seq<char>>, after: ClientView|
        #![trigger interface_run(steps, uuid, interface), sync_run(exchanges, fresh_client(config), after, port, interface, r)]
        interface_run(steps, uuid, interface) && sync_run(
            exchanges,
            fresh_client(config),
            after,
            port,
            interface,
            r,
        )
}

/// Hand a port to the qBittorrent of the settings, with the interface of the
/// tunnel that leased it, where it has one. `send` sends a request and reads the
/// reply.
pub fn sync_port<
    N: Fn(&[String]) -> AppResult<String>,
    L: Fn() -> Option<AppConfig>,
    V: Fn(&Vec<String>) -> Vec<IpAddr>,
    X: Fn(&str) -> bool,
    P: Fn(&str) -> TunnelHealth,
    S: Fn(&AppConfig) -> AppResult<()>,
    H: Fn(&str) -> AppResult<HttpResponse>,
>(
    client: &mut CliNmClient<N, L, V, X, P, S>,
    config: &QBittorrentConfig,
    uuid: &str,
    port: u16,
    send: &mut Recorder<str, AppResult<HttpResponse>, H>,
) -> (r: AppResult<QBittorrentSyncReport>)
    ensures
        final(client).follows(*old(client)),
        final(send).follows(*old(send)),
        push_run(
            since(old(client).taken(), final(client).taken()),
            since(old(send).calls(), final(send).calls()),
            *config,
            uuid@,
            port,
            r,
        ),
{
    let interface = client.tunnel_interface_name(uuid);
    let name = match &interface {
        Some(name) => Some(name.as_str()),
        None => None,
    };
    assert(opt_view(name) == opt_text(interface));
    let mut webui = QBittorrentClient::new(config);
    webui.sync_port(port, name, send)
}

/// A word for a setting that is on or off.
pub open spec fn enabled_word(on: bool) -> Seq<char> {
    if on {
        "Enabled"@
    } else {
        "Disabled"@
    }
}

/// A word for a setting that is on or off.
fn enabled(on: bool) -> (r: &'static str)
    ensures
        r@ == enabled_word(on),
{
    if on {
        "Enabled"
    } else {
        "Disabled"
    }
}

/// The status of the settings.
pub open spec fn settings_status(c: AppConfig) -> Seq<Seq<char>> {
    seq![
        "=== qBittorrent Port Forwarding Integration ==="@,
        "Port Forward Mode: "@ + c.port_forwarding.mode.spec_str(),
        "Auto-Sync:         "@ + enabled_word(
            c.port_forwarding.mode == PortForwardMode::ForwardAndSync,
        ),
        "WebUI URL:         "@ + c.qbittorrent.url@,
        "Authentication:    "@ + (if c.qbittorrent.username is Some {
            "Configured"@
        } else {
            "None / Localhost bypass"@
        }),
        "Interface Binding: "@ + enabled_word(c.qbittorrent.bind_interface),
        Seq::empty(),
    ]
}

/// The status of the settings, by lines.
pub fn settings_lines(config: &AppConfig) -> (r: Vec<String>)
    ensures
        r.deep_view() == settings_status(*config),
{
    let mode = config.port_forwarding.mode;
    let known = if config.qbittorrent.username.is_some() {
        "Configured"
    } else {
        "None / Localhost bypass"
    };
    let blank = String::new();
    assert(blank@ =~= Seq::<char>::empty());
    let r = vec![
        "=== qBittorrent Port Forwarding Integration ===".to_owned(),
        "Port Forward Mode: ".to_owned().concat(mode.as_str()),
        "Auto-Sync:         ".to_owned().concat(enabled(mode.syncs_to_qbittorrent())),
        "WebUI URL:         ".to_owned().concat(config.qbittorrent.url.as_str()),
        "Authentication:    ".to_owned().concat(known),
        "Interface Binding: ".to_owned().concat(enabled(config.qbittorrent.bind_interface)),
        blank,
    ];
    assert(r.deep_view() =~= settings_status(*config));
    r
}

/// The status of the tunnel: the active profile and, where it has an address, the
/// port that its gateway forwards.
pub open spec fn tunnel_status(
    active: Option<Seq<char>>,
    has_address: bool,
    port: Option<u16>,
) -> Seq<Seq<char>> {
    match active {
        Some(name) => seq!["Active WireGuard Tunnel: "@ + name] + (if has_address {
            seq![
                match port {
                    Some(p) => "Forwarded Port:    "@ + decimal(p as nat) + " (NAT-PMP Leased)"@,
                    None => "Forwarded Port:    Unavailable (NAT-PMP mapping pending or unsupported)"@,
                },
            ]
        } else {
            Seq::empty()
        }),
        None => seq!["Active WireGuard Tunnel: None (Disconnected)"@],
    }
}

/// The status of the tunnel, by lines.
pub fn tunnel_lines(active: Option<&str>, has_address: bool, port: Option<u16>) -> (r: Vec<String>)
    ensures
        r.deep_view() == tunnel_status(opt_view(active), has_address, port),
{
    let name = match active {
        Some(name) => name,
        None => {
            let r = vec!["Active WireGuard Tunnel: None (Disconnected)".to_owned()];
            assert(r.deep_view() =~= tunnel_status(None, has_address, port));
            return r;
        },
    };
    let mut r = vec!["Active WireGuard Tunnel: ".to_owned().concat(name)];
    if has_address {
        let line = match port {
            Some(p) => {
                let n = decimal_string(p as u128);
                "Forwarded Port:    ".to_owned().concat(n.as_str()).concat(" (NAT-PMP Leased)")
            },
            None => "Forwarded Port:    Unavailable (NAT-PMP mapping pending or unsupported)".to_owned(),
        };
        r.push(line);
    }
    assert(r.deep_view() =~= tunnel_status(opt_view(active), has_address, port));
    r
}

/// The status of the WebUI.
pub open spec fn webui_status(
    version: AppResult<String>,
    preferences: Option<QBittorrentPreferences>,
) -> Seq<Seq<char>> {
    match version {
        Ok(v) => seq!["Online (qBittorrent "@ + v@ + ")"@] + (match preferences {
            Some(p) => seq!["qBittorrent Listening Port:  "@ + decimal(p.listen_port as nat)] + (
            match p.current_network_interface {
                Some(i) => seq!["qBittorrent Bound Interface: "@ + i@],
                None => Seq::empty(),
            }),
            None => Seq::empty(),
        }),
        Err(e) => seq![
            "Offline / Error ("@ + e.spec_text() + ")"@,
            "Note: Ensure qBittorrent is running with Web UI enabled in Options -> Web UI."@,
        ],
    }
}

/// The status of the WebUI, by lines. The preferences are told where they could be
/// read.
pub fn webui_lines(
    version: &AppResult<String>,
    preferences: &Option<QBittorrentPreferences>,
) -> (r: Vec<String>)
    ensures
        r.deep_view() == webui_status(*version, *preferences),
{
    match version {
        Ok(v) => {
            let mut r = vec!["Online (qBittorrent ".to_owned().concat(v.as_str()).concat(")")];
            match preferences {
                Some(p) => {
                    let n = decimal_string(p.listen_port as u128);
                    r.push("qBittorrent Listening Port:  ".to_owned().concat(n.as_str()));
                    match &p.current_network_interface {
                        Some(i) => {
                            r.push(
                                "qBittorrent Bound Interface: ".to_owned().concat(i.as_str()),
                            );
                        },
                        None => {},
                    }
                },
                None => {},
            }
            assert(r.deep_view() =~= webui_status(*version, *preferences));
            r
        },
        Err(e) => {
            let why = e.text();
            let r = vec![
                "Offline / Error (".to_owned().concat(why.as_str()).concat(")"),
                "Note: Ensure qBittorrent is running with Web UI enabled in Options -> Web UI.".to_owned(),
            ];
            assert(r.deep_view() =~= webui_status(*version, *preferences));
            r
        },
    }
}

/// What is told of a successful test of the WebUI.
pub open spec fn test_status(version: Seq<char>, p: QBittorrentPreferences) -> Seq<Seq<char>> {
    seq![
        "Success! Connected to qBittorrent "@ + version + "."@,
        "Current listening port: "@ + decimal(p.listen_port as nat),
    ] + (match p.current_network_interface {
        Some(i) => seq!["Current network interface: "@ + i@],
        None => Seq::empty(),
    })
}

/// What is told of a successful test of the WebUI, by lines.
pub fn test_lines(version: &str, preferences: &QBittorrentPreferences) -> (r: Vec<String>)
    ensures
        r.deep_view() == test_status(version@, *preferences),
{
    let n = decimal_string(preferences.listen_port as u128);
    let mut r = vec![
        "Success! Connected to qBittorrent ".to_owned().concat(version).concat("."),
        "Current listening port: ".to_owned().concat(n.as_str()),
    ];
    match &preferences.current_network_interface {
        Some(i) => {
            r.push("Current network interface: ".to_owned().concat(i.as_str()));
        },
        None => {},
    }
    assert(r.deep_view() =~= test_status(version@, *preferences));
    r
}

/// What is told of a synchronization.
pub open spec fn sync_status(report: QBittorrentSyncReport) -> Seq<Seq<char>> {
    seq![
        "qBittorrent port synchronized successfully!"@,
        match report.previous_port {
            Some(old) => "Port: "@ + decimal(old as nat) + " -> "@ + decimal(
                report.new_port as nat,
            ),
            None => "Port: "@ + decimal(report.new_port as nat),
        },
    ] + (match report.bound_interface {
        Some(i) => seq!["Bound to interface: "@ + i@],
        None => Seq::empty(),
    })
}

/// What is told of a synchronization, by lines.
pub fn sync_lines(report: &QBittorrentSyncReport) -> (r: Vec<String>)
    ensures
        r.deep_view() == sync_status(*report),
{
    let now = decimal_string(report.new_port as u128);
    let line = match report.previous_port {
        Some(before) => {
            let n = decimal_string(before as u128);
            "Port: ".to_owned().concat(n.as_str()).concat(" -> ").concat(now.as_str())
        },
        None => "Port: ".to_owned().concat(now.as_str()),
    };
    let mut r = vec!["qBittorrent port synchronized successfully!".to_owned(), line];
    match &report.bound_interface {
        Some(i) => {
            r.push("Bound to interface: ".to_owned().concat(i.as_str()));
        },
        None => {},
    }
    assert(r.deep_view() =~= sync_status(*report));
    r
}

/// Whether an address of a profile was found.
pub open spec fn address_found<D: FnOnce(&str) -> Option<String>>(
    address: D,
    uuid: Seq<char>,
    found: Option<String>,
) -> bool {
    exists|id: &str| id@ == uuid && #[trigger] address.ensures((id,), found)
}

/// Whether the gateway of an address gave a port.
pub open spec fn port_found<P: FnOnce(&str) -> Option<u16>>(
    port: P,
    address: Seq<char>,
    found: Option<u16>,
) -> bool {
    exists|a: &str| a@ == address && #[trigger] port.ensures((a,), found)
}

/// Whether a port was handed over for a profile.
pub open spec fn pushed<Q: FnOnce(&str, u16) -> AppResult<QBittorrentSyncReport>>(
    push: Q,
    uuid: Seq<char>,
    port: u16,
    report: AppResult<QBittorrentSyncReport>,
) -> bool {
    exists|id: &str| id@ == uuid && #[trigger] push.ensures((id, port), report)
}

/// Whether `lines` tell the status of the tunnel, from the active profile on: its
/// address is looked up and, where it has one, its gateway is asked for the port.
pub open spec fn tunnel_told<D: FnOnce(&str) -> Option<String>, P: FnOnce(&str) -> Option<u16>>(
    active: Option<ProfileView>,
    address: D,
    port: P,
    lines: Seq<Seq<char>>,
) -> bool {
    match active {
        None => lines == tunnel_status(None, false, None),
        Some(p) => exists|a: Option<String>| #[trigger]
            address_found(address, p.uuid, a) && match a {
                None => lines == tunnel_status(Some(p.name), false, None),
                Some(addr) => exists|n: Option<u16>| #[trigger]
                    port_found(port, addr@, n) && lines == tunnel_status(Some(p.name), true, n),
            },
    }
}

/// Tell the status of the tunnel: the address of the active profile is found by
/// `address`, and its gateway is asked for the port by `port`. Each is only called
/// where the one before it gave something.
pub fn status_tunnel<D: FnOnce(&str) -> Option<String>, P: FnOnce(&str) -> Option<u16>>(
    profiles: &[WireguardProfile],
    address: D,
    port: P,
) -> (r: Vec<String>)
    requires
        active_of(profile_views(profiles@)) matches Some(p) ==> {
            &&& forall|id: &str| address.requires((id,))
            &&& forall|a: Option<String>| #[trigger]
                address_found(address, p.uuid, a) && a is Some ==> forall|t: &str|
                    port.requires((t,))
        },
    ensures
        tunnel_told(active_of(profile_views(profiles@)), address, port, r.deep_view()),
{
    let active = match active_profile(profiles) {
        Some(p) => p,
        None => {
            return tunnel_lines(None, false, None);
        },
    };
    let ghost p = active@;
    assert(active_of(profile_views(profiles@)) == Some(p));
    let id = active.uuid.as_str();
    let found = address(id);
    assert(address.ensures((id,), found));
    assert(address_found(address, p.uuid, found));
    let name = Some(active.name.as_str());
    assert(opt_view(name) == Some(p.name));
    match &found {
        Some(addr) => {
            let a = addr.as_str();
            let leased = port(a);
            assert(port.ensures((a,), leased));
            assert(port_found(port, addr@, leased));
            tunnel_lines(name, true, leased)
        },
        None => tunnel_lines(name, false, None),
    }
}

/// What is known of a result that may have failed.
pub open spec fn known<T, E>(r: Result<T, E>) -> Option<T> {
    match r {
        Ok(v) => Some(v),
        Err(_) => None,
    }
}

/// Whether the exchanges ask for the preferences and `lines` tell the status of the
/// WebUI with what is known of them.
pub open spec fn preferences_shown(
    t: Seq<Exchange>,
    session: ClientView,
    version: AppResult<String>,
    lines: Seq<Seq<char>>,
) -> bool {
    exists|after: ClientView, preferences: AppResult<QBittorrentPreferences>| #[trigger]
        preferences_run(t, session, after, preferences) && lines == webui_status(
            version,
            known(preferences),
        )
}

/// Whether the exchanges look at the WebUI of the settings and `lines` tell its
/// status: the version is asked for and, where it was given, the preferences.
pub open spec fn webui_told(
    t: Seq<Exchange>,
    config: QBittorrentConfig,
    lines: Seq<Seq<char>>,
) -> bool {
    exists|n: int, session: ClientView, version: AppResult<String>|
        0 <= n <= t.len() && #[trigger] version_run(
            t.take(n),
            fresh_client(config),
            session,
            version,
        ) && match version {
            Ok(_) => preferences_shown(t.skip(n), session, version, lines),
            Err(_) => t.len() == n && lines == webui_status(version, None),
        }
}

/// Tell the status of the WebUI of the settings.
pub fn status_webui<H: Fn(&str) -> AppResult<HttpResponse>>(
    config: &QBittorrentConfig,
    send: &mut Recorder<str, AppResult<HttpResponse>, H>,
) -> (r: Vec<String>)
    ensures
        final(send).follows(*old(send)),
        webui_told(since(old(send).calls(), final(send).calls()), *config, r.deep_view()),
{
    let ghost start = send.calls();
    let mut webui = QBittorrentClient::new(config);
    let version = webui.app_version(send);
    let ghost session = webui@;
    let ghost middle = send.calls();
    let ghost n = since(start, middle).len() as int;
    proof {
        lemma_part(start, middle);
    }
    if version.is_err() {
        let r = webui_lines(&version, &None);
        assert(version_run(
            since(start, middle).take(n),
            fresh_client(*config),
            session,
            version,
        ));
        return r;
    }
    let asked = webui.get_preferences(send);
    let ghost preferences = asked;
    let kept = match asked {
        Ok(found) => Some(found),
        Err(_) => None,
    };
    let r = webui_lines(&version, &kept);
    proof {
        lemma_parts(start, middle, send.calls());
        let t = since(start, send.calls());
        assert(version_run(t.take(n), fresh_client(*config), session, version));
        assert(preferences_run(t.skip(n), session, webui@, preferences));
        assert(preferences_shown(t.skip(n), session, version, r.deep_view()));
    }
    r
}

/// Whether the exchanges ask for the preferences and a test comes to `r`.
pub open spec fn preferences_tested(
    t: Seq<Exchange>,
    session: ClientView,
    version: Seq<char>,
    r: AppResult<Vec<String>>,
) -> bool {
    exists|after: ClientView, preferences: AppResult<QBittorrentPreferences>| #[trigger]
        preferences_run(t, session, after, preferences) && match preferences {
            Ok(p) => r matches Ok(lines) && lines.deep_view() == test_status(version, p),
            Err(e) => r == Err::<Vec<String>, AppError>(e),
        }
}

/// Whether the exchanges test the WebUI of the settings and come to `r`: the version
/// is asked for, then the preferences, and the first failure ends it.
pub open spec fn test_run(
    t: Seq<Exchange>,
    config: QBittorrentConfig,
    r: AppResult<Vec<String>>,
) -> bool {
    exists|n: int, session: ClientView, version: AppResult<String>|
        0 <= n <= t.len() && #[trigger] version_run(
            t.take(n),
            fresh_client(config),
            session,
            version,
        ) && match version {
            Ok(v) => preferences_tested(t.skip(n), session, v@, r),
            Err(e) => t.len() == n && r == Err::<Vec<String>, AppError>(e),
        }
}

/// Test the WebUI of the settings.
pub fn test_webui<H: Fn(&str) -> AppResult<HttpResponse>>(
    config: &QBittorrentConfig,
    send: &mut Recorder<str, AppResult<HttpResponse>, H>,
) -> (r: AppResult<Vec<String>>)
    ensures
        final(send).follows(*old(send)),
        test_run(since(old(send).calls(), final(send).calls()), *config, r),
{
    let ghost start = send.calls();
    let mut webui = QBittorrentClient::new(config);
    let asked = webui.app_version(send);
    let ghost version = asked;
    let ghost session = webui@;
    let ghost middle = send.calls();
    let ghost n = since(start, middle).len() as int;
    proof {
        lemma_part(start, middle);
    }
    let v = match asked {
        Ok(v) => v,
        Err(e) => {
            assert(version_run(
                since(start, middle).take(n),
                fresh_client(*config),
                session,
                version,
            ));
            return Err(e);
        },
    };
    let told = webui.get_preferences(send);
    let ghost preferences = told;
    let r: AppResult<Vec<String>> = match told {
        Ok(p) => Ok(test_lines(v.as_str(), &p)),
        Err(e) => Err(e),
    };
    proof {
        lemma_parts(start, middle, send.calls());
        let t = since(start, send.calls());
        assert(version_run(t.take(n), fresh_client(*config), session, version));
        assert(preferences_run(t.skip(n), session, webui@, preferences));
        assert(preferences_tested(t.skip(n), session, v@, r));
    }
    r
}

/// What a synchronization on command comes to, from the active profile on.
pub open spec fn sync_command_run<
    D: FnOnce(&str) -> Option<String>,
    P: FnOnce(&str) -> Option<u16>,
    Q: FnOnce(&str, u16) -> AppResult<QBittorrentSyncReport>,
>(active: Option<ProfileView>, address: D, port: P, push: Q, r: AppResult<Vec<String>>) -> bool {
    match active {
        None => r == Err::<Vec<String>, AppError>(AppError::NoActiveProfile),
        Some(p) => exists|a: Option<String>| #[trigger]
            address_found(address, p.uuid, a) && match a {
                None => r matches Err(AppError::PortForward(m)) && m@
                    == "no IPv4 address found on active tunnel"@,
                Some(addr) => exists|n: Option<u16>| #[trigger]
                    port_found(port, addr@, n) && match n {
                        None => r matches Err(AppError::PortForward(m)) && m@
                            == "gateway did not return a forwarded port via NAT-PMP"@,
                        Some(number) => exists|report: AppResult<QBittorrentSyncReport>| #[trigger]
                            pushed(push, p.uuid, number, report) && match report {
                                Ok(done) => r matches Ok(lines) && lines.deep_view() == sync_status(
                                    done,
                                ),
                                Err(e) => r == Err::<Vec<String>, AppError>(e),
                            },
                    },
            },
    }
}

/// Synchronize on command: the address of the active profile is found by
/// `address`, its gateway is asked for the port by `port`, and the port is handed
/// over by `push`. Each is only called where the one before it gave something.
pub fn sync_command<
    D: FnOnce(&str) -> Option<String>,
    P: FnOnce(&str) -> Option<u16>,
    Q: FnOnce(&str, u16) -> AppResult<QBittorrentSyncReport>,
>(profiles: &[WireguardProfile], address: D, port: P, push: Q) -> (r: AppResult<Vec<String>>)
    requires
        active_of(profile_views(profiles@)) matches Some(p) ==> {
            &&& forall|id: &str| address.requires((id,))
            &&& forall|a: Option<String>| #[trigger]
                address_found(address, p.uuid, a) && a is Some ==> {
                    &&& forall|t: &str| port.requires((t,))
                    &&& forall|n: Option<u16>| #[trigger]
                        port_found(port, a->0@, n) && n is Some ==> forall|id: &str, k: u16|
                            push.requires((id, k))
                }
        },
    ensures
        sync_command_run(active_of(profile_views(profiles@)), address, port, push, r),
{
    let active = match active_profile(profiles) {
        Some(p) => p,
        None => {
            return Err(AppError::NoActiveProfile);
        },
    };
    let ghost p = active@;
    assert(active_of(profile_views(profiles@)) == Some(p));
    let id = active.uuid.as_str();
    let found = address(id);
    assert(address.ensures((id,), found));
    assert(address_found(address, p.uuid, found));
    let addr = match found {
        Some(addr) => addr,
        None => {
            return Err(
                AppError::PortForward("no IPv4 address found on active tunnel".to_owned()),
            );
        },
    };
    let a = addr.as_str();
    let leased = port(a);
    assert(port.ensures((a,), leased));
    assert(port_found(port, addr@, leased));
    let number = match leased {
        Some(number) => number,
        None => {
            return Err(
                AppError::PortForward(
                    "gateway did not return a forwarded port via NAT-PMP".to_owned(),
                ),
            );
        },
    };
    let report = push(id, number);
    assert(push.ensures((id, number), report));
    assert(pushed(push, p.uuid, number, report));
    match report {
        Ok(done) => Ok(sync_lines(&done)),
        Err(e) => Err(e),
    }
}

/// Turn the synchronization with qBittorrent on or off. A port is forwarded either
/// way.
pub fn set_auto_sync(config: &mut AppConfig, on: bool) -> (r: &'static str)
    ensures
        *final(config) == (AppConfig {
            port_forwarding: crate::config::PortForwardConfig {
                mode: if on {
                    PortForwardMode::ForwardAndSync
                } else {
                    PortForwardMode::Forward
                },
                ..old(config).port_forwarding
            },
            ..*old(config)
        }),
        r@ == (if on {
            "qBittorrent automatic port forwarding sync enabled."@
        } else {
            "qBittorrent automatic port forwarding sync disabled (port forwarding stays on)."@
        }),
{
    if on {
        config.port_forwarding.mode = PortForwardMode::ForwardAndSync;
        "qBittorrent automatic port forwarding sync enabled."
    } else {
        config.port_forwarding.mode = PortForwardMode::Forward;
        "qBittorrent automatic port forwarding sync disabled (port forwarding stays on)."
    }
}

/// A setting after an update: unchanged without one, and none where the update is
/// blank.
pub open spec fn updated(
    before: Option<Seq<char>>,
    update: Option<Seq<char>>,
    blank: bool,
) -> Option<Seq<char>> {
    match update {
        Some(t) => if blank {
            None
        } else {
            Some(t)
        },
        None => before,
    }
}

/// Change the connection to the WebUI. What is not given stays; a user name of
/// white space and an empty password are taken away.
pub fn update_connection(
    config: &mut QBittorrentConfig,
    url: Option<String>,
    username: Option<String>,
    password: Option<String>,
    bind: Option<bool>,
)
    ensures
        final(config).url@ == match url {
            Some(u) => u@,
            None => old(config).url@,
        },
        opt_text(final(config).username) == updated(
            opt_text(old(config).username),
            opt_text(username),
            username is Some && trimmed(username->0@).len() == 0,
        ),
        opt_text(final(config).password) == updated(
            opt_text(old(config).password),
            opt_text(password),
            password is Some && password->0@.len() == 0,
        ),
        final(config).bind_interface == match bind {
            Some(b) => b,
            None => old(config).bind_interface,
        },
        final(config).legacy_enabled == old(config).legacy_enabled,
{
    match url {
        Some(u) => {
            config.url = u;
        },
        None => {},
    }
    match username {
        Some(user) => {
            if trim(user.as_str()).is_empty() {
                config.username = None;
            } else {
                config.username = Some(user);
            }
        },
        None => {},
    }
    match password {
        Some(pass) => {
            if pass.as_str().is_empty() {
                config.password = None;
            } else {
                config.password = Some(pass);
            }
        },
        None => {},
    }
    match bind {
        Some(b) => {
            config.bind_interface = b;
        },
        None => {},
    }
}

/// What is told of a changed connection. The password is not told.
pub open spec fn connection_status(c: QBittorrentConfig) -> Seq<Seq<char>> {
    seq![
        "qBittorrent configuration updated."@,
        "URL:            "@ + c.url@,
        "Username:       "@ + (match c.username {
            Some(u) => u@,
            None => "<none>"@,
        }),
        "Bind Interface: "@ + (if c.bind_interface {
            "true"@
        } else {
            "false"@
        }),
    ]
}

/// What is told of a changed connection, by lines.
pub fn connection_lines(config: &QBittorrentConfig) -> (r: Vec<String>)
    ensures
        r.deep_view() == connection_status(*config),
{
    let user = match &config.username {
        Some(u) => u.as_str(),
        None => "<none>",
    };
    let bind = if config.bind_interface { "true" } else { "false" };
    let r = vec![
        "qBittorrent configuration updated.".to_owned(),
        "URL:            ".to_owned().concat(config.url.as_str()),
        "Username:       ".to_owned().concat(user),
        "Bind Interface: ".to_owned().concat(bind),
    ];
    assert(r.deep_view() =~= connection_status(*config));
    r
}

/// A synchronization on demand that succeeds is for the profile that is up: its
/// address was asked for, then the port that is forwarded to that address, and that
/// port was handed on for that profile.
pub proof fn law_sync_command_hands_the_port_on<
    D: FnOnce(&str) -> Option<String>,
    P: FnOnce(&str) -> Option<u16>,
    Q: FnOnce(&str, u16) -> AppResult<QBittorrentSyncReport>,
>(active: Option<ProfileView>, address: D, port: P, push: Q, r: AppResult<Vec<String>>)
    requires
        sync_command_run(active, address, port, push, r),
        r is Ok,
    ensures
        active is Some,
        exists|found: Option<String>, number: Option<u16>, report: AppResult<QBittorrentSyncReport>|
            #![trigger address_found(address, active->0.uuid, found), port_found(port, found->0@, number), pushed(push, active->0.uuid, number->0, report)]
            found is Some && number is Some && address_found(address, active->0.uuid, found)
                && port_found(port, found->0@, number) && pushed(
                push,
                active->0.uuid,
                number->0,
                report,
            ) && report is Ok,
{
    let p = active->0;
    let a = choose|a: Option<String>| #[trigger]
        address_found(address, p.uuid, a) && match a {
            None => r matches Err(AppError::PortForward(m)) && m@
                == "no IPv4 address found on active tunnel"@,
            Some(addr) => exists|n: Option<u16>| #[trigger]
                port_found(port, addr@, n) && match n {
                    None => r matches Err(AppError::PortForward(m)) && m@
                        == "gateway did not return a forwarded port via NAT-PMP"@,
                    Some(number) => exists|report: AppResult<QBittorrentSyncReport>| #[trigger]
                        pushed(push, p.uuid, number, report) && match report {
                            Ok(done) => r matches Ok(lines) && lines.deep_view() == sync_status(
                                done,
                            ),
                            Err(e) => r == Err::<Vec<String>, AppError>(e),
                        },
                },
        };
    let addr = a->0;
    let n = choose|n: Option<u16>| #[trigger]
        port_found(port, addr@, n) && match n {
            None => r matches Err(AppError::PortForward(m)) && m@
                == "gateway did not return a forwarded port via NAT-PMP"@,
            Some(number) => exists|report: AppResult<QBittorrentSyncReport>| #[trigger]
                pushed(push, p.uuid, number, report) && match report {
                    Ok(done) => r matches Ok(lines) && lines.deep_view() == sync_status(done),
                    Err(e) => r == Err::<Vec<String>, AppError>(e),
                },
        };
    let number = n->0;
    let report = choose|report: AppResult<QBittorrentSyncReport>| #[trigger]
        pushed(push, p.uuid, number, report) && match report {
            Ok(done) => r matches Ok(lines) && lines.deep_view() == sync_status(done),
            Err(e) => r == Err::<Vec<String>, AppError>(e),
        };
    assert(address_found(address, active->0.uuid, a));
    assert(port_found(port, a->0@, n));
    assert(pushed(push, active->0.uuid, n->0, report));
}

/// A setting stays where no update is given, goes where a blank one is, and is the
/// update otherwise.
pub proof fn law_updates(before: Option<Seq<char>>, update: Seq<char>, blank: bool)
    ensures
        updated(before, None, blank) == before,
        updated(before, Some(update), true) is None,
        updated(before, Some(update), false) == Some(update),
{
}

/// A leased port that was handed over is the port that the last request sets, with the
/// interface of the tunnel that leased it.
pub proof fn law_leased_port_is_handed_over(
    steps: Seq<Step>,
    exchanges: Seq<Exchange>,
    config: QBittorrentConfig,
    uuid: Seq<char>,
    port: u16,
    report: QBittorrentSyncReport,
)
    requires
        push_run(
            steps,
            exchanges,
            config,
            uuid,
            port,
            Ok::<QBittorrentSyncReport, AppError>(report),
        ),
    ensures
        report.new_port == port,
        exchanges.len() > 0,
        exists|interface: Option<Seq<char>>, base: Seq<char>|
            #![trigger interface_run(steps, uuid, interface), is_base_of(base, config.url@)]
            interface_run(steps, uuid, interface) && is_base_of(base, config.url@) && posts(
                exchanges.last().0,
                base + "/api/v2/app/setPreferences"@,
                "json"@,
                json_object(
                    "listen_port"@,
                    port,
                    "current_network_interface"@,
                    bound_to(config, interface),
                ),
            ),
{
    let r = Ok::<QBittorrentSyncReport, AppError>(report);
    let (interface, after) = choose|interface: Option<Seq<char>>, after: ClientView|
        #![trigger interface_run(steps, uuid, interface), sync_run(exchanges, fresh_client(config), after, port, interface, r)]
        interface_run(steps, uuid, interface) && sync_run(
            exchanges,
            fresh_client(config),
            after,
            port,
            interface,
            r,
        );
    law_sync_sets_the_forwarded_port(exchanges, config, after, port, interface, report);
}

} // verus!
