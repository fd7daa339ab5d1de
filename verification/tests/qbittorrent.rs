use std::cell::RefCell;

use neutron::app::qbittorrent::{
    connection_lines, settings_lines, status_tunnel, status_webui, sync_command, sync_lines,
    sync_port, test_lines, test_webui, tunnel_lines, webui_lines,
};
use neutron::config::{AppConfig, PortForwardMode, QBittorrentConfig};
use neutron::error::{AppError, AppResult};
use neutron::ip::IpAddr;
use neutron::nm::health::TunnelHealth;
use neutron::nm::{CliNmClient, ProfileState, WireguardProfile};
use neutron::portforward::qbittorrent::{
    curl_args, curl_quote, extract_cookie, format_curl_timeout, parse_http_response,
    parse_preferences, parse_status_code, port_payload, preferences_from, request_config,
    HttpResponse, QBittorrentClient, QBittorrentPreferences, QBittorrentSyncReport,
    DEFAULT_TIMEOUT_MS,
};
use neutron::record::Recorder;

const SESSION_COOKIE: &str = "mock-session";
const INITIAL_LISTEN_PORT: u16 = 45678;

/// A Web UI that answers the requests that it is sent.
struct WebUi {
    requests: RefCell<Vec<String>>,
    pushed: RefCell<String>,
    guarded: bool,
}

impl WebUi {
    fn start() -> WebUi {
        WebUi {
            requests: RefCell::new(Vec::new()),
            pushed: RefCell::new(String::new()),
            guarded: false,
        }
    }

    fn reply(&self, status: &str, headers: &str, body: &str) -> AppResult<HttpResponse> {
        parse_http_response(&format!("HTTP/1.1 {status}\r\n{headers}\r\n{body}"))
    }

    fn send(&self, request: &str) -> AppResult<HttpResponse> {
        self.requests.borrow_mut().push(request.to_string());
        let url = request
            .lines()
            .find(|line| line.starts_with("url = "))
            .expect("a request has a URL")
            .to_string();
        if url.contains("auth/login") {
            let known = request.contains("\"username=admin\"")
                && request.contains("\"password=adminadmin\"");
            if !known {
                return self.reply("403 Forbidden", "", "Fails.");
            }
            let cookie = format!("Set-Cookie: SID={SESSION_COOKIE}; HttpOnly; path=/\r\n");
            return self.reply("200 OK", &cookie, "Ok.");
        }
        if self.guarded && !request.contains(&format!("Cookie: SID={SESSION_COOKIE}")) {
            return self.reply("403 Forbidden", "", "Forbidden");
        }
        if url.contains("app/version") {
            return self.reply("200 OK", "", "v5.0.3");
        }
        if url.contains("app/preferences") {
            let body = format!("{{\"listen_port\": {INITIAL_LISTEN_PORT}}}");
            return self.reply("200 OK", "", &body);
        }
        if url.contains("app/setPreferences") {
            *self.pushed.borrow_mut() = request.to_string();
            return self.reply("200 OK", "", "");
        }
        self.reply("404 Not Found", "", "")
    }
}

fn unreachable_webui(_: &str) -> AppResult<HttpResponse> {
    Err(AppError::QBittorrent("connection refused".to_string()))
}

fn config(url: &str) -> QBittorrentConfig {
    QBittorrentConfig {
        legacy_enabled: true,
        url: url.to_string(),
        username: None,
        password: None,
        bind_interface: true,
    }
}

type Load = fn() -> Option<AppConfig>;
type Resolve = fn(&Vec<String>) -> Vec<IpAddr>;
type Exists = fn(&str) -> bool;
type Probe = fn(&str) -> TunnelHealth;
type Save = fn(&AppConfig) -> AppResult<()>;

/// A client of which only `nmcli` matters.
fn client<N: Fn(&[String]) -> AppResult<String>>(
    nmcli: N,
) -> CliNmClient<N, Load, Resolve, Exists, Probe, Save> {
    CliNmClient::new(
        nmcli,
        || None,
        |_| Vec::new(),
        |_| false,
        |_| TunnelHealth::Handshaken,
        |_| Ok(()),
    )
}

#[test]
fn format_curl_timeout_handles_subsecond_and_fractional_durations() {
    assert_eq!(format_curl_timeout(500), "0.5");
    assert_eq!(format_curl_timeout(1500), "1.5");
    assert_eq!(format_curl_timeout(3000), "3");
    assert_eq!(format_curl_timeout(0), "0.001");
    assert_eq!(format_curl_timeout(1050), "1.05");
    assert_eq!(format_curl_timeout(2001), "2.001");
}

#[test]
fn parses_http_response_with_crlf() {
    let raw = "HTTP/1.1 200 OK\r\nContent-Type: text/plain\r\nSet-Cookie: SID=abc123xyz; Path=/\r\n\r\nOk.";
    let resp = parse_http_response(raw).expect("should parse");

    assert_eq!(resp.status, 200);
    assert_eq!(resp.body, "Ok.");
    assert_eq!(
        extract_cookie(&resp.headers, "SID"),
        Some("abc123xyz".to_string())
    );
}

#[test]
fn parses_http_response_with_lf_and_json() {
    let raw = "HTTP/1.1 200 OK\nContent-Type: application/json\n\n{\"listen_port\": 45678, \"current_network_interface\": \"wg0\"}";
    let resp = parse_http_response(raw).expect("should parse");

    assert_eq!(resp.status, 200);
    let parsed = parse_preferences(&resp.body).expect("valid json");
    assert_eq!(parsed.listen_port, 45678);
    assert_eq!(parsed.current_network_interface.as_deref(), Some("wg0"));
}

#[test]
fn parses_http_response_with_100_continue() {
    let raw = "HTTP/1.1 100 Continue\r\n\r\nHTTP/1.1 200 OK\r\nContent-Length: 3\r\n\r\nOk.";
    let resp = parse_http_response(raw).expect("should parse");

    assert_eq!(resp.status, 200);
    assert_eq!(resp.body, "Ok.");
}

#[test]
fn parses_error_status_code() {
    let raw = "HTTP/1.1 403 Forbidden\r\n\r\nFails.";
    let resp = parse_http_response(raw).expect("should parse");

    assert_eq!(resp.status, 403);
    assert_eq!(resp.body, "Fails.");
}

#[test]
fn replies_that_are_no_replies_are_refused() {
    assert!(matches!(
        parse_http_response(""),
        Err(AppError::QBittorrent(m)) if m == "empty response from WebUI"
    ));
    assert!(parse_http_response("no blank line").is_err());
    assert!(parse_status_code("HTTP/1.1").is_err());
    assert!(parse_status_code("HTTP/1.1 abc").is_err());
    assert_eq!(parse_status_code("HTTP/2 204").unwrap(), 204);
}

#[test]
fn an_unreachable_webui_is_not_reachable() {
    let cfg = QBittorrentConfig {
        url: "http://127.0.0.1:1".to_string(),
        ..Default::default()
    };
    let mut client = QBittorrentClient::new(&cfg).with_timeout(200);
    assert!(
        !client.reachable(&mut Recorder::new(unreachable_webui)),
        "a refused connection must not look like a live WebUI"
    );
    assert_eq!(client.timeout_ms, 200);
}

#[test]
fn client_url_formatting() {
    let cfg = QBittorrentConfig {
        url: "http://127.0.0.1:8080/".to_string(),
        username: None,
        password: None,
        ..Default::default()
    };
    let client = QBittorrentClient::new(&cfg);
    assert_eq!(
        client.endpoint_url("api/v2/app/version"),
        "http://127.0.0.1:8080/api/v2/app/version"
    );
    assert_eq!(
        client.endpoint_url("/api/v2/app/preferences"),
        "http://127.0.0.1:8080/api/v2/app/preferences"
    );
}

#[test]
fn credentials_only_enter_stdin_and_config_values_cannot_inject_options() {
    let config = request_config(
        1500,
        "http://localhost/",
        Some(&[("password", "secret\"\\\noutput = /tmp/stolen")]),
        Some("sentinel_sid"),
    )
    .unwrap();
    assert!(config.contains("max-time = 1.5"));
    assert!(config.contains("sentinel_sid"));
    assert!(!config.lines().any(|line| line.starts_with("output")));
    assert_eq!(curl_args(), ["-q", "--config", "-"]);
    assert!(request_config(
        DEFAULT_TIMEOUT_MS,
        "http://localhost/",
        None,
        Some("bad\r\nheader")
    )
    .is_err());
}

#[test]
fn a_value_is_quoted_into_one_line() {
    assert_eq!(curl_quote("plain"), "\"plain\"");
    let quoted = curl_quote("a\"b\\c\nd\re\tf");
    assert_eq!(quoted.lines().count(), 1);
    assert!(quoted.contains("\\\""));
    assert!(quoted.contains("\\n"));
}

#[test]
fn mock_webui_server_login_and_sync_port() {
    let server = WebUi::start();
    let mut send = Recorder::new(|request: &str| server.send(request));
    let base = |authenticated: bool| QBittorrentConfig {
        url: "http://127.0.0.1:8080".to_string(),
        username: authenticated.then_some("admin".to_string()),
        password: authenticated.then_some("adminadmin".to_string()),
        ..Default::default()
    };

    let mut client = QBittorrentClient::new(&base(true));
    client.login(&mut send).expect("login should succeed");
    assert_eq!(
        client.cookie.as_deref(),
        Some(SESSION_COOKIE),
        "the session cookie must be taken from Set-Cookie"
    );

    assert_eq!(
        client.app_version(&mut send).expect("version should fetch"),
        "v5.0.3"
    );

    let synced = client
        .sync_port(55432, Some("wg0"), &mut send)
        .expect("sync should succeed");
    assert_eq!(synced.previous_port, Some(INITIAL_LISTEN_PORT));
    assert_eq!(synced.new_port, 55432);
    assert_eq!(synced.bound_interface.as_deref(), Some("wg0"));
    assert!(
        server.pushed.borrow().contains("wg0"),
        "a local WebUI must be told to listen on the tunnel interface"
    );

    for interface in [None, Some(""), Some(" ")] {
        let mut client = QBittorrentClient::new(&base(false));
        let report = client
            .sync_port(55433, interface, &mut send)
            .expect("port-only sync should succeed");
        assert_eq!(report.bound_interface, None);
        let pushed = server.pushed.borrow().clone();
        assert!(
            !pushed.contains("current_network_interface"),
            "a missing interface must not be bound as a device: {pushed}"
        );
        assert!(
            pushed.contains("listen_port"),
            "the port must be applied: {pushed}"
        );
    }

    let remote = QBittorrentClient::new(&QBittorrentConfig {
        url: "http://192.168.1.50:8080".to_string(),
        ..Default::default()
    });
    assert_eq!(remote.bind_target(Some("wg0")), None);
    let forced = QBittorrentClient::new(&QBittorrentConfig {
        url: "http://192.168.1.50:8080".to_string(),
        bind_interface: true,
        ..Default::default()
    });
    assert_eq!(forced.bind_target(Some("wg0")), Some("wg0"));
}

#[test]
fn wrong_credentials_are_refused() {
    let mut server = WebUi::start();
    server.guarded = true;
    let mut send = Recorder::new(|request: &str| server.send(request));
    let cfg = QBittorrentConfig {
        username: Some("admin".to_string()),
        password: Some("wrong".to_string()),
        ..Default::default()
    };
    let mut client = QBittorrentClient::new(&cfg);
    assert!(matches!(client.login(&mut send), Err(AppError::QBittorrent(_))));
    assert_eq!(client.cookie, None);
    assert!(client.get_preferences(&mut send).is_err());
}

#[test]
fn a_session_that_lapsed_is_opened_again() {
    let mut server = WebUi::start();
    server.guarded = true;
    let mut send = Recorder::new(|request: &str| server.send(request));
    let cfg = QBittorrentConfig {
        username: Some("admin".to_string()),
        password: Some("adminadmin".to_string()),
        ..Default::default()
    };
    let mut client = QBittorrentClient::new(&cfg);
    client.cookie = Some("stale".to_string());
    assert_eq!(client.app_version(&mut send).unwrap(), "v5.0.3");
    assert_eq!(client.cookie.as_deref(), Some(SESSION_COOKIE));
}

#[test]
fn preferences_come_from_json() {
    assert_eq!(
        parse_preferences("{\"listen_port\": 70000}").unwrap().listen_port,
        preferences_from(Some(70000), None).listen_port
    );
    assert_eq!(preferences_from(Some(6881), None).listen_port, 6881);
    assert!(matches!(
        parse_preferences("not json"),
        Err(AppError::QBittorrent(_))
    ));
    assert_eq!(port_payload(51820, None), "{\"listen_port\":51820}");
    assert_eq!(
        port_payload(51820, Some("wg0")),
        "{\"current_network_interface\":\"wg0\",\"listen_port\":51820}"
    );
    // What needs escaping is escaped, and reads back.
    let odd = port_payload(1, Some("w\"g"));
    assert!(odd.contains("w\\\"g"));
    assert_eq!(
        parse_preferences(&odd).unwrap().current_network_interface.as_deref(),
        Some("w\"g")
    );
}

#[test]
fn an_unreachable_webui_is_an_error_rather_than_a_silent_no_op() {
    let result = sync_port(
        &mut client(|_: &[String]| Ok("wg0".to_string())),
        &config("http://127.0.0.1:1"),
        "uuid-1",
        51820,
        &mut Recorder::new(unreachable_webui),
    );

    assert!(
        result.is_err(),
        "an unreachable WebUI must not look like a successful push"
    );
}

#[test]
fn the_tunnels_interface_is_bound_alongside_the_port() {
    let server = WebUi::start();

    let asked = RefCell::new(Vec::new());
    let nmcli = |args: &[String]| {
        asked.borrow_mut().push(args.join(" "));
        Ok("wg0".to_string())
    };

    sync_port(
        &mut client(nmcli),
        &config("http://127.0.0.1:8080"),
        "uuid-1",
        51820,
        &mut Recorder::new(|request: &str| server.send(request)),
    )
    .expect("push should succeed");

    let pushed = server.pushed.borrow().clone();
    assert!(
        pushed.contains("wg0"),
        "the tunnel's interface must reach qBittorrent: {pushed}"
    );
    assert_eq!(
        *asked.borrow(),
        vec!["-g connection.interface-name connection show uuid-1"]
    );
}

#[test]
fn a_tunnel_without_an_interface_binds_to_none() {
    let server = WebUi::start();

    sync_port(
        &mut client(|_: &[String]| Ok("--".to_string())),
        &config("http://127.0.0.1:8080"),
        "uuid-1",
        51820,
        &mut Recorder::new(|request: &str| server.send(request)),
    )
    .expect("push should succeed");

    let pushed = server.pushed.borrow().clone();
    assert!(
        !pushed.contains("current_network_interface"),
        "a missing interface must not be bound as a device: {pushed}"
    );
    assert!(
        pushed.contains("listen_port"),
        "the port itself must still be applied: {pushed}"
    );
}

fn profile(state: ProfileState) -> WireguardProfile {
    WireguardProfile {
        name: "wg-eu".to_string(),
        uuid: "uuid-eu".to_string(),
        state,
    }
}

#[test]
fn a_synchronization_needs_a_tunnel_an_address_and_a_port() {
    let report = || {
        Ok(QBittorrentSyncReport {
            previous_port: Some(1),
            new_port: 2,
            bound_interface: None,
            app_version: None,
        })
    };
    let down = [profile(ProfileState::Inactive)];
    let up = [profile(ProfileState::Active)];
    assert!(matches!(
        sync_command(
            &down,
            |_: &str| Some("10.2.0.2".to_string()),
            |_: &str| Some(2),
            |_: &str, _: u16| report()
        ),
        Err(AppError::NoActiveProfile)
    ));
    assert!(matches!(
        sync_command(&up, |_: &str| None, |_: &str| Some(2), |_: &str, _: u16| report()),
        Err(AppError::PortForward(m)) if m == "no IPv4 address found on active tunnel"
    ));
    assert!(matches!(
        sync_command(
            &up,
            |_: &str| Some("10.2.0.2".to_string()),
            |_: &str| None,
            |_: &str, _: u16| report()
        ),
        Err(AppError::PortForward(m)) if m == "gateway did not return a forwarded port via NAT-PMP"
    ));
    let lines = sync_command(
        &up,
        |id: &str| Some(format!("address of {id}")),
        |address: &str| if address == "address of uuid-eu" { Some(2) } else { None },
        |id: &str, port: u16| {
            assert_eq!((id, port), ("uuid-eu", 2));
            report()
        },
    )
    .unwrap();
    assert_eq!(
        lines,
        vec!["qBittorrent port synchronized successfully!", "Port: 1 -> 2"]
    );
}

#[test]
fn the_state_of_the_integration_is_told() {
    let mut config = AppConfig::default();
    config.port_forwarding.mode = PortForwardMode::ForwardAndSync;
    let lines = settings_lines(&config);
    assert_eq!(lines[0], "=== qBittorrent Port Forwarding Integration ===");
    assert_eq!(lines[1], "Port Forward Mode: forward-and-sync");
    assert!(lines.contains(&"Auto-Sync:         Enabled".to_string()));
    assert!(lines.contains(&"Authentication:    None / Localhost bypass".to_string()));

    assert_eq!(
        tunnel_lines(None, false, None),
        vec!["Active WireGuard Tunnel: None (Disconnected)"]
    );
    assert_eq!(
        tunnel_lines(Some("wg-eu"), true, Some(4242)),
        vec![
            "Active WireGuard Tunnel: wg-eu",
            "Forwarded Port:    4242 (NAT-PMP Leased)",
        ]
    );
    assert_eq!(tunnel_lines(Some("wg-eu"), true, None).len(), 2);
    assert_eq!(tunnel_lines(Some("wg-eu"), false, None).len(), 1);

    let prefs = QBittorrentPreferences {
        listen_port: 6881,
        current_network_interface: Some("wg0".to_string()),
    };
    assert_eq!(
        webui_lines(&Ok("v5".to_string()), &Some(prefs.clone())),
        vec![
            "Online (qBittorrent v5)",
            "qBittorrent Listening Port:  6881",
            "qBittorrent Bound Interface: wg0",
        ]
    );
    let offline = webui_lines(&Err(AppError::QBittorrent("refused".to_string())), &None);
    assert!(offline[0].starts_with("Offline / Error ("));
    assert_eq!(offline.len(), 2);
    assert_eq!(
        test_lines("v5", &prefs),
        vec![
            "Success! Connected to qBittorrent v5.",
            "Current listening port: 6881",
            "Current network interface: wg0",
        ]
    );
    assert_eq!(
        sync_lines(&QBittorrentSyncReport {
            previous_port: None,
            new_port: 9,
            bound_interface: Some("wg0".to_string()),
            app_version: None,
        }),
        vec![
            "qBittorrent port synchronized successfully!",
            "Port: 9",
            "Bound to interface: wg0",
        ]
    );
    assert_eq!(
        connection_lines(&config.qbittorrent)[2],
        "Username:       <none>"
    );
}

#[test]
fn a_session_that_is_open_is_not_opened_again() {
    let mut server = WebUi::start();
    server.guarded = true;
    let mut send = Recorder::new(|request: &str| server.send(request));
    let cfg = QBittorrentConfig {
        username: Some("admin".to_string()),
        password: Some("adminadmin".to_string()),
        ..Default::default()
    };
    let mut client = QBittorrentClient::new(&cfg);
    client.login(&mut send).unwrap();
    client.app_version(&mut send).unwrap();
    client.get_preferences(&mut send).unwrap();
    let logins = server
        .requests
        .borrow()
        .iter()
        .filter(|request| request.contains("auth/login"))
        .count();
    assert_eq!(logins, 1);
    assert_eq!(server.requests.borrow().len(), 3);
}

#[test]
fn the_status_asks_only_what_there_is_to_ask() {
    let down = [profile(ProfileState::Inactive)];
    let up = [profile(ProfileState::Active)];
    assert_eq!(
        status_tunnel(&down, |_| panic!("no tunnel"), |_| panic!("no address")),
        vec!["Active WireGuard Tunnel: None (Disconnected)"]
    );
    assert_eq!(
        status_tunnel(&up, |_| None, |_| panic!("no address")),
        vec!["Active WireGuard Tunnel: wg-eu"]
    );
    assert_eq!(
        status_tunnel(
            &up,
            |id| Some(format!("address of {id}")),
            |address| if address == "address of uuid-eu" { Some(7) } else { None },
        ),
        vec![
            "Active WireGuard Tunnel: wg-eu",
            "Forwarded Port:    7 (NAT-PMP Leased)",
        ]
    );
}

#[test]
fn preferences_are_read_only_where_there_is_a_version() {
    let webui = config("http://127.0.0.1:8080");
    let asked = RefCell::new(0);
    let mut refused = Recorder::new(|request: &str| {
        *asked.borrow_mut() += 1;
        unreachable_webui(request)
    });
    let lines = status_webui(&webui, &mut refused);
    assert!(lines[0].starts_with("Offline / Error ("));
    assert!(test_webui(&webui, &mut refused).is_err());
    assert_eq!(*asked.borrow(), 2);

    let server = WebUi::start();
    let mut send = Recorder::new(|request: &str| server.send(request));
    assert_eq!(
        status_webui(&webui, &mut send),
        vec![
            "Online (qBittorrent v5.0.3)".to_string(),
            format!("qBittorrent Listening Port:  {INITIAL_LISTEN_PORT}"),
        ]
    );
    assert_eq!(
        test_webui(&webui, &mut send).unwrap(),
        vec![
            "Success! Connected to qBittorrent v5.0.3.".to_string(),
            format!("Current listening port: {INITIAL_LISTEN_PORT}"),
        ]
    );
}
