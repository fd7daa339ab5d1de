use std::cell::{Cell, RefCell};

use neutron::config::{AppConfig, SplitTunnelMode};
use neutron::error::{AppError, AppResult};
use neutron::ip::IpAddr;
use neutron::nm::health::TunnelHealth;
use neutron::nm::{autoconnect, kill_switch, tunnel_routing, CliNmClient};

/// An `nmcli` that knows a few profiles and records what it is asked.
struct Nmcli {
    commands: RefCell<Vec<String>>,
    all: RefCell<String>,
    active: &'static str,
    keepalive: &'static str,
    fail: &'static str,
}

impl Nmcli {
    fn new() -> Nmcli {
        Nmcli {
            commands: RefCell::new(Vec::new()),
            all: RefCell::new(
                "zeta:uuid-z:wireguard\nhome\\:lan:uuid-h:wireguard\neth:uuid-e:802-3-ethernet"
                    .to_string(),
            ),
            active: "zeta:uuid-z:wireguard",
            keepalive: "25",
            fail: "\u{0}",
        }
    }

    fn run(&self, args: &[String]) -> AppResult<String> {
        let line = args.join(" ");
        self.commands.borrow_mut().push(line.clone());
        if line.contains(self.fail) {
            return Err(AppError::CommandFailed(format!("{line} failed")));
        }
        if line.ends_with("--active") {
            return Ok(self.active.to_string());
        }
        if line.starts_with("-t ") {
            return Ok(self.all.borrow().clone());
        }
        if line.starts_with("-g connection.interface-name") {
            return Ok("wg0".to_string());
        }
        if line.starts_with("-g wireguard.peers") {
            return Ok("KEY= endpoint=1.2.3.4\\:51820".to_string());
        }
        if line.starts_with("-g ipv6.method") {
            return Ok("auto".to_string());
        }
        if line.starts_with("-g ipv4.addresses") {
            return Ok("10.2.0.2/32, 10.3.0.2/32".to_string());
        }
        if line.starts_with("-g ipv4.dns") {
            return Ok("10.2.0.1,10.2.0.3".to_string());
        }
        if line.starts_with("-s ") {
            return Ok(format!(
                "connection.interface-name: wg0\nwireguard.peers: key endpoint=1.2.3.4:51820 persistent-keepalive={}",
                self.keepalive
            ));
        }
        if line.starts_with("connection import") {
            self.all
                .borrow_mut()
                .push_str("\nwork:uuid-w:wireguard");
            return Ok("Connection 'work' added.".to_string());
        }
        Ok(String::new())
    }

    fn ran(&self, command: &str) -> bool {
        self.commands.borrow().iter().any(|line| line == command)
    }
}

fn no_settings() -> Option<AppConfig> {
    None
}

fn resolve(_: &Vec<String>) -> Vec<IpAddr> {
    Vec::new()
}

fn absent(_: &str) -> bool {
    false
}

fn healthy(_: &str) -> TunnelHealth {
    TunnelHealth::Handshaken
}

fn dead(_: &str) -> TunnelHealth {
    TunnelHealth::NoHandshake
}

fn saved(_: &AppConfig) -> AppResult<()> {
    Ok(())
}

type Load = fn() -> Option<AppConfig>;
type Resolve = fn(&Vec<String>) -> Vec<IpAddr>;
type Exists = fn(&str) -> bool;
type Probe = fn(&str) -> TunnelHealth;
type Save = fn(&AppConfig) -> AppResult<()>;

/// A client without settings, whose tunnels are new and healthy.
fn plain<N: Fn(&[String]) -> AppResult<String>>(
    nmcli: N,
) -> CliNmClient<N, Load, Resolve, Exists, Probe, Save> {
    CliNmClient::new(nmcli, no_settings, resolve, absent, healthy, saved)
}

#[test]
fn profiles_are_listed_by_name_with_their_state() {
    let nmcli = Nmcli::new();
    let mut client = plain(|args: &[String]| nmcli.run(args));
    let list = client.list_wireguard_profiles().unwrap();
    assert_eq!(list.len(), 2);
    assert_eq!((list[0].name.as_str(), list[0].is_active()), ("home:lan", false));
    assert_eq!((list[1].name.as_str(), list[1].is_active()), ("zeta", true));
}

#[test]
fn a_line_that_is_no_connection_is_reported() {
    let nmcli = Nmcli::new();
    *nmcli.all.borrow_mut() = "only:two".to_string();
    let mut client = plain(|args: &[String]| nmcli.run(args));
    assert!(matches!(
        client.list_wireguard_profiles(),
        Err(AppError::NmParseFailed(line)) if line == "only:two"
    ));
}

#[test]
fn properties_of_a_tunnel_are_read() {
    let nmcli = Nmcli::new();
    let mut client = plain(|args: &[String]| nmcli.run(args));
    assert_eq!(client.tunnel_address("uuid-z").as_deref(), Some("10.2.0.2/32"));
    assert_eq!(client.tunnel_dns("uuid-z").as_deref(), Some("10.2.0.1, 10.2.0.3"));
    assert_eq!(client.tunnel_interface_name("uuid-z").as_deref(), Some("wg0"));
    assert!(client.profile_has_ipv6("uuid-z"));
    let tunnels = client.wireguard_tunnels().unwrap();
    assert_eq!(tunnels.len(), 2);
    assert!(!tunnels[0].is_active);
    assert!(tunnels[1].is_active);
    assert_eq!(tunnels[0].endpoints[0].host, "1.2.3.4");
}

#[test]
fn a_property_that_cannot_be_read_is_absent() {
    let mut nmcli = Nmcli::new();
    nmcli.fail = "-g ";
    let mut client = plain(|args: &[String]| nmcli.run(args));
    assert_eq!(client.tunnel_address("uuid-z"), None);
    assert_eq!(client.tunnel_dns("uuid-z"), None);
    assert_eq!(client.tunnel_interface_name("uuid-z"), None);
    assert!(!client.profile_has_ipv6("uuid-z"));
    assert!(client.wireguard_tunnels().is_err());
}

#[test]
fn connecting_prepares_brings_up_and_checks() {
    let nmcli = Nmcli::new();
    let config = || {
        let mut c = AppConfig::default();
        c.kill_switch_enabled = true;
        Some(c)
    };
    let mut client = CliNmClient::new(|args: &[String]| nmcli.run(args), config, resolve, absent, healthy, saved);
    client.connect("home:lan").unwrap();
    let pin = tunnel_routing::set_args("uuid-h", true).join(" ");
    let guard = kill_switch::set_args("uuid-h", true, true).join(" ");
    assert!(nmcli.ran(&pin));
    assert!(nmcli.ran(&guard));
    assert!(nmcli.ran("connection up uuid-h"));
    assert!(!nmcli.ran("connection down uuid-h"));
}

#[test]
fn a_tunnel_whose_peer_is_silent_is_taken_down() {
    let nmcli = Nmcli::new();
    let mut client = CliNmClient::new(|args: &[String]| nmcli.run(args), no_settings, resolve, absent, dead, saved);
    let result = client.connect("uuid-h");
    assert!(matches!(
        result,
        Err(AppError::TunnelUnhealthy(m)) if m.starts_with("wg0: the peer never completed a handshake")
    ));
    assert!(nmcli.ran("connection down uuid-h"));
}

#[test]
fn a_tunnel_on_demand_is_not_taken_down() {
    // Without keepalive no handshake need have been attempted.
    let mut nmcli = Nmcli::new();
    nmcli.keepalive = "0";
    let probes = Cell::new(0);
    let probe = |_: &str| {
        probes.set(probes.get() + 1);
        TunnelHealth::NoHandshake
    };
    let mut client = CliNmClient::new(|args: &[String]| nmcli.run(args), no_settings, resolve, absent, probe, saved);
    client.connect("uuid-h").unwrap();
    assert_eq!(probes.get(), 0);
    assert!(!nmcli.ran("connection down uuid-h"));
}

#[test]
fn a_check_that_is_off_or_an_old_interface_is_not_probed() {
    let off = || {
        let mut c = AppConfig::default();
        c.general.verify_tunnel_on_connect = false;
        Some(c)
    };
    let nmcli = Nmcli::new();
    let mut client = CliNmClient::new(|args: &[String]| nmcli.run(args), off, resolve, absent, dead, saved);
    client.connect("uuid-h").unwrap();
    let there = |_: &str| true;
    let mut client = CliNmClient::new(|args: &[String]| nmcli.run(args), no_settings, resolve, there, dead, saved);
    client.connect("uuid-h").unwrap();
    client.verify_or_disconnect("uuid-h", None, false, true).unwrap();
    assert!(!nmcli.ran("connection down uuid-h"));
}

#[test]
fn an_unknown_profile_is_not_connected() {
    let nmcli = Nmcli::new();
    let mut client = plain(|args: &[String]| nmcli.run(args));
    let result = client.connect("nobody");
    assert!(matches!(result, Err(AppError::ProfileNotFound(_))));
    assert_eq!(nmcli.commands.borrow().len(), 2);
}

#[test]
fn switching_takes_the_active_profile_down_first() {
    let nmcli = Nmcli::new();
    let mut client = plain(|args: &[String]| nmcli.run(args));
    client.switch_to("zeta").unwrap();
    assert!(!nmcli.ran("connection up uuid-z"));
    client.switch_to("home:lan").unwrap();
    let commands = nmcli.commands.borrow();
    let down = commands.iter().position(|c| c == "connection down uuid-z").unwrap();
    let up = commands.iter().position(|c| c == "connection up uuid-h").unwrap();
    assert!(down < up);
}

#[test]
fn a_profile_that_cannot_be_taken_down_stops_a_switch() {
    let mut nmcli = Nmcli::new();
    nmcli.fail = "connection down";
    let mut client = plain(|args: &[String]| nmcli.run(args));
    let result = client.switch_to("home:lan");
    assert!(matches!(result, Err(AppError::CommandFailed(_))));
    assert!(!nmcli.ran("connection up uuid-h"));
}

#[test]
fn disconnecting_needs_an_active_profile() {
    let nmcli = Nmcli::new();
    let mut client = plain(|args: &[String]| nmcli.run(args));
    client.disconnect_active().unwrap();
    assert!(nmcli.ran("connection down uuid-z"));

    let mut idle = Nmcli::new();
    idle.active = "";
    let mut client = plain(|args: &[String]| idle.run(args));
    assert!(matches!(client.disconnect_active(), Err(AppError::NoActiveProfile)));
}

#[test]
fn the_kill_switch_is_set_up_to_the_first_failure() {
    let nmcli = Nmcli::new();
    let mut client = plain(|args: &[String]| nmcli.run(args));
    client.set_kill_switch_all(true).unwrap();
    assert!(nmcli.ran(&kill_switch::set_args("uuid-h", true, true).join(" ")));
    assert!(nmcli.ran(&kill_switch::set_args("uuid-z", true, true).join(" ")));

    let mut strict = Nmcli::new();
    strict.fail = "modify uuid-h";
    let mut client = plain(|args: &[String]| strict.run(args));
    assert!(client.set_kill_switch_all(true).is_err());
    assert!(!strict.ran(&kill_switch::set_args("uuid-z", true, true).join(" ")));
}

#[test]
fn other_settings_reach_every_profile() {
    let mut nmcli = Nmcli::new();
    nmcli.fail = "modify uuid-h";
    let mut client = plain(|args: &[String]| nmcli.run(args));
    let error = client.set_autoconnect_all(false).unwrap_err();
    assert!(matches!(
        error,
        AppError::CommandFailed(m) if m.starts_with("1 of 2 profiles rejected the change: home:lan (uuid-h)")
    ));
    assert!(nmcli.ran(&autoconnect::set_args("uuid-z", false).join(" ")));
    assert!(client
        .apply_split_tunnel_all(SplitTunnelMode::Include, &["10.0.0.0/8".to_string()], &[])
        .is_err());
    assert!(nmcli
        .commands
        .borrow()
        .iter()
        .any(|c| c.starts_with("connection modify uuid-z ipv4.never-default yes")));
}

#[test]
fn an_imported_profile_is_settled_and_kept_in_the_settings() {
    let nmcli = Nmcli::new();
    let kept = RefCell::new(None);
    let load = || {
        let mut c = AppConfig::default();
        c.kill_switch_enabled = true;
        c.global_split_tunnel.mode = SplitTunnelMode::Include;
        Some(c)
    };
    let save = |c: &AppConfig| {
        *kept.borrow_mut() = c.profile_custom_info.get("uuid-w").map(str::to_string);
        Ok(())
    };
    let mut client = CliNmClient::new(|args: &[String]| nmcli.run(args), load, resolve, absent, healthy, save);
    let output = client
        .import_wireguard_profile(Some("/tmp/work.conf"), || {
            "[Interface]\n# Provider: X\n".to_string()
        })
        .unwrap();
    assert_eq!(output, "Connection 'work' added.");
    assert!(nmcli.ran("connection down uuid-w"));
    assert!(nmcli.ran(&autoconnect::set_args("uuid-w", false).join(" ")));
    assert!(nmcli.ran(&kill_switch::set_args("uuid-w", true, true).join(" ")));
    assert_eq!(kept.borrow().as_deref(), Some("Provider: X"));
}

#[test]
fn a_path_that_is_not_text_is_not_imported() {
    let nmcli = Nmcli::new();
    let mut client = plain(|args: &[String]| nmcli.run(args));
    let result = client.import_wireguard_profile(None, String::new);
    assert!(matches!(
        result,
        Err(AppError::Config(m)) if m == "import path is not valid UTF-8"
    ));
    assert!(nmcli.commands.borrow().is_empty());
}

#[test]
fn a_deleted_profile_is_forgotten() {
    let nmcli = Nmcli::new();
    let saves = Cell::new(0);
    let load = || {
        let mut c = AppConfig::default();
        c.favorite_profile_ids.insert("uuid-h".to_string());
        Some(c)
    };
    let save = |c: &AppConfig| {
        assert!(c.favorite_profile_ids.is_empty());
        saves.set(saves.get() + 1);
        Ok(())
    };
    let mut client = CliNmClient::new(|args: &[String]| nmcli.run(args), load, resolve, absent, healthy, save);
    client.delete_profile("uuid-h").unwrap();
    assert!(nmcli.ran("connection delete uuid-h"));
    assert_eq!(saves.get(), 1);
    // Nothing is kept of this one, so nothing is saved.
    client.delete_profile("uuid-z").unwrap();
    assert_eq!(saves.get(), 1);
}

#[test]
fn diagnostics_prefer_the_live_link() {
    let nmcli = Nmcli::new();
    let mut client = plain(|args: &[String]| nmcli.run(args));
    let wg = |name: &str| {
        assert_eq!(name, "wg0");
        Ok("priv\tifacekey\t51820\toff\npeer\t\t9.9.9.9:1\t10.0.0.0/8\t940\t2048\t1024\t25\n".to_string())
    };
    let counters = |_: &str| (3072, 4096);
    let live = client
        .get_profile_diagnostics("uuid-z", true, wg, counters, 1000)
        .unwrap();
    assert_eq!(live.endpoint, "9.9.9.9:1");
    assert_eq!(live.latest_handshake, "1m 0s ago");
    let missing = |_: &str| -> AppResult<String> { Err(AppError::CommandFailed("wg".to_string())) };
    let counted = client
        .get_profile_diagnostics("uuid-z", true, missing, counters, 1000)
        .unwrap();
    assert_eq!(counted.transfer_rx, "3.00 KiB");
    let idle = client
        .get_profile_diagnostics("uuid-z", false, wg, counters, 1000)
        .unwrap();
    assert_eq!(idle.latest_handshake, "Inactive (Standby)");
    assert_eq!(idle.endpoint, "1.2.3.4:51820");
}

#[test]
fn a_tunnel_is_checked_only_after_it_was_brought_up() {
    let nmcli = Nmcli::new();
    let looked = RefCell::new(Vec::new());
    let exists = |name: &str| {
        looked.borrow_mut().push((name.to_string(), nmcli.ran("connection up uuid-h")));
        false
    };
    let probed = RefCell::new(Vec::new());
    let probe = |name: &str| {
        probed.borrow_mut().push((name.to_string(), nmcli.ran("connection up uuid-h")));
        TunnelHealth::Handshaken
    };
    let mut client = CliNmClient::new(
        |args: &[String]| nmcli.run(args),
        no_settings,
        resolve,
        exists,
        probe,
        saved,
    );
    client.connect("uuid-h").unwrap();
    assert_eq!(*looked.borrow(), vec![("wg0".to_string(), false)]);
    assert_eq!(*probed.borrow(), vec![("wg0".to_string(), true)]);
}

#[test]
fn a_setting_is_given_to_every_profile_once() {
    let nmcli = Nmcli::new();
    let mut client = plain(|args: &[String]| nmcli.run(args));
    client.set_autoconnect_all(true).unwrap();
    let changes: Vec<String> = nmcli
        .commands
        .borrow()
        .iter()
        .filter(|line| line.starts_with("connection modify"))
        .cloned()
        .collect();
    assert_eq!(
        changes,
        vec![
            autoconnect::set_args("uuid-h", true).join(" "),
            autoconnect::set_args("uuid-z", true).join(" "),
        ]
    );
}
