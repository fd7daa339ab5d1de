use std::cell::RefCell;

use neutron::app::split_command::handle_split_tunnel_command;
use neutron::app::commands::SplitTunnelCommands;
use neutron::app::split_tunnel::{
    add_cidr, add_domain, add_global_cidr, add_global_domain,
    apply_and_persist_global_split_tunnel, clear_global, format_global_status,
    get_global_split_tunnel, remove_cidr, remove_domain, remove_global_cidr,
    remove_global_domain, set_global_mode,
};
use neutron::config::{AppConfig, SplitTunnelConfig, SplitTunnelMode};
use neutron::error::{AppError, AppResult};
use neutron::ip::IpAddr;

/// The settings file and the client, in memory.
struct Store {
    config: RefCell<AppConfig>,
    calls: RefCell<Vec<(SplitTunnelMode, Vec<String>, Vec<String>)>>,
    fail_apply: bool,
}

impl Store {
    fn new() -> Store {
        Store {
            config: RefCell::new(AppConfig::default()),
            calls: RefCell::new(Vec::new()),
            fail_apply: false,
        }
    }

    fn current(&self) -> SplitTunnelConfig {
        get_global_split_tunnel(&self.config.borrow())
    }

    fn apply(&self, mode: SplitTunnelMode, v4: &Vec<String>, v6: &Vec<String>) -> AppResult<()> {
        self.calls.borrow_mut().push((mode, v4.clone(), v6.clone()));
        if self.fail_apply {
            return Err(AppError::CommandFailed("boom".to_string()));
        }
        Ok(())
    }

    fn save(&self, st_cfg: &SplitTunnelConfig) -> AppResult<()> {
        self.config.borrow_mut().global_split_tunnel = st_cfg.clone();
        Ok(())
    }
}

fn resolve(domains: &Vec<String>) -> Vec<IpAddr> {
    let mut addresses = Vec::new();
    for domain in domains {
        if domain == "localhost" {
            addresses.push(IpAddr::V4(0x7f00_0001));
        }
        if domain == "ip6-localhost" {
            addresses.push(IpAddr::V6(1));
        }
    }
    addresses
}

#[test]
fn global_apply_and_persist_handles_include_mode() {
    let store = Store::new();

    let st_cfg = SplitTunnelConfig {
        mode: SplitTunnelMode::Include,
        cidrs: vec!["10.0.0.0/8".to_string()],
        domains: vec!["localhost".to_string()],
    };

    apply_and_persist_global_split_tunnel(
        &st_cfg,
        &resolve,
        |m, v4, v6| store.apply(m, v4, v6),
        |c| store.save(c),
    )
    .unwrap();

    let saved = store.current();
    assert_eq!(saved.mode, SplitTunnelMode::Include);
    assert_eq!(saved.cidrs, vec!["10.0.0.0/8".to_string()]);
    assert_eq!(saved.domains, vec!["localhost".to_string()]);

    assert_eq!(store.calls.borrow().len(), 1);

    // Add CIDR
    let (st_cfg, changed) = add_global_cidr(
        store.current(),
        "192.168.1.0/24",
        &resolve,
        |m, v4, v6| store.apply(m, v4, v6),
        |c| store.save(c),
    )
    .unwrap();
    assert!(changed);
    assert_eq!(st_cfg.cidrs.len(), 2);

    // Add duplicate CIDR (no change)
    let (st_cfg, changed) = add_global_cidr(
        store.current(),
        "192.168.1.0/24",
        &resolve,
        |m, v4, v6| store.apply(m, v4, v6),
        |c| store.save(c),
    )
    .unwrap();
    assert!(!changed);
    assert_eq!(st_cfg.cidrs.len(), 2);

    // Remove CIDR
    let (st_cfg, changed) = remove_global_cidr(
        store.current(),
        "10.0.0.0/8",
        &resolve,
        |m, v4, v6| store.apply(m, v4, v6),
        |c| store.save(c),
    )
    .unwrap();
    assert!(changed);
    assert_eq!(st_cfg.cidrs, vec!["192.168.1.0/24".to_string()]);

    // Remove non-existent CIDR (no change)
    let (st_cfg, changed) = remove_global_cidr(
        store.current(),
        "10.0.0.0/8",
        &resolve,
        |m, v4, v6| store.apply(m, v4, v6),
        |c| store.save(c),
    )
    .unwrap();
    assert!(!changed);
    assert_eq!(st_cfg.cidrs, vec!["192.168.1.0/24".to_string()]);

    // Add Domain
    let (st_cfg, changed) = add_global_domain(
        store.current(),
        "ip6-localhost",
        &resolve,
        |m, v4, v6| store.apply(m, v4, v6),
        |c| store.save(c),
    )
    .unwrap();
    assert!(changed);
    assert!(st_cfg.domains.contains(&"ip6-localhost".to_string()));

    // Add duplicate Domain (no change)
    let (_st_cfg, changed) = add_global_domain(
        store.current(),
        "ip6-localhost",
        &resolve,
        |m, v4, v6| store.apply(m, v4, v6),
        |c| store.save(c),
    )
    .unwrap();
    assert!(!changed);

    // Remove Domain
    let (st_cfg, changed) = remove_global_domain(
        store.current(),
        "localhost",
        &resolve,
        |m, v4, v6| store.apply(m, v4, v6),
        |c| store.save(c),
    )
    .unwrap();
    assert!(changed);
    assert_eq!(st_cfg.domains, vec!["ip6-localhost".to_string()]);

    // Remove non-existent Domain (no change)
    let (st_cfg, changed) = remove_global_domain(
        store.current(),
        "localhost",
        &resolve,
        |m, v4, v6| store.apply(m, v4, v6),
        |c| store.save(c),
    )
    .unwrap();
    assert!(!changed);
    assert_eq!(st_cfg.domains, vec!["ip6-localhost".to_string()]);

    // Clear
    clear_global(
        &resolve,
        |m, v4, v6| store.apply(m, v4, v6),
        |c| store.save(c),
    )
    .unwrap();
    assert_eq!(
        store.config.borrow().global_split_tunnel.mode,
        SplitTunnelMode::Disabled
    );
}

#[test]
fn format_global_status_output() {
    let st_cfg = SplitTunnelConfig {
        mode: SplitTunnelMode::Include,
        cidrs: vec!["10.0.0.0/8".to_string()],
        domains: vec!["example.com".to_string()],
    };
    let status = format_global_status(&st_cfg);
    assert!(status.contains("Global Split Tunneling"));
    assert!(status.contains("include"));
    assert!(status.contains("10.0.0.0/8"));
    assert!(status.contains("example.com"));
}

#[test]
fn applied_routes_are_those_of_the_settings() {
    let store = Store::new();
    let st_cfg = SplitTunnelConfig {
        mode: SplitTunnelMode::Include,
        cidrs: vec!["10.1.2.3/8".to_string()],
        domains: vec!["localhost".to_string(), "ip6-localhost".to_string()],
    };
    apply_and_persist_global_split_tunnel(
        &st_cfg,
        &resolve,
        |m, v4, v6| store.apply(m, v4, v6),
        |c| store.save(c),
    )
    .unwrap();
    let calls = store.calls.borrow();
    assert_eq!(calls[0].0, SplitTunnelMode::Include);
    assert_eq!(calls[0].1, vec!["10.0.0.0/8", "127.0.0.1/32"]);
    assert_eq!(calls[0].2, vec!["::1/128"]);
}

#[test]
fn settings_that_cannot_be_applied_are_not_saved() {
    let mut store = Store::new();
    store.fail_apply = true;
    let result = set_global_mode(
        store.current(),
        SplitTunnelMode::Exclude,
        &resolve,
        |m, v4, v6| store.apply(m, v4, v6),
        |c| store.save(c),
    );
    assert!(matches!(result, Err(AppError::CommandFailed(_))));
    assert_eq!(store.current().mode, SplitTunnelMode::Disabled);
}

#[test]
fn a_change_that_changes_nothing_is_not_applied() {
    let store = Store::new();
    let (_, changed) = remove_global_cidr(
        store.current(),
        "10.0.0.0/8",
        &resolve,
        |m, v4, v6| store.apply(m, v4, v6),
        |c| store.save(c),
    )
    .unwrap();
    assert!(!changed);
    assert!(store.calls.borrow().is_empty());
}

#[test]
fn invalid_blocks_and_domains_are_refused() {
    let mut st_cfg = AppConfig::default().global_split_tunnel;
    assert!(matches!(add_cidr(&mut st_cfg, "nonsense"), Err(AppError::Config(_))));
    assert!(matches!(add_domain(&mut st_cfg, "  "), Err(AppError::Config(m)) if m == "domain cannot be empty"));
    assert_eq!(st_cfg, AppConfig::default().global_split_tunnel);
}

#[test]
fn what_was_added_can_be_removed() {
    let mut st_cfg = AppConfig::default().global_split_tunnel;
    assert!(add_cidr(&mut st_cfg, "192.168.1.77/24").unwrap());
    assert_eq!(st_cfg.cidrs, vec!["192.168.1.0/24"]);
    assert!(!add_cidr(&mut st_cfg, "192.168.1.0/24").unwrap());
    assert!(remove_cidr(&mut st_cfg, "192.168.1.99/24"));
    assert!(st_cfg.cidrs.is_empty());
    assert!(add_domain(&mut st_cfg, " Example.COM ").unwrap());
    assert_eq!(st_cfg.domains, vec!["example.com"]);
    assert!(remove_domain(&mut st_cfg, "EXAMPLE.com"));
    assert!(st_cfg.domains.is_empty());
}

fn command(store: &Store, command: &SplitTunnelCommands) -> AppResult<String> {
    handle_split_tunnel_command(
        command,
        store.current(),
        &resolve,
        |m, v4, v6| store.apply(m, v4, v6),
        |c| store.save(c),
    )
}

#[test]
fn split_tunnel_commands_flow() {
    let store = Store::new();

    // 1. Set mode to include
    command(
        &store,
        &SplitTunnelCommands::SetMode {
            mode: "include".to_string(),
        },
    )
    .expect("set mode should succeed");

    let calls: Vec<String> = store
        .calls
        .borrow()
        .iter()
        .map(|(mode, v4, v6)| {
            format!("split-tunnel-all:{}:{}:{}", mode.as_str(), v4.len(), v6.len())
        })
        .collect();
    assert_eq!(calls, vec!["split-tunnel-all:include:0:0"]);

    // 2. Add CIDR
    command(
        &store,
        &SplitTunnelCommands::AddCidr {
            cidr: "10.0.0.0/8".to_string(),
        },
    )
    .expect("add cidr should succeed");

    assert_eq!(store.current().mode, SplitTunnelMode::Include);
    assert_eq!(store.current().cidrs, vec!["10.0.0.0/8".to_string()]);

    // 3. Status check
    command(&store, &SplitTunnelCommands::Status).expect("status check should succeed");

    // 4. Clear
    command(&store, &SplitTunnelCommands::Clear).expect("clear should succeed");

    assert_eq!(store.current().mode, SplitTunnelMode::Disabled);
}

#[test]
fn an_unknown_mode_is_refused_and_changes_nothing() {
    let store = Store::new();
    let result = command(
        &store,
        &SplitTunnelCommands::SetMode {
            mode: "sideways".to_string(),
        },
    );
    assert!(matches!(result, Err(AppError::Config(_))));
    assert!(store.calls.borrow().is_empty());
}

#[test]
fn split_tunnel_commands_tell_what_they_did() {
    let store = Store::new();
    let mode = SplitTunnelCommands::SetMode {
        mode: "exclude".to_string(),
    };
    assert_eq!(
        command(&store, &mode).unwrap(),
        "Global split-tunnel mode set to: exclude"
    );
    let add = SplitTunnelCommands::AddDomain {
        domain: "localhost".to_string(),
    };
    let first = command(&store, &add).unwrap();
    let second = command(&store, &add).unwrap();
    assert_ne!(first, second);
    assert!(first.contains("localhost"));
    let remove = SplitTunnelCommands::RemoveDomain {
        domain: "localhost".to_string(),
    };
    command(&store, &remove).unwrap();
    assert!(store.current().domains.is_empty());
    let take = SplitTunnelCommands::RemoveCidr {
        cidr: "10.0.0.0/8".to_string(),
    };
    command(&store, &take).unwrap();
}
