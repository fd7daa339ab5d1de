use std::cell::RefCell;

use neutron::app::commands::{
    change_eligibility, change_favorite, handle_kill_switch_command, handle_lockdown_command,
    list_excluded, list_favorites, resolve_profile_id, Cli, Commands, PolicyCommands,
};
use neutron::app::policy::{put_policy, save_policy};
use neutron::app::processes::{processes_to_terminate, ProcessEntry};
use neutron::app::profile_list::{build_rows, format_cli_row};
use neutron::app::qbittorrent::{set_auto_sync, update_connection};
use neutron::app::{
    apply_and_save_policy, rebuild_lockdown_if_enabled, set_global_kill_switch,
    set_global_lockdown, should_terminate_process,
};
use neutron::config::{AppConfig, PortForwardMode};
use neutron::error::{AppError, AppResult, Policy};
use neutron::nm::{ProfileState, WireguardProfile, WireguardTunnel};

fn profile(name: &str, uuid: &str) -> WireguardProfile {
    WireguardProfile {
        name: name.to_string(),
        uuid: uuid.to_string(),
        state: ProfileState::Inactive,
    }
}

/// The settings and the client, in memory.
struct Machine {
    config: RefCell<AppConfig>,
    kill_switch_calls: RefCell<Vec<&'static str>>,
    lockdown_calls: RefCell<Vec<&'static str>>,
    installed: RefCell<Vec<WireguardTunnel>>,
    fail_kill_switch: bool,
    fail_lockdown: bool,
    fail_save: bool,
}

impl Machine {
    fn new() -> Machine {
        Machine {
            config: RefCell::new(AppConfig::default()),
            kill_switch_calls: RefCell::new(Vec::new()),
            lockdown_calls: RefCell::new(Vec::new()),
            installed: RefCell::new(Vec::new()),
            fail_kill_switch: false,
            fail_lockdown: false,
            fail_save: false,
        }
    }

    fn with_kill_switch(self, on: bool) -> Machine {
        self.config.borrow_mut().kill_switch_enabled = on;
        self
    }

    fn with_lockdown(self, on: bool) -> Machine {
        self.config.borrow_mut().lockdown_enabled = on;
        self
    }

    fn load(&self) -> AppResult<AppConfig> {
        Ok(self.config.borrow().clone())
    }

    fn apply_kill_switch(&self, on: bool) -> AppResult<()> {
        self.kill_switch_calls
            .borrow_mut()
            .push(if on { "kill-switch-all:on" } else { "kill-switch-all:off" });
        if self.fail_kill_switch {
            return Err(AppError::CommandFailed("nmcli".to_string()));
        }
        Ok(())
    }

    fn store(&self, config: &AppConfig) -> AppResult<()> {
        if self.fail_save {
            return Err(AppError::Io("read-only".to_string()));
        }
        *self.config.borrow_mut() = config.clone();
        Ok(())
    }

    fn tunnels(&self) -> AppResult<Vec<WireguardTunnel>> {
        Ok(vec![WireguardTunnel {
            interface: Some("wg0".to_string()),
            endpoints: Vec::new(),
            is_active: true,
        }])
    }

    fn change_firewall(&self, call: &'static str) -> AppResult<()> {
        self.lockdown_calls.borrow_mut().push(call);
        if self.fail_lockdown {
            return Err(AppError::Firewall("rejected".to_string()));
        }
        Ok(())
    }

    fn install(&self, tunnels: &Vec<WireguardTunnel>) -> AppResult<()> {
        *self.installed.borrow_mut() = tunnels.clone();
        self.change_firewall("lockdown:on")
    }

    fn remove(&self) -> AppResult<()> {
        self.change_firewall("lockdown:teardown:rules")
    }

    fn refresh(&self) -> AppResult<()> {
        self.lockdown_calls.borrow_mut().push("lockdown:refresh");
        Ok(())
    }

    fn kill_switch(&self, command: PolicyCommands) -> AppResult<String> {
        handle_kill_switch_command(
            command,
            Ok(()),
            |on| self.apply_kill_switch(on),
            || self.load(),
            |config| self.store(config),
        )
    }

    fn lockdown(&self, command: PolicyCommands) -> AppResult<String> {
        handle_lockdown_command(
            command,
            Ok(()),
            || self.tunnels(),
            |tunnels| self.install(tunnels),
            || self.remove(),
            || self.load(),
            |config| self.store(config),
        )
    }

    fn set_lockdown(&self, on: bool, lock: AppResult<()>) -> AppResult<()> {
        set_global_lockdown(
            on,
            lock,
            || self.tunnels(),
            |tunnels| self.install(tunnels),
            || self.remove(),
            || self.load(),
            |config| self.store(config),
        )
    }
}

#[test]
fn resolves_uuid_identifier_directly() {
    let profiles = vec![profile("wg-us", "uuid-1")];

    let resolved = resolve_profile_id(&profiles, "uuid-1").expect("uuid should resolve");

    assert_eq!(resolved, "uuid-1");
}

#[test]
fn resolves_unique_name_to_uuid() {
    let profiles = vec![profile("wg-us", "uuid-1"), profile("wg-eu", "uuid-2")];

    let resolved = resolve_profile_id(&profiles, "wg-eu").expect("name should resolve");

    assert_eq!(resolved, "uuid-2");
}

#[test]
fn returns_ambiguous_error_for_duplicate_names() {
    let profiles = vec![profile("wg-us", "uuid-1"), profile("wg-us", "uuid-2")];

    let result = resolve_profile_id(&profiles, "wg-us");

    assert!(matches!(
        result,
        Err(AppError::AmbiguousProfileName(name)) if name == "wg-us"
    ));
}

#[test]
fn returns_not_found_for_missing_identifier() {
    let profiles = vec![profile("wg-us", "uuid-1")];

    let result = resolve_profile_id(&profiles, "wg-eu");

    assert!(matches!(result, Err(AppError::ProfileNotFound(name)) if name == "wg-eu"));
}

#[test]
fn cli_subcommand_routing() {
    let cli = Cli {
        command: Some(Commands::List),
    };
    assert!(matches!(cli.command, Some(Commands::List)));
    let rows = build_rows(
        &[profile("wg-us", "uuid-1")],
        &AppConfig::default().excluded_profile_ids,
    );
    let lines: Vec<String> = rows.iter().map(format_cli_row).collect();
    assert_eq!(lines, vec!["wg-us [inactive] eligible"]);
}

#[test]
fn termination_selection_excludes_self_system_and_unrelated_processes() {
    for (pid, same_binary, neutron_comm, expected) in [
        (0, true, true, false),
        (1, true, true, false),
        (42, true, true, false),
        (43, false, false, false),
        (43, true, false, true),
        (43, false, true, true),
    ] {
        assert_eq!(
            should_terminate_process(pid, 42, same_binary, neutron_comm),
            expected
        );
    }
}

#[test]
fn processes_are_picked_from_the_list_of_the_system() {
    let entry = |name: &str, same: bool, comm: Option<&str>| ProcessEntry {
        entry: name.to_string(),
        is_same_binary: same,
        comm: comm.map(|c| c.to_string()),
    };
    let entries = vec![
        entry("self", true, None),
        entry("42", true, Some("neutron\n")),
        entry("43", false, Some(" neutron\n")),
        entry("44", false, Some("neutrons\n")),
        entry("45", true, None),
        entry("4294967296", true, None),
        entry("1", true, None),
    ];
    assert_eq!(processes_to_terminate(&entries, 42), vec![43, 45]);
}

#[test]
fn kill_switch_enable_applies_globally_and_persists() {
    let machine = Machine::new();

    machine
        .kill_switch(PolicyCommands::Enable)
        .expect("enable should succeed");

    assert_eq!(*machine.kill_switch_calls.borrow(), vec!["kill-switch-all:on"]);
    assert!(machine.config.borrow().kill_switch_enabled);
}

#[test]
fn kill_switch_disable_applies_globally_and_persists() {
    let machine = Machine::new().with_kill_switch(true);

    machine
        .kill_switch(PolicyCommands::Disable)
        .expect("disable should succeed");

    assert_eq!(*machine.kill_switch_calls.borrow(), vec!["kill-switch-all:off"]);
    assert!(!machine.config.borrow().kill_switch_enabled);
}

#[test]
fn kill_switch_status_does_not_change_nm_or_config() {
    let machine = Machine::new().with_kill_switch(true);

    let line = machine
        .kill_switch(PolicyCommands::Status)
        .expect("status should succeed");

    assert_eq!(line, "Kill switch (all profiles): on");
    assert!(machine.kill_switch_calls.borrow().is_empty());
    assert!(machine.config.borrow().kill_switch_enabled);
}

#[test]
fn kill_switch_status_defaults_to_off_without_config() {
    let machine = Machine::new();

    let line = machine
        .kill_switch(PolicyCommands::Status)
        .expect("status should succeed with default config");

    assert_eq!(line, "Kill switch (all profiles): off");
    assert!(machine.kill_switch_calls.borrow().is_empty());
}

#[test]
fn kill_switch_enable_does_not_persist_when_nm_fails() {
    let mut machine = Machine::new();
    machine.fail_kill_switch = true;

    let result = machine.kill_switch(PolicyCommands::Enable);

    assert!(matches!(
        result,
        Err(AppError::PolicyUpdate {
            policy: Policy::KillSwitch,
            ..
        })
    ));
    assert_eq!(*machine.kill_switch_calls.borrow(), vec!["kill-switch-all:on"]);
    assert!(!machine.config.borrow().kill_switch_enabled);
}

#[test]
fn kill_switch_disable_keeps_previous_state_when_nm_fails() {
    let mut machine = Machine::new().with_kill_switch(true);
    machine.fail_kill_switch = true;

    let result = machine.kill_switch(PolicyCommands::Disable);

    assert!(matches!(
        result,
        Err(AppError::PolicyUpdate {
            policy: Policy::KillSwitch,
            ..
        })
    ));
    assert!(machine.config.borrow().kill_switch_enabled);
}

#[test]
fn kill_switch_enable_then_disable_round_trips_state() {
    let machine = Machine::new();

    machine
        .kill_switch(PolicyCommands::Enable)
        .expect("enable should succeed");
    assert!(machine.config.borrow().kill_switch_enabled);

    machine
        .kill_switch(PolicyCommands::Disable)
        .expect("disable should succeed");
    assert!(!machine.config.borrow().kill_switch_enabled);

    assert_eq!(
        *machine.kill_switch_calls.borrow(),
        vec!["kill-switch-all:on", "kill-switch-all:off"]
    );
}

#[test]
fn lockdown_enable_applies_and_persists() {
    let machine = Machine::new();

    machine
        .lockdown(PolicyCommands::Enable)
        .expect("enable should succeed");

    assert_eq!(*machine.lockdown_calls.borrow(), vec!["lockdown:on"]);
    assert!(machine.config.borrow().lockdown_enabled);
}

#[test]
fn rebuild_lockdown_reapplies_rules_when_lockdown_is_on() {
    let machine = Machine::new().with_lockdown(true);

    rebuild_lockdown_if_enabled(|| machine.load(), || machine.refresh())
        .expect("rebuild should succeed");

    assert_eq!(*machine.lockdown_calls.borrow(), vec!["lockdown:refresh"]);
}

#[test]
fn rebuild_lockdown_does_nothing_when_lockdown_is_off() {
    let machine = Machine::new();

    rebuild_lockdown_if_enabled(|| machine.load(), || machine.refresh())
        .expect("rebuild should succeed");

    assert!(machine.lockdown_calls.borrow().is_empty());
}

#[test]
fn settings_that_cannot_be_read_stop_a_rebuild() {
    let machine = Machine::new();
    let result = rebuild_lockdown_if_enabled(
        || Err(AppError::TomlDe("bad".to_string())),
        || machine.refresh(),
    );
    assert!(matches!(result, Err(AppError::TomlDe(_))));
    assert!(machine.lockdown_calls.borrow().is_empty());
}

#[test]
fn lockdown_disable_applies_and_persists() {
    let machine = Machine::new().with_lockdown(true);

    machine
        .lockdown(PolicyCommands::Disable)
        .expect("disable should succeed");

    assert_eq!(
        *machine.lockdown_calls.borrow(),
        vec!["lockdown:teardown:rules"]
    );
    assert!(!machine.config.borrow().lockdown_enabled);
}

#[test]
fn lockdown_status_does_not_change_firewall_or_config() {
    let machine = Machine::new().with_lockdown(true);

    machine
        .lockdown(PolicyCommands::Status)
        .expect("status should succeed");

    assert!(machine.lockdown_calls.borrow().is_empty());
    assert!(machine.config.borrow().lockdown_enabled);
}

#[test]
fn lockdown_status_defaults_to_off_without_config() {
    let machine = Machine::new();

    let line = machine
        .lockdown(PolicyCommands::Status)
        .expect("status should succeed with default config");

    assert!(line.contains("intent: off"), "{line}");
    assert!(machine.lockdown_calls.borrow().is_empty());
}

#[test]
fn lockdown_enable_does_not_persist_when_firewall_fails() {
    let mut machine = Machine::new();
    machine.fail_lockdown = true;

    let result = machine.lockdown(PolicyCommands::Enable);

    assert!(matches!(
        result,
        Err(AppError::PolicyUpdate {
            policy: Policy::Lockdown,
            ..
        })
    ));
    assert_eq!(*machine.lockdown_calls.borrow(), vec!["lockdown:on"]);
    assert!(!machine.config.borrow().lockdown_enabled);
}

#[test]
fn lockdown_disable_keeps_previous_state_when_firewall_fails() {
    let mut machine = Machine::new().with_lockdown(true);
    machine.fail_lockdown = true;

    let result = machine.lockdown(PolicyCommands::Disable);

    assert!(matches!(
        result,
        Err(AppError::PolicyUpdate {
            policy: Policy::Lockdown,
            ..
        })
    ));
    assert!(machine.config.borrow().lockdown_enabled);
}

#[test]
fn lockdown_enable_then_disable_round_trips_state() {
    let machine = Machine::new();

    machine
        .lockdown(PolicyCommands::Enable)
        .expect("enable should succeed");
    assert!(machine.config.borrow().lockdown_enabled);

    machine
        .lockdown(PolicyCommands::Disable)
        .expect("disable should succeed");
    assert!(!machine.config.borrow().lockdown_enabled);

    assert_eq!(
        *machine.lockdown_calls.borrow(),
        vec!["lockdown:on", "lockdown:teardown:rules"]
    );
}

#[test]
fn policy_success_then_save_failure_reports_uncertain_state() {
    let mut machine = Machine::new().with_lockdown(true);
    machine.fail_save = true;
    let error = machine.set_lockdown(false, Ok(())).unwrap_err();
    assert!(error
        .text()
        .contains("application completed but saving failed"));
    assert_eq!(
        *machine.lockdown_calls.borrow(),
        vec!["lockdown:teardown:rules"]
    );
    assert!(machine.config.borrow().lockdown_enabled);
    let backend_error = apply_and_save_policy(
        Policy::KillSwitch,
        || Err(AppError::CommandFailed("second profile rejected".into())),
        || Ok(()),
    )
    .unwrap_err();
    assert!(backend_error.text().contains("may be partial"));
}

#[test]
fn lockdown_that_cannot_be_coordinated_is_not_enabled() {
    let machine = Machine::new();
    let result = machine.set_lockdown(true, Err(AppError::Io("locked".to_string())));
    assert!(matches!(result, Err(AppError::Io(m)) if m == "locked"));
    assert!(machine.lockdown_calls.borrow().is_empty());

    // Turning it off goes ahead all the same.
    machine
        .set_lockdown(false, Err(AppError::Io("locked".to_string())))
        .unwrap();
    assert_eq!(
        *machine.lockdown_calls.borrow(),
        vec!["lockdown:teardown:rules"]
    );
}

#[test]
fn a_kill_switch_that_was_applied_and_not_saved_says_so() {
    let mut machine = Machine::new();
    machine.fail_save = true;
    let error = set_global_kill_switch(
        true,
        Ok(()),
        |on| machine.apply_kill_switch(on),
        || machine.load(),
        |config| machine.store(config),
    )
    .unwrap_err();
    assert!(error.text().contains("kill switch"));
    assert!(error.text().contains("read-only"));
}

#[test]
fn qbit_enable_and_disable_persists() {
    let mut config = AppConfig::default();

    set_auto_sync(&mut config, true);
    assert_eq!(config.port_forwarding.mode, PortForwardMode::ForwardAndSync);

    set_auto_sync(&mut config, false);
    assert_eq!(config.port_forwarding.mode, PortForwardMode::Forward);
}

#[test]
fn qbit_config_updates_settings() {
    let mut config = AppConfig::default();

    update_connection(
        &mut config.qbittorrent,
        Some("http://192.168.1.100:8080".to_string()),
        Some("myuser".to_string()),
        Some("mypass".to_string()),
        Some(true),
    );

    assert_eq!(config.qbittorrent.url, "http://192.168.1.100:8080");
    assert_eq!(config.qbittorrent.username.as_deref(), Some("myuser"));
    assert_eq!(config.qbittorrent.password.as_deref(), Some("mypass"));
    assert!(config.qbittorrent.bind_interface);
}

#[test]
fn blank_credentials_are_taken_out() {
    let mut config = AppConfig::default();
    let some = |t: &str| Some(t.to_string());
    update_connection(&mut config.qbittorrent, None, some("u"), some("p"), None);
    assert_eq!(config.qbittorrent.username.as_deref(), Some("u"));
    update_connection(&mut config.qbittorrent, None, some("  "), some(""), None);
    assert_eq!(config.qbittorrent.username, None);
    assert_eq!(config.qbittorrent.password, None);
}

#[test]
fn eligibility_and_favorites_are_told_by_name() {
    let profiles = vec![profile("wg-us", "uuid-1"), profile("wg-eu", "uuid-2")];
    let mut config = AppConfig::default();
    assert_eq!(
        list_excluded(&config.excluded_profile_ids, &profiles),
        vec!["All profiles are eligible for startup-random (none excluded)."]
    );
    assert_eq!(
        change_eligibility(&mut config, &profiles, "wg-us", false).unwrap(),
        "Profile excluded from startup-random: wg-us (uuid-1)"
    );
    assert_eq!(
        change_eligibility(&mut config, &profiles, "wg-us", false).unwrap(),
        "Profile already excluded: wg-us (uuid-1)"
    );
    config.excluded_profile_ids.insert("gone".to_string());
    assert_eq!(
        list_excluded(&config.excluded_profile_ids, &profiles),
        vec![
            "Profiles excluded from startup-random:",
            "  <unknown> (gone)",
            "  wg-us (uuid-1)",
        ]
    );
    assert_eq!(
        change_eligibility(&mut config, &profiles, "uuid-1", true).unwrap(),
        "Profile is now eligible for startup-random: uuid-1 (uuid-1)"
    );
    assert!(matches!(
        change_favorite(&mut config, &profiles, "nobody", true),
        Err(AppError::ProfileNotFound(_))
    ));
    change_favorite(&mut config, &profiles, "wg-eu", true).unwrap();
    assert_eq!(config.favorite_profile_ids.to_vec(), vec!["uuid-2"]);
    assert_eq!(list_favorites(&config.favorite_profile_ids, &profiles).len(), 2);
}

/// All settings, to compare them.
fn told(config: &AppConfig) -> String {
    format!("{config:?}")
}

#[test]
fn the_lockdown_is_turned_on_for_the_tunnels_that_there_are() {
    let machine = Machine::new().with_kill_switch(true);
    machine.config.borrow_mut().favorite_profile_ids.insert("uuid-1".to_string());
    let before = machine.config.borrow().clone();

    machine.set_lockdown(true, Ok(())).unwrap();
    assert_eq!(*machine.installed.borrow(), machine.tunnels().unwrap());
    let mut expected = before.clone();
    expected.lockdown_enabled = true;
    assert_eq!(told(&machine.config.borrow()), told(&expected));

    // Turning it off reads no tunnels, and gives the settings back.
    set_global_lockdown(
        false,
        Ok(()),
        || panic!("no tunnels are needed"),
        |_| panic!("no rules are installed"),
        || machine.remove(),
        || machine.load(),
        |config| machine.store(config),
    )
    .unwrap();
    assert_eq!(told(&machine.config.borrow()), told(&before));
}

#[test]
fn tunnels_that_cannot_be_read_leave_the_firewall_alone() {
    let machine = Machine::new();
    let result = set_global_lockdown(
        true,
        Ok(()),
        || Err(AppError::CommandFailed("nmcli".to_string())),
        |tunnels| machine.install(tunnels),
        || machine.remove(),
        || machine.load(),
        |config| machine.store(config),
    );
    assert!(matches!(
        result,
        Err(AppError::PolicyUpdate {
            policy: Policy::Lockdown,
            ..
        })
    ));
    assert!(machine.lockdown_calls.borrow().is_empty());
    assert!(!machine.config.borrow().lockdown_enabled);
}

#[test]
fn a_policy_is_changed_alone() {
    let mut config = AppConfig::default();
    config.lockdown_enabled = true;
    put_policy(&mut config, Policy::KillSwitch, true);
    assert!(config.kill_switch_enabled && config.lockdown_enabled);
    put_policy(&mut config, Policy::Lockdown, false);
    put_policy(&mut config, Policy::KillSwitch, false);
    assert_eq!(told(&config), told(&AppConfig::default()));
    let unread = save_policy(
        Policy::KillSwitch,
        true,
        || Err(AppError::TomlDe("bad".to_string())),
        |_| panic!("nothing was read"),
    );
    assert!(matches!(unread, Err(AppError::TomlDe(_))));
}

#[test]
fn a_kill_switch_that_cannot_be_coordinated_is_not_set() {
    let machine = Machine::new();
    let result = set_global_kill_switch(
        true,
        Err(AppError::Io("locked".to_string())),
        |on| machine.apply_kill_switch(on),
        || machine.load(),
        |config| machine.store(config),
    );
    assert!(matches!(result, Err(AppError::Io(m)) if m == "locked"));
    assert!(machine.kill_switch_calls.borrow().is_empty());
    assert!(!machine.config.borrow().kill_switch_enabled);
}
