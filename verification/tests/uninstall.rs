use std::cell::RefCell;

use neutron::app::uninstall::{
    daemons_notice, kept_drop_dir, load_for_teardown, package_outcome, remove_app_settings, reset,
    reset_confirmed, reset_report, reset_warning, revoke_and_purge, revoke_installed_state,
    settings_notice, uninstall, unit_notice, unit_path, DeleteFault, ToolOutcome,
};
use neutron::config::AppConfig;
use neutron::error::{AppError, AppResult};
use neutron::install::{InstallChannel, Removal};

/// What was done to the machine, in order.
struct Log {
    steps: RefCell<Vec<&'static str>>,
}

impl Log {
    fn new() -> Log {
        Log {
            steps: RefCell::new(Vec::new()),
        }
    }

    fn done(&self, step: &'static str) -> AppResult<()> {
        self.steps.borrow_mut().push(step);
        Ok(())
    }

    fn failed(&self, step: &'static str, error: AppError) -> AppResult<()> {
        self.steps.borrow_mut().push(step);
        Err(error)
    }
}

#[test]
fn uninstall_a_failed_teardown_keeps_the_settings() {
    let log = Log::new();

    let error = revoke_and_purge(
        || {
            revoke_installed_state(
                Ok(true),
                || {
                    log.failed(
                        "lockdown:teardown:rules+grant",
                        AppError::Firewall("declined".to_string()),
                    )
                },
                || log.done("autostart"),
            )
        },
        || {
            log.done("purge")?;
            Ok(None)
        },
    )
    .expect_err("a failed teardown must abort the uninstall");

    assert!(matches!(error, AppError::Firewall(_)), "{error:?}");
    assert_eq!(
        *log.steps.borrow(),
        vec!["lockdown:teardown:rules+grant"],
        "nothing may be deleted"
    );
}

#[test]
fn mod_a_failed_teardown_keeps_the_settings() {
    let (before, notice) = load_for_teardown(
        "/home/me/.config/neutron/config.toml",
        Ok(AppConfig {
            lockdown_enabled: true,
            ..AppConfig::default()
        }),
    );
    assert!(before.lockdown_enabled);
    assert_eq!(notice, None);
    let log = Log::new();

    let error = revoke_and_purge(
        || {
            revoke_installed_state(
                Ok(true),
                || log.failed("teardown", AppError::Firewall("rejected".to_string())),
                || log.done("autostart"),
            )
        },
        || {
            log.done("purge")?;
            Ok(None)
        },
    )
    .expect_err("a failed teardown must abort the uninstall");

    assert!(matches!(error, AppError::Firewall(_)), "{error:?}");
    assert_eq!(*log.steps.borrow(), vec!["teardown"], "nothing may be deleted");
}

#[test]
fn uninstall_an_absent_configuration_still_tears_down_installed_lockdown_state() {
    let log = Log::new();

    let installed = revoke_installed_state(
        Ok(true),
        || log.done("lockdown:teardown:rules+grant"),
        || Ok(()),
    )
    .expect("revoke should succeed");

    assert!(installed);
    assert_eq!(
        *log.steps.borrow(),
        vec!["lockdown:teardown:rules+grant"]
    );
}

#[test]
fn mod_an_absent_configuration_still_tears_down_installed_lockdown_state() {
    let log = Log::new();

    revoke_and_purge(
        || {
            revoke_installed_state(
                Ok(true),
                || log.done("lockdown:teardown:rules+grant"),
                || Ok(()),
            )
        },
        || Ok(None),
    )
    .expect("revoke should succeed");

    assert_eq!(
        *log.steps.borrow(),
        vec!["lockdown:teardown:rules+grant"]
    );
}

#[test]
fn uninstall_an_install_that_never_enabled_lockdown_tears_nothing_down() {
    let log = Log::new();

    let installed = revoke_installed_state(
        Ok(false),
        || log.done("lockdown:teardown:rules+grant"),
        || Ok(()),
    )
    .expect("revoke should succeed");

    assert!(!installed);
    assert!(log.steps.borrow().is_empty());
}

#[test]
fn mod_an_install_that_never_enabled_lockdown_tears_nothing_down() {
    let log = Log::new();

    revoke_and_purge(
        || {
            revoke_installed_state(
                Ok(false),
                || log.done("lockdown:teardown:rules+grant"),
                || Ok(()),
            )
        },
        || Ok(None),
    )
    .expect("revoke should succeed");

    assert!(log.steps.borrow().is_empty());
}

#[test]
fn a_stale_lockdown_setting_with_nothing_installed_tears_nothing_down() {
    let log = Log::new();
    let (before, _) = load_for_teardown(
        "config.toml",
        Ok(AppConfig {
            lockdown_enabled: true,
            ..AppConfig::default()
        }),
    );
    assert!(before.lockdown_enabled);

    revoke_and_purge(
        || {
            revoke_installed_state(
                Ok(false),
                || log.done("lockdown:teardown:rules+grant"),
                || Ok(()),
            )
        },
        || Ok(None),
    )
    .expect("revoke should succeed");

    assert!(
        log.steps.borrow().is_empty(),
        "intent is not evidence: {:?}",
        log.steps.borrow()
    );
}

#[test]
fn a_corrupt_config_does_not_stop_the_teardown() {
    let (config, notice) = load_for_teardown(
        "/cfg/config.toml",
        Err(AppError::Config("broken".to_string())),
    );
    assert!(!config.lockdown_enabled);
    let notice = notice.expect("a notice");
    assert!(notice.starts_with("Settings at /cfg/config.toml could not be read ("));
    assert!(notice.ends_with("); continuing from evidence on disk."));
}

#[test]
fn evidence_that_cannot_be_read_stops_the_teardown() {
    let log = Log::new();
    let result = revoke_installed_state(
        Err(AppError::Io("denied".to_string())),
        || log.done("teardown"),
        || log.done("autostart"),
    );
    assert!(matches!(result, Err(AppError::Io(_))));
    assert!(log.steps.borrow().is_empty());
}

#[test]
fn reset_withdraws_every_applied_policy_and_returns_settings_to_defaults() {
    let mut before = AppConfig {
        kill_switch_enabled: true,
        lockdown_enabled: true,
        ..AppConfig::default()
    };
    before.global_split_tunnel.mode = neutron::config::SplitTunnelMode::Include;
    before.global_split_tunnel.cidrs = vec!["10.0.0.0/8".to_string()];
    let log = Log::new();

    let installed = reset(
        &before,
        || {
            log.done("lockdown:teardown:rules+grant")?;
            Ok(true)
        },
        || log.done("kill-switch-all:off"),
        || log.done("split-tunnel-all:disabled:0:0"),
        || log.done("save:defaults"),
    )
    .expect("reset should succeed");

    assert!(installed);
    assert_eq!(
        *log.steps.borrow(),
        vec![
            "lockdown:teardown:rules+grant",
            "kill-switch-all:off",
            "split-tunnel-all:disabled:0:0",
            "save:defaults",
        ]
    );
    let after = AppConfig::default();
    assert!(!after.kill_switch_enabled);
    assert!(!after.lockdown_enabled);
    assert!(after.excluded_profile_ids.is_empty());
    assert!(after.favorite_profile_ids.is_empty());
    assert!(after.global_split_tunnel.is_empty());
    assert!(!after.global_split_tunnel.mode.is_enabled());
    assert!(after.qbittorrent.password.is_none());
    assert!(!after.general.autoconnect_at_login);
}

#[test]
fn reset_on_a_clean_install_touches_nothing_privileged() {
    let log = Log::new();

    reset(
        &AppConfig::default(),
        || Ok(false),
        || log.done("kill-switch-all:off"),
        || log.done("split-tunnel-all:disabled:0:0"),
        || log.done("save:defaults"),
    )
    .expect("reset should succeed");

    assert_eq!(*log.steps.borrow(), vec!["save:defaults"]);
}

#[test]
fn reset_asks_for_the_word_reset_and_changes_nothing_when_refused() {
    let error = reset_confirmed(None).expect_err("without a terminal, reset must not proceed");
    assert!(error.text().contains("--yes"), "{}", error.text());
    assert!(reset_confirmed(Some(" reset\n")).unwrap());
    assert!(!reset_confirmed(Some("yes")).unwrap());
    assert!(!reset_confirmed(Some("Reset")).unwrap());
}

#[test]
fn a_reset_warns_of_what_is_kept_nowhere_else() {
    let mut config = AppConfig::default();
    assert_eq!(reset_warning(&config).len(), 1);
    assert!(!reset_warning(&config)[0].contains("kept nowhere"));
    config.favorite_profile_ids.insert("a".to_string());
    assert!(reset_warning(&config)[0].contains(" (1 entry kept nowhere)"));
    config.excluded_profile_ids.insert("a".to_string());
    config.lockdown_enabled = true;
    let lines = reset_warning(&config);
    assert!(lines[0].contains(" (2 entries kept nowhere)"));
    assert_eq!(lines.len(), 2);
}

#[test]
fn a_reset_reports_what_it_left() {
    let lines = reset_report("/c/config.toml", true, b"/home/me/drop", Some(b"/c"), 2);
    assert_eq!(
        lines,
        vec![
            "Reset to factory defaults.",
            "  lockdown rules, refresh helper, and polkit action: removed",
            "  settings: /c/config.toml",
            "  profile drop directory left in place: /home/me/drop",
            "  2 daemon(s) did not exit; close them before logging in again.",
        ]
    );
    let quiet = reset_report("/c/config.toml", false, b"/c/profiles", Some(b"/c"), 0);
    assert_eq!(quiet.len(), 3);
}

#[test]
fn a_drop_directory_outside_the_settings_is_kept() {
    let kept = |recorded: &[u8], dir: &[u8]| kept_drop_dir(Some(recorded), dir);
    assert_eq!(
        kept(b"/home/me/drop", b"/home/me/.config/neutron"),
        Some(b"/home/me/drop".to_vec())
    );
    assert_eq!(
        kept(b"/home/me/.config/neutron/profiles", b"/home/me/.config/neutron"),
        None
    );
    // A directory that holds the settings is not inside them.
    assert_eq!(
        kept(b"/home/me/.config", b"/home/me/.config/neutron"),
        Some(b"/home/me/.config".to_vec())
    );
    assert_eq!(kept(b"", b"/c"), None);
    assert_eq!(kept_drop_dir(None, b"/c"), None);
}

fn settings_with_drop_dir(dir: &str) -> AppConfig {
    let mut config = AppConfig::default();
    config.general.profiles_dir = dir.to_string();
    config
}

#[test]
fn without_a_purge_the_settings_are_not_looked_at() {
    let kept = remove_app_settings(
        false,
        Some(b"/c/neutron"),
        || panic!("nothing is read"),
        || panic!("nothing is deleted"),
    );
    assert!(matches!(kept, Ok(None)));
    let nowhere = remove_app_settings(
        true,
        None,
        || panic!("nothing is read"),
        || panic!("nothing is deleted"),
    );
    assert!(matches!(nowhere, Ok(None)));
    assert_eq!(settings_notice(false, "/c/neutron"), "Settings kept at /c/neutron");
}

#[test]
fn a_purge_reads_the_settings_before_it_deletes_them() {
    let log = Log::new();
    let left = remove_app_settings(
        true,
        Some(b"/c/neutron"),
        || {
            log.done("read").unwrap();
            Some(settings_with_drop_dir("/srv/drop"))
        },
        || {
            log.done("delete").unwrap();
            Ok(())
        },
    );
    assert_eq!(left.unwrap(), Some(b"/srv/drop".to_vec()));
    assert_eq!(*log.steps.borrow(), vec!["read", "delete"]);
    assert_eq!(settings_notice(true, "/c/neutron"), "Removed /c/neutron");
}

#[test]
fn a_purge_names_only_what_the_settings_recorded() {
    let purge = |recorded: Option<AppConfig>, deleted: Result<(), DeleteFault>| {
        remove_app_settings(true, Some(b"/c/neutron"), || recorded, || deleted)
    };
    assert_eq!(purge(None, Ok(())).unwrap(), None);
    let inside = settings_with_drop_dir("/c/neutron/profiles");
    assert_eq!(purge(Some(inside), Ok(())).unwrap(), None);
    // That there is nothing to delete is no failure.
    let outside = settings_with_drop_dir("/c");
    assert_eq!(
        purge(Some(outside), Err(DeleteFault::Missing)).unwrap(),
        Some(b"/c".to_vec())
    );
    let denied = Err(DeleteFault::Failed(AppError::Io("denied".to_string())));
    assert!(matches!(purge(None, denied), Err(AppError::Io(m)) if m == "denied"));
}

#[test]
fn an_installation_that_is_not_recognized_is_not_touched() {
    let log = Log::new();
    let result = uninstall(
        Err(AppError::Uninstall("unknown".to_string())),
        || log.done("revoke"),
        |_| log.done("package"),
    );
    assert!(matches!(result, Err(AppError::Uninstall(_))));
    assert!(log.steps.borrow().is_empty());

    let removal = Removal {
        channel: InstallChannel::Cargo,
        program: "cargo",
        args: vec!["uninstall", "neutron"],
    };
    uninstall(Ok(removal), || log.done("revoke"), |_| log.done("package")).unwrap();
    assert_eq!(*log.steps.borrow(), vec!["revoke", "package"]);
}

#[test]
fn the_package_tool_is_reported() {
    assert_eq!(
        package_outcome("brew", &ToolOutcome::Succeeded).unwrap(),
        "Removed the brew install of Neutron."
    );
    assert!(matches!(
        package_outcome("brew", &ToolOutcome::NotStarted("missing".to_string())),
        Err(AppError::CommandFailed(m)) if m == "brew: missing"
    ));
    assert!(matches!(
        package_outcome("cargo", &ToolOutcome::Failed("exit status: 101".to_string())),
        Err(AppError::CommandFailed(m))
            if m == "cargo exited with exit status: 101; Neutron's own state is already revoked"
    ));
    assert_eq!(daemons_notice(0), None);
    assert_eq!(
        daemons_notice(3).unwrap(),
        "3 Neutron daemon(s) did not exit; they can re-apply policies until closed."
    );
}

#[test]
fn a_unit_that_was_installed_by_hand_is_named() {
    let unit = unit_path(b"/home/me/.config");
    assert_eq!(
        unit,
        b"/home/me/.config/systemd/user/neutron-startup-random.service"
    );
    let shown = String::from_utf8_lossy(&unit);
    assert!(unit_notice(&shown).starts_with("systemd user unit left in place: /home/me"));
}
