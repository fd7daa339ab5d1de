use std::cell::RefCell;

use neutron::app::sync::{
    ensure_app_dirs, ensure_profiles_dir, plan_entry, sync_messages, sync_profiles_dir,
    unreadable_report, DirRequest, DropAction, DropEntry,
};
use neutron::config::{AppConfig, GeneralConfig};
use neutron::error::{AppError, AppResult};
use neutron::install::{
    cargo_has_package, is_homebrew, resolve, InstallChannel, Removal, PACKAGE,
};
use neutron::paths::{components, join, lies_within};
use neutron::process::{command_outcome, format_command_error, timeout_error, unavailable_error};
use neutron::record::Recorder;

const CARGO_LIST: &str = "Installed packages:\n  neutron v0.1.3:\n    neutron\n";

fn resolve_with(exe: &str, cargo_list: Option<&str>, tools: &[&str]) -> AppResult<Removal> {
    resolve(exe, cargo_list, |program: &str| tools.contains(&program))
}

fn resolved(exe: &str, cargo_list: Option<&str>, tools: &[&str]) -> Removal {
    resolve_with(exe, cargo_list, tools).expect("channel should resolve")
}

#[test]
fn both_homebrew_prefixes_resolve_to_brew() {
    for exe in [
        "/opt/homebrew/Cellar/neutron/0.1.3/bin/neutron",
        "/home/linuxbrew/.linuxbrew/Cellar/neutron/0.1.3/bin/neutron",
        "/home/user/.local/share/homebrew/Cellar/neutron/0.1.3/bin/neutron",
    ] {
        let removal = resolved(exe, None, &["brew"]);
        assert_eq!(removal.channel, InstallChannel::Homebrew);
        assert_eq!(removal.program, "brew");
        assert_eq!(removal.args, ["uninstall", PACKAGE]);
    }
}

#[test]
fn a_cargo_list_entry_resolves_to_cargo_from_any_root() {
    let removal = resolved("/tmp/build/neutron", Some(CARGO_LIST), &["cargo"]);
    assert_eq!(removal.channel, InstallChannel::Cargo);
    assert_eq!(removal.program, "cargo");
}

#[test]
fn a_homebrew_path_wins_over_a_leftover_cargo_entry() {
    let removal = resolved(
        "/opt/homebrew/Cellar/neutron/0.1.3/bin/neutron",
        Some(CARGO_LIST),
        &["brew", "cargo"],
    );
    assert_eq!(removal.channel, InstallChannel::Homebrew);
}

#[test]
fn a_cellar_belonging_to_another_package_is_not_a_tap_install() {
    let error = resolve_with(
        "/opt/homebrew/Cellar/neutron-bin/0.1.3/bin/neutron",
        None,
        &["brew"],
    )
    .expect_err("another package's Cellar is not a tap install");
    assert!(error.text().contains("cannot uninstall automatically"));
}

#[test]
fn a_similarly_named_cargo_package_is_not_a_match() {
    assert!(!cargo_has_package(Some(
        "Installed packages:\n  neutron-vpn v0.1.0:\n"
    )));
    assert!(cargo_has_package(Some("  neutron v0.1.3:")));
    assert!(!cargo_has_package(None));
}

#[test]
fn an_unrecognized_source_is_refused() {
    for (exe, list) in [
        ("/usr/bin/neutron", None),
        ("/tmp/neutron.AppImage", Some("")),
    ] {
        let error = resolve_with(exe, list, &["brew", "cargo"])
            .expect_err("an unknown install source must be refused");
        let message = error.text();
        assert!(
            message.contains("cannot uninstall automatically"),
            "{message}"
        );
        assert!(message.contains(exe), "{message}");
        assert!(message.contains("Nothing was changed"), "{message}");
    }
}

#[test]
fn a_channel_whose_tool_is_missing_is_refused_before_anything_is_touched() {
    let error = resolve_with("/opt/homebrew/Cellar/neutron/0.1.3/bin/neutron", None, &[])
        .expect_err("a missing removal tool must be refused");
    let message = error.text();
    assert!(message.contains("`brew` is not runnable"), "{message}");
}

#[test]
fn a_cellar_is_found_by_whole_components() {
    assert!(is_homebrew("/x/Cellar/neutron"));
    assert!(!is_homebrew("/x/MyCellar/neutron"));
    assert_eq!(InstallChannel::Homebrew.name(), "Homebrew");
    assert_eq!(InstallChannel::Unknown.name(), "unknown");
}

#[test]
fn command_timeout_kills_long_running_process() {
    let error = timeout_error("sleep 10", 0);
    assert!(
        matches!(error, AppError::CommandFailed(message) if message.contains("timed out"))
    );
}

#[test]
fn command_success_returns_trimmed_stdout() {
    let result = command_outcome("printf hello", true, Some(0), b"hello", b"")
        .expect("printf should succeed");

    assert_eq!(result, "hello");
    assert_eq!(
        command_outcome("cmd", true, Some(0), b"  padded \n", b"noise").unwrap(),
        "padded"
    );
}

#[test]
fn command_failure_includes_exit_code() {
    let result = command_outcome("false", false, Some(1), b"", b"");

    assert!(matches!(
        result,
        Err(AppError::CommandFailed(message)) if message.contains("exit 1")
    ));
}

#[test]
fn a_failing_command_is_told_by_what_it_said() {
    assert_eq!(
        format_command_error("nmcli failed", Some(4), " Error: no \n"),
        "Error: no (exit 4)"
    );
    assert_eq!(
        format_command_error("nmcli failed", Some(-1), ""),
        "nmcli failed (exit -1)"
    );
    let killed = command_outcome("sleep", false, None, b"", b"\xff");
    assert!(matches!(killed, Err(AppError::CommandFailed(m)) if m.starts_with("\u{fffd} (exit ")));
    assert!(matches!(
        unavailable_error("nmcli", "stdout"),
        AppError::CommandFailed(m) if m == "nmcli stdout unavailable"
    ));
    assert!(matches!(
        timeout_error("nmcli", 30),
        AppError::CommandFailed(m) if m == "nmcli timed out after 30s"
    ));
}

fn entry(file_name: &str, is_file: bool) -> DropEntry {
    DropEntry {
        file_name: file_name.to_string(),
        is_file,
    }
}

#[test]
fn sync_imports_new_conf_files_and_cleans_inbox() {
    let entries = vec![
        entry("profile1.conf", true),
        entry("profile2.conf", true),
        entry("ignore.txt", true),
    ];
    let existing = vec!["profile1".to_string()];

    let (report, consumed) = sync_profiles_dir(&existing, &entries, &mut Recorder::new(|_: &str| Ok(())));

    assert_eq!(report.skipped, 1);
    assert_eq!(report.imported, vec!["profile2".to_string()]);
    assert!(report.errors.is_empty());
    assert_eq!(consumed, vec!["profile1.conf", "profile2.conf"]);
}

#[test]
fn sync_preserves_conf_files_on_import_failure() {
    let entries = vec![entry("broken.conf", true)];

    let (report, consumed) = sync_profiles_dir(
        &[],
        &entries,
        &mut Recorder::new(|_: &str| Err(AppError::CommandFailed("invalid".to_string()))),
    );

    assert_eq!(report.imported.len(), 0);
    assert_eq!(report.errors.len(), 1);
    assert!(consumed.is_empty());
}

#[test]
fn only_configurations_are_imported() {
    let known = vec!["home".to_string()];
    assert!(matches!(plan_entry(&known, &entry("home.conf", true)), DropAction::Consume));
    assert!(matches!(
        plan_entry(&known, &entry("work.vpn.conf", true)),
        DropAction::Import(name) if name == "work.vpn"
    ));
    assert!(matches!(plan_entry(&known, &entry("work.conf", false)), DropAction::Ignore));
    assert!(matches!(plan_entry(&known, &entry("work.txt", true)), DropAction::Ignore));
    assert!(matches!(plan_entry(&known, &entry("conf", true)), DropAction::Ignore));
}

#[test]
fn what_a_synchronization_did_is_told() {
    let entries = vec![
        entry("a.conf", true),
        entry("b.conf", true),
        entry("bad.conf", true),
        entry("old.conf", true),
    ];
    let existing = vec!["old".to_string()];
    let asked = RefCell::new(Vec::new());
    let mut import = Recorder::new(|name: &str| {
        asked.borrow_mut().push(name.to_string());
        if name == "bad.conf" {
            return Err(AppError::CommandFailed("no".to_string()));
        }
        Ok(())
    });
    let (report, _) = sync_profiles_dir(&existing, &entries, &mut import);
    // What is known is not imported, and the rest is imported once.
    assert_eq!(*asked.borrow(), vec!["a.conf", "b.conf", "bad.conf"]);
    assert_eq!(report.imported.len() + report.skipped + report.errors.len(), 4);
    let (lines, errors) = sync_messages(&report);
    assert_eq!(
        lines,
        vec![
            "Imported 2 new profiles: a, b",
            "Skipped 1 already existing profiles.",
        ]
    );
    assert!(errors.unwrap().starts_with("Errors during sync:\n"));
    let (quiet, none) = sync_messages(&sync_profiles_dir(&[], &[], &mut Recorder::new(|_: &str| Ok(()))).0);
    assert_eq!(quiet, vec!["All profiles are up to date."]);
    assert_eq!(none, None);
    assert_eq!(
        unreadable_report("/drop", "denied").errors,
        vec!["Failed to read profiles directory /drop: denied"]
    );
}

#[test]
fn ensure_app_dirs_creates_profiles_directory() {
    let config = AppConfig {
        general: GeneralConfig {
            profiles_dir: "/tmp/neutron-dirs/profiles".to_string(),
            ..Default::default()
        },
        ..Default::default()
    };
    let asked = RefCell::new(Vec::new());
    let mut files = Recorder::new(|request: &DirRequest| {
        asked.borrow_mut().push(shown(request));
        Ok(false)
    });
    ensure_app_dirs(Some(b"/tmp/neutron-dirs"), &config, &mut files).unwrap();

    assert_eq!(
        *asked.borrow(),
        vec![
            "exists /tmp/neutron-dirs",
            "create /tmp/neutron-dirs",
            "mode 700 /tmp/neutron-dirs",
            "exists /tmp/neutron-dirs/profiles",
            "create /tmp/neutron-dirs/profiles",
            "mode 700 /tmp/neutron-dirs/profiles",
        ]
    );
    let mut full = Recorder::new(|request: &DirRequest| match request {
        DirRequest::Exists(_) => Ok(false),
        _ => Err(AppError::Io("full".to_string())),
    });
    assert!(matches!(
        ensure_app_dirs(None, &config, &mut full),
        Err(AppError::Io(_))
    ));
}

fn shown(request: &DirRequest) -> String {
    let path = |bytes: &Vec<u8>| String::from_utf8_lossy(bytes).into_owned();
    match request {
        DirRequest::Exists(dir) => format!("exists {}", path(dir)),
        DirRequest::Create(dir) => format!("create {}", path(dir)),
        DirRequest::SetMode(dir, mode) => format!("mode {mode:o} {}", path(dir)),
    }
}

#[test]
fn a_directory_that_is_there_is_left_as_it_is() {
    let asked = RefCell::new(Vec::new());
    let mut there = Recorder::new(|request: &DirRequest| {
        asked.borrow_mut().push(shown(request));
        Ok(true)
    });
    ensure_profiles_dir(b"/d", &mut there).unwrap();
    assert_eq!(*asked.borrow(), vec!["exists /d"]);
    // A mode that cannot be set is no failure.
    let mut odd = Recorder::new(|request: &DirRequest| match request {
        DirRequest::SetMode(..) => Err(AppError::Io("not supported".to_string())),
        _ => Ok(false),
    });
    ensure_profiles_dir(b"/d", &mut odd).unwrap();
}

#[test]
fn paths_are_taken_apart_by_components() {
    assert_eq!(join(b"/a", b"b/c"), b"/a/b/c");
    assert_eq!(join(b"/a/", b"b"), b"/a/b");
    assert_eq!(join(b"/a", b"/b"), b"/b");
    assert_eq!(join(b"/\xff", b"b"), b"/\xff/b");
    assert_eq!(components(b"/a//b/./c/").len(), 3);
    assert!(lies_within(b"/a/b/c", b"/a/b"));
    assert!(lies_within(b"/a/b", b"/a/b"));
    assert!(!lies_within(b"/a/bc", b"/a/b"));
    assert!(!lies_within(b"/a", b"/a/b"));
    assert!(!lies_within(b"/a/\xfe", b"/a/\xff"));
}
