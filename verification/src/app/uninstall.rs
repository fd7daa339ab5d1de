//! Taking everything back out: resetting and uninstalling.
//!
//! Both first withdraw what was applied to the system and only then touch the
//! settings. Where the withdrawal fails, the settings stay, so that nobody is
//! left with neither protection nor configuration.

use vstd::prelude::*;
use vstd::slice::slice_to_vec;
use vstd::string::*;
use vstd::utf8::encode_utf8;

use crate::config::{is_default_config, is_drop_dir, resolve_profiles_dir, AppConfig, SplitTunnelMode};
use crate::error::{AppError, AppResult};
use crate::install::Removal;
use crate::paths::{is_within, join, lies_within, opt_bytes, opt_path, path_join};
use crate::text::{decimal, decimal_string, from_utf8_lossy, lossy_text, same, trim, trimmed};

verus! {

// ---------------------------------------------------------------------------
// Withdrawing what was applied
// ---------------------------------------------------------------------------

/// The settings that a teardown goes by: those that were read, or those of a
/// first run where none can be read, with what is said then. The teardown itself
/// goes by what is installed, not by these.
pub fn load_for_teardown(path: &str, loaded: AppResult<AppConfig>) -> (r: (
    AppConfig,
    Option<String>,
))
    ensures
        match loaded {
            Ok(c) => r.0 == c && r.1 is None,
            Err(e) => is_default_config(r.0) && (r.1 matches Some(m) && m@ == "Settings at "@ + path@
                + " could not be read ("@ + e.spec_text()
                + "); continuing from evidence on disk."@),
        },
{
    match loaded {
        Ok(c) => (c, None),
        Err(e) => {
            let why = e.text();
            (
                AppConfig::default(),
                Some(
                    "Settings at ".to_owned().concat(path).concat(" could not be read (").concat(
                        why.as_str(),
                    ).concat("); continuing from evidence on disk."),
                ),
            )
        },
    }
}

/// Whether a step that is only taken under a condition gave a result.
pub open spec fn step<F: FnOnce() -> AppResult<()>>(taken: bool, f: F, r: AppResult<()>) -> bool {
    if taken {
        f.ensures((), r)
    } else {
        r is Ok
    }
}

/// Whether a step can be taken once the one before it succeeded, where that one is
/// taken at all. Nothing is asked of `next` before that or where `first` failed: it
/// is not called then.
pub open spec fn follows<T: FnOnce() -> AppResult<()>, U: FnOnce() -> AppResult<()>>(
    wanted: bool,
    first: T,
    next: U,
) -> bool {
    if wanted {
        forall|t: AppResult<()>| #[trigger] first.ensures((), t) && t is Ok ==> next.requires(())
    } else {
        next.requires(())
    }
}

/// Whether what is installed was withdrawn with a result.
pub open spec fn revoked<T: FnOnce() -> AppResult<()>, U: FnOnce() -> AppResult<()>>(
    installed: AppResult<bool>,
    teardown: T,
    autostart: U,
    r: AppResult<bool>,
) -> bool {
    match installed {
        Err(e) => r == Err::<bool, AppError>(e),
        Ok(there) => exists|t: AppResult<()>| #[trigger]
            step(there, teardown, t) && match t {
                Err(e) => r == Err::<bool, AppError>(e),
                Ok(_) => exists|u: AppResult<()>| #[trigger]
                    autostart.ensures((), u) && match u {
                        Err(e) => r == Err::<bool, AppError>(e),
                        Ok(_) => r == Ok::<bool, AppError>(there),
                    },
            },
    }
}

/// Withdraw what the installation applied outside its package, where `installed`
/// says whether rules or the helper are there, `teardown` removes them and
/// `autostart` removes the entry that starts the program at login. What is there
/// decides, not what the settings say. The result says whether the teardown ran.
pub fn revoke_installed_state<T: FnOnce() -> AppResult<()>, U: FnOnce() -> AppResult<()>>(
    installed: AppResult<bool>,
    teardown: T,
    autostart: U,
) -> (r: AppResult<bool>)
    requires
        installed == Ok::<bool, AppError>(true) ==> teardown.requires(()),
        installed matches Ok(there) ==> follows(there, teardown, autostart),
    ensures
        revoked(installed, teardown, autostart, r),
{
    let there = match installed {
        Ok(there) => there,
        Err(e) => {
            return Err(e);
        },
    };
    if there {
        let t = teardown();
        assert(step(there, teardown, t));
        match t {
            Ok(_) => {},
            Err(e) => {
                return Err(e);
            },
        }
    } else {
        assert(step(there, teardown, Ok(())));
    }
    let u = autostart();
    assert(autostart.ensures((), u));
    match u {
        Ok(_) => Ok(there),
        Err(e) => Err(e),
    }
}

// ---------------------------------------------------------------------------
// Resetting
// ---------------------------------------------------------------------------

/// Whether settings split the traffic, or list what is split.
pub open spec fn splits(c: AppConfig) -> bool {
    c.global_split_tunnel.mode.spec_is_enabled() || c.global_split_tunnel@.cidrs.len() > 0
        || c.global_split_tunnel@.domains.len() > 0
}

/// Whether `r` is what a reset came to: the first of its steps that fails decides,
/// and steps that the settings do not call for count as done.
pub open spec fn reset_run<
    V: FnOnce() -> AppResult<bool>,
    K: FnOnce() -> AppResult<()>,
    C: FnOnce() -> AppResult<()>,
    S: FnOnce() -> AppResult<()>,
>(before: AppConfig, revoke: V, kill_switch: K, split: C, save: S, r: AppResult<bool>) -> bool {
    exists|v: AppResult<bool>| #[trigger]
        revoke.ensures((), v) && match v {
            Err(e) => r == Err::<bool, AppError>(e),
            Ok(there) => exists|k: AppResult<()>| #[trigger]
                step(before.kill_switch_enabled, kill_switch, k) && match k {
                    Err(e) => r == Err::<bool, AppError>(e),
                    Ok(_) => exists|c: AppResult<()>| #[trigger]
                        step(splits(before), split, c) && match c {
                            Err(e) => r == Err::<bool, AppError>(e),
                            Ok(_) => exists|s: AppResult<()>| #[trigger]
                                save.ensures((), s) && match s {
                                    Err(e) => r == Err::<bool, AppError>(e),
                                    Ok(_) => r == Ok::<bool, AppError>(there),
                                },
                        },
                },
        }
}

/// Whether the steps of a reset that follow the withdrawal can be taken, each once
/// those before it succeeded, and only where the settings call for it.
pub open spec fn reset_follows<
    K: FnOnce() -> AppResult<()>,
    C: FnOnce() -> AppResult<()>,
    S: FnOnce() -> AppResult<()>,
>(before: AppConfig, kill_switch: K, split: C, save: S) -> bool {
    &&& before.kill_switch_enabled ==> kill_switch.requires(())
    &&& forall|k: AppResult<()>| #[trigger]
        step(before.kill_switch_enabled, kill_switch, k) && k is Ok ==> {
            &&& splits(before) ==> split.requires(())
            &&& forall|c: AppResult<()>| #[trigger]
                step(splits(before), split, c) && c is Ok ==> save.requires(())
        }
}

/// Go back to the settings of a first run. `revoke` withdraws what is installed,
/// `kill_switch` turns the kill switch off, `split` clears the split tunneling and
/// `save` saves the settings of a first run. A step that fails ends the reset. The
/// result says whether anything was installed.
pub fn reset<
    V: FnOnce() -> AppResult<bool>,
    K: FnOnce() -> AppResult<()>,
    C: FnOnce() -> AppResult<()>,
    S: FnOnce() -> AppResult<()>,
>(before: &AppConfig, revoke: V, kill_switch: K, split: C, save: S) -> (r: AppResult<bool>)
    requires
        revoke.requires(()),
        forall|v: AppResult<bool>| #[trigger]
            revoke.ensures((), v) && v is Ok ==> reset_follows(*before, kill_switch, split, save),
    ensures
        reset_run(*before, revoke, kill_switch, split, save, r),
{
    let v = revoke();
    assert(revoke.ensures((), v));
    let there = match v {
        Ok(there) => there,
        Err(e) => {
            return Err(e);
        },
    };
    if before.kill_switch_enabled {
        let k = kill_switch();
        assert(step(before.kill_switch_enabled, kill_switch, k));
        match k {
            Ok(_) => {},
            Err(e) => {
                return Err(e);
            },
        }
    } else {
        assert(step(before.kill_switch_enabled, kill_switch, Ok(())));
    }
    let splitting = before.global_split_tunnel.mode.is_enabled()
        || !before.global_split_tunnel.is_empty();
    assert(splitting == splits(*before));
    if splitting {
        let c = split();
        assert(step(splits(*before), split, c));
        match c {
            Ok(_) => {},
            Err(e) => {
                return Err(e);
            },
        }
    } else {
        assert(step(splits(*before), split, Ok(())));
    }
    let s = save();
    assert(save.ensures((), s));
    match s {
        Ok(_) => Ok(there),
        Err(e) => Err(e),
    }
}

/// How many entries a reset forgets.
pub open spec fn entries_of(c: AppConfig) -> nat {
    c.excluded_profile_ids@.len() + c.favorite_profile_ids@.len() + c.profile_custom_info@.dom().len()
}

/// The warning before a reset.
pub open spec fn reset_warning_of(c: AppConfig) -> Seq<Seq<char>> {
    let n = entries_of(c);
    seq![
        "This removes every Neutron setting -- eligibility pool, favorites, notes, qBittorrent credentials"@
            + (if n > 0 {
            " ("@ + decimal(n) + " entr"@ + (if n == 1 {
                "y"@
            } else {
                "ies"@
            }) + " kept nowhere)"@
        } else {
            Seq::empty()
        }) + " -- and withdraws the applied policies."@,
    ] + (if c.lockdown_enabled {
        seq![
            "Lockdown is on: its firewall rules and root-owned helper will be removed."@,
        ]
    } else {
        Seq::empty()
    })
}

/// The warning before a reset, by lines.
pub fn reset_warning(before: &AppConfig) -> (r: Vec<String>)
    ensures
        r.deep_view() == reset_warning_of(*before),
{
    let n: u128 = before.excluded_profile_ids.len() as u128 + before.favorite_profile_ids.len()
        as u128 + before.profile_custom_info.len() as u128;
    let mut line =
        "This removes every Neutron setting -- eligibility pool, favorites, notes, qBittorrent credentials".to_owned();
    if n > 0 {
        let count = decimal_string(n);
        let ending = if n == 1 { "y" } else { "ies" };
        let entries = " (".to_owned().concat(count.as_str()).concat(" entr").concat(ending).concat(
            " kept nowhere)",
        );
        line = line.concat(entries.as_str());
    }
    line = line.concat(" -- and withdraws the applied policies.");
    assert(line@ =~= reset_warning_of(*before)[0]);
    let mut r = vec![line];
    if before.lockdown_enabled {
        r.push(
            "Lockdown is on: its firewall rules and root-owned helper will be removed.".to_owned(),
        );
    }
    assert(r.deep_view() =~= reset_warning_of(*before));
    r
}

/// Whether a reset goes on: the word itself is asked for, not a letter. Without a
/// terminal to ask on it is refused.
pub fn reset_confirmed(answer: Option<&str>) -> (r: AppResult<bool>)
    ensures
        match (answer, r) {
            (Some(a), Ok(yes)) => yes == (trimmed(a@) == "reset"@),
            (None, Err(e)) => e matches AppError::Config(m) && m@
                == "neutron reset needs a terminal to confirm; pass --yes to proceed unattended"@,
            _ => false,
        },
{
    match answer {
        Some(a) => Ok(same(trim(a), "reset")),
        None => Err(
            AppError::Config(
                "neutron reset needs a terminal to confirm; pass --yes to proceed unattended".to_owned(),
            ),
        ),
    }
}

/// Whether a drop directory lies outside the directory of the settings.
pub open spec fn is_outside(drop_dir: Seq<u8>, config_dir: Option<Seq<u8>>) -> bool {
    match config_dir {
        Some(root) => !is_within(drop_dir, root),
        None => true,
    }
}

/// What is told of a reset.
pub open spec fn reset_report_of(
    path: Seq<char>,
    was_installed: bool,
    drop_dir: Seq<u8>,
    config_dir: Option<Seq<u8>>,
    still_running: nat,
) -> Seq<Seq<char>> {
    seq![
        "Reset to factory defaults."@,
        "  lockdown rules, refresh helper, and polkit action: "@ + (if was_installed {
            "removed"@
        } else {
            "were not installed"@
        }),
        "  settings: "@ + path,
    ] + (if is_outside(drop_dir, config_dir) {
        seq!["  profile drop directory left in place: "@ + lossy_text(drop_dir)]
    } else {
        Seq::empty()
    }) + (if still_running > 0 {
        seq![
            "  "@ + decimal(still_running)
                + " daemon(s) did not exit; close them before logging in again."@,
        ]
    } else {
        Seq::empty()
    })
}

/// What is told of a reset: a drop directory outside the settings is named and
/// left alone, since it holds files of the user. `path` is the file of the settings
/// as it is shown.
pub fn reset_report(
    path: &str,
    was_installed: bool,
    drop_dir: &[u8],
    config_dir: Option<&[u8]>,
    still_running: usize,
) -> (r: Vec<String>)
    ensures
        r.deep_view() == reset_report_of(
            path@,
            was_installed,
            drop_dir@,
            opt_path(config_dir),
            still_running as nat,
        ),
{
    let state = if was_installed { "removed" } else { "were not installed" };
    let mut r = vec![
        "Reset to factory defaults.".to_owned(),
        "  lockdown rules, refresh helper, and polkit action: ".to_owned().concat(state),
        "  settings: ".to_owned().concat(path),
    ];
    let outside = match config_dir {
        Some(root) => !lies_within(drop_dir, root),
        None => true,
    };
    if outside {
        let shown = from_utf8_lossy(drop_dir);
        r.push("  profile drop directory left in place: ".to_owned().concat(shown.as_str()));
    }
    if still_running > 0 {
        let n = decimal_string(still_running as u128);
        r.push(
            "  ".to_owned().concat(n.as_str()).concat(
                " daemon(s) did not exit; close them before logging in again.",
            ),
        );
    }
    assert(r.deep_view() =~= reset_report_of(
        path@,
        was_installed,
        drop_dir@,
        opt_path(config_dir),
        still_running as nat,
    ));
    r
}

// ---------------------------------------------------------------------------
// Uninstalling
// ---------------------------------------------------------------------------

/// Whether `r` is what withdrawing and then dealing with the settings came to: a
/// withdrawal that failed decides alone.
pub open spec fn purge_run<
    V: FnOnce() -> AppResult<bool>,
    P: FnOnce() -> AppResult<Option<Vec<u8>>>,
>(revoke: V, settings: P, r: AppResult<Option<Vec<u8>>>) -> bool {
    exists|v: AppResult<bool>| #[trigger]
        revoke.ensures((), v) && match v {
            Err(e) => r == Err::<Option<Vec<u8>>, AppError>(e),
            Ok(_) => settings.ensures((), r),
        }
}

/// Withdraw what is installed and, where that succeeded, deal with the settings.
/// `settings` removes them or keeps them, and names a drop directory that was left.
pub fn revoke_and_purge<
    V: FnOnce() -> AppResult<bool>,
    P: FnOnce() -> AppResult<Option<Vec<u8>>>,
>(revoke: V, settings: P) -> (r: AppResult<Option<Vec<u8>>>)
    requires
        revoke.requires(()),
        forall|v: AppResult<bool>| #[trigger]
            revoke.ensures((), v) && v is Ok ==> settings.requires(()),
    ensures
        purge_run(revoke, settings, r),
{
    let v = revoke();
    assert(revoke.ensures((), v));
    match v {
        Ok(_) => {
            let p = settings();
            assert(settings.ensures((), p));
            p
        },
        Err(e) => Err(e),
    }
}

/// The drop directory that a purge leaves behind: the one that the settings
/// recorded, where it lies outside their own directory. Where no settings could be
/// read nothing is recorded, and nothing is named.
pub open spec fn kept_dir(recorded: Option<Seq<u8>>, config_dir: Seq<u8>) -> Option<Seq<u8>> {
    match recorded {
        Some(dir) => if dir.len() > 0 && !is_within(dir, config_dir) {
            Some(dir)
        } else {
            None
        },
        None => None,
    }
}

/// The drop directory that a purge leaves behind.
pub fn kept_drop_dir(recorded: Option<&[u8]>, config_dir: &[u8]) -> (r: Option<Vec<u8>>)
    ensures
        opt_bytes(r) == kept_dir(opt_path(recorded), config_dir@),
{
    match recorded {
        Some(dir) => if dir.len() > 0 && !lies_within(dir, config_dir) {
            Some(slice_to_vec(dir))
        } else {
            None
        },
        None => None,
    }
}

/// Why a directory was not deleted.
#[derive(Debug)]
pub enum DeleteFault {
    /// There is none.
    Missing,
    Failed(AppError),
}

/// Whether `left` is the drop directory that is left where the settings were those,
/// as far as they could be read.
pub open spec fn is_left(
    recorded: Option<AppConfig>,
    config_dir: Seq<u8>,
    left: Option<Seq<u8>>,
) -> bool {
    match recorded {
        Some(config) => exists|dir: Seq<u8>| #[trigger]
            is_drop_dir(dir, config.general.profiles_dir@) && left == kept_dir(
                Some(dir),
                config_dir,
            ),
        None => left is None,
    }
}

/// Whether `r` is what dealing with the settings came to. Without a purge, or where
/// they are in no directory, nothing is done. A purge reads them, deletes their
/// directory and names the drop directory that is left; that there is no directory
/// is no failure.
pub open spec fn settings_run<
    L: FnOnce() -> Option<AppConfig>,
    D: FnOnce() -> Result<(), DeleteFault>,
>(
    purge: bool,
    config_dir: Option<Seq<u8>>,
    recorded: L,
    delete: D,
    r: AppResult<Option<Vec<u8>>>,
) -> bool {
    match config_dir {
        Some(dir) if purge => exists|c: Option<AppConfig>, d: Result<(), DeleteFault>|
            #![trigger recorded.ensures((), c), delete.ensures((), d)]
            recorded.ensures((), c) && delete.ensures((), d) && match d {
                Err(DeleteFault::Failed(e)) => r == Err::<Option<Vec<u8>>, AppError>(e),
                _ => r matches Ok(left) && is_left(c, dir, opt_bytes(left)),
            },
        _ => r == Ok::<Option<Vec<u8>>, AppError>(None),
    }
}

/// Delete the directory of the settings where `purge` asks for that. `recorded`
/// reads the settings, where there are any that can be read, and `delete` deletes
/// the directory. The settings are read first: they are the only record of the drop
/// directory, which is named where it is left.
pub fn remove_app_settings<
    L: FnOnce() -> Option<AppConfig>,
    D: FnOnce() -> Result<(), DeleteFault>,
>(purge: bool, config_dir: Option<&[u8]>, recorded: L, delete: D) -> (r: AppResult<
    Option<Vec<u8>>,
>)
    requires
        purge && config_dir is Some ==> recorded.requires(()),
        forall|c: Option<AppConfig>| #[trigger]
            recorded.ensures((), c) && purge && config_dir is Some ==> delete.requires(()),
    ensures
        settings_run(purge, opt_path(config_dir), recorded, delete, r),
{
    let dir = match config_dir {
        Some(dir) => dir,
        None => {
            return Ok(None);
        },
    };
    if !purge {
        return Ok(None);
    }
    let c = recorded();
    let ghost known = c;
    assert(recorded.ensures((), known));
    let drop_dir = match &c {
        Some(config) => Some(resolve_profiles_dir(config)),
        None => None,
    };
    let d = delete();
    assert(delete.ensures((), d));
    if let Err(DeleteFault::Failed(e)) = d {
        return Err(e);
    }
    match &drop_dir {
        Some(found) => {
            let left = kept_drop_dir(Some(found.as_slice()), dir);
            assert(is_drop_dir(found@, known->0.general.profiles_dir@));
            assert(is_left(known, dir@, opt_bytes(left)));
            Ok(left)
        },
        None => Ok(None),
    }
}

/// What is told of the directory of the settings, as it is shown.
pub fn settings_notice(purge: bool, dir: &str) -> (r: String)
    ensures
        r@ == (if purge {
            "Removed "@
        } else {
            "Settings kept at "@
        }) + dir@,
{
    let said = if purge { "Removed " } else { "Settings kept at " };
    said.to_owned().concat(dir)
}

/// The unit that starts a random profile at login.
pub const UNIT: &'static str = "neutron-startup-random.service";

/// Where the unit is, given the directory of the settings of all programs.
pub open spec fn unit_path_of(root: Seq<u8>) -> Seq<u8> {
    path_join(path_join(root, encode_utf8("systemd/user"@)), encode_utf8(UNIT@))
}

/// Where the unit is.
pub fn unit_path(config_root: &[u8]) -> (r: Vec<u8>)
    ensures
        r@ == unit_path_of(config_root@),
{
    let dir = join(config_root, "systemd/user".as_bytes());
    join(dir.as_slice(), UNIT.as_bytes())
}

/// What is told of a unit that is left: it was installed by hand, and is named so
/// that it can be removed by hand.
pub fn unit_notice(unit: &str) -> (r: String)
    ensures
        r@ == "systemd user unit left in place: "@ + unit@
            + "\n  systemctl --user disable --now neutron-startup-random.service && rm "@ + unit@,
{
    "systemd user unit left in place: ".to_owned().concat(unit).concat(
        "\n  systemctl --user disable --now neutron-startup-random.service && rm ",
    ).concat(unit)
}

/// Whether `r` is what an uninstallation came to: an unknown source of the
/// installation decides alone, then a withdrawal that failed, then the package.
pub open spec fn uninstall_run<
    V: FnOnce() -> AppResult<()>,
    P: FnOnce(&Removal) -> AppResult<()>,
>(removal: AppResult<Removal>, revoke: V, package: P, r: AppResult<()>) -> bool {
    match removal {
        Err(e) => r == Err::<(), AppError>(e),
        Ok(how) => exists|v: AppResult<()>| #[trigger]
            revoke.ensures((), v) && match v {
                Err(e) => r == Err::<(), AppError>(e),
                Ok(_) => package.ensures((&how,), r),
            },
    }
}

/// Uninstall the program: withdraw everything that is outside its package, then
/// remove the package by the tool that installed it.
pub fn uninstall<V: FnOnce() -> AppResult<()>, P: FnOnce(&Removal) -> AppResult<()>>(
    removal: AppResult<Removal>,
    revoke: V,
    package: P,
) -> (r: AppResult<()>)
    requires
        removal is Ok ==> revoke.requires(()),
        forall|v: AppResult<()>, how: &Removal|
            removal == Ok::<Removal, AppError>(*how) && #[trigger] revoke.ensures((), v) && v is Ok
                ==> #[trigger] package.requires((how,)),
    ensures
        uninstall_run(removal, revoke, package, r),
{
    let how = match removal {
        Ok(how) => how,
        Err(e) => {
            return Err(e);
        },
    };
    let v = revoke();
    assert(revoke.ensures((), v));
    match v {
        Ok(_) => {},
        Err(e) => {
            return Err(e);
        },
    }
    let p = package(&how);
    assert(package.ensures((&how,), p));
    p
}

/// How the tool that removes the package ended.
#[derive(Debug)]
pub enum ToolOutcome {
    /// It could not be started.
    NotStarted(String),
    /// It failed, with its status as the system describes it.
    Failed(String),
    Succeeded,
}

/// What removing the package comes to.
pub fn package_outcome(program: &str, outcome: &ToolOutcome) -> (r: AppResult<String>)
    ensures
        match outcome {
            ToolOutcome::NotStarted(why) => r matches Err(AppError::CommandFailed(m)) && m@
                == program@ + ": "@ + why@,
            ToolOutcome::Failed(status) => r matches Err(AppError::CommandFailed(m)) && m@
                == program@ + " exited with "@ + status@
                + "; Neutron's own state is already revoked"@,
            ToolOutcome::Succeeded => r matches Ok(line) && line@ == "Removed the "@ + program@
                + " install of Neutron."@,
        },
{
    match outcome {
        ToolOutcome::NotStarted(why) => Err(
            AppError::CommandFailed(program.to_owned().concat(": ").concat(why.as_str())),
        ),
        ToolOutcome::Failed(status) => Err(
            AppError::CommandFailed(
                program.to_owned().concat(" exited with ").concat(status.as_str()).concat(
                    "; Neutron's own state is already revoked",
                ),
            ),
        ),
        ToolOutcome::Succeeded => Ok(
            "Removed the ".to_owned().concat(program).concat(" install of Neutron."),
        ),
    }
}

/// What is told of daemons that did not end.
pub fn daemons_notice(still_running: usize) -> (r: Option<String>)
    ensures
        match r {
            Some(line) => still_running > 0 && line@ == decimal(still_running as nat)
                + " Neutron daemon(s) did not exit; they can re-apply policies until closed."@,
            None => still_running == 0,
        },
{
    if still_running == 0 {
        return None;
    }
    let n = decimal_string(still_running as u128);
    Some(n.concat(" Neutron daemon(s) did not exit; they can re-apply policies until closed."))
}

/// A withdrawal that can only fail ends a purge with its own error.
pub proof fn law_failed_revocation_ends_a_purge<
    V: FnOnce() -> AppResult<bool>,
    P: FnOnce() -> AppResult<Option<Vec<u8>>>,
>(revoke: V, settings: P, r: AppResult<Option<Vec<u8>>>)
    requires
        purge_run(revoke, settings, r),
        forall|v: AppResult<bool>| #[trigger] revoke.ensures((), v) ==> v is Err,
    ensures
        exists|e: AppError| #[trigger]
            revoke.ensures((), Err::<bool, AppError>(e)) && r == Err::<Option<Vec<u8>>, AppError>(e),
{
    let v = choose|v: AppResult<bool>| #[trigger]
        revoke.ensures((), v) && match v {
            Err(e) => r == Err::<Option<Vec<u8>>, AppError>(e),
            Ok(_) => settings.ensures((), r),
        };
    assert(revoke.ensures((), Err::<bool, AppError>(v->Err_0)));
}

/// Whether settings split traffic, or hold anything by which it could be split.
pub open spec fn has_split_settings(config: AppConfig) -> bool {
    config.global_split_tunnel.mode != SplitTunnelMode::Disabled
        || config.global_split_tunnel@.cidrs.len() > 0 || config.global_split_tunnel@.domains.len()
        > 0
}

/// A reset that succeeds revoked what was installed, withdrew the kill switch where
/// it was on and the routes where traffic was split, and stored the settings.
pub proof fn law_reset_withdraws_everything<
    V: FnOnce() -> AppResult<bool>,
    K: FnOnce() -> AppResult<()>,
    C: FnOnce() -> AppResult<()>,
    S: FnOnce() -> AppResult<()>,
>(before: AppConfig, revoke: V, kill_switch: K, split: C, save: S, there: bool)
    requires
        reset_run(before, revoke, kill_switch, split, save, Ok::<bool, AppError>(there)),
    ensures
        revoke.ensures((), Ok::<bool, AppError>(there)),
        before.kill_switch_enabled ==> kill_switch.ensures((), Ok::<(), AppError>(())),
        has_split_settings(before) ==> split.ensures((), Ok::<(), AppError>(())),
        save.ensures((), Ok::<(), AppError>(())),
{
    let r = Ok::<bool, AppError>(there);
    let done = Ok::<(), AppError>(());
    let v = choose|v: AppResult<bool>| #[trigger]
        revoke.ensures((), v) && match v {
            Err(e) => r == Err::<bool, AppError>(e),
            Ok(there) => exists|k: AppResult<()>| #[trigger]
                step(before.kill_switch_enabled, kill_switch, k) && match k {
                    Err(e) => r == Err::<bool, AppError>(e),
                    Ok(_) => exists|c: AppResult<()>| #[trigger]
                        step(splits(before), split, c) && match c {
                            Err(e) => r == Err::<bool, AppError>(e),
                            Ok(_) => exists|s: AppResult<()>| #[trigger]
                                save.ensures((), s) && match s {
                                    Err(e) => r == Err::<bool, AppError>(e),
                                    Ok(_) => r == Ok::<bool, AppError>(there),
                                },
                        },
                },
        };
    let k = choose|k: AppResult<()>| #[trigger]
        step(before.kill_switch_enabled, kill_switch, k) && match k {
            Err(e) => r == Err::<bool, AppError>(e),
            Ok(_) => exists|c: AppResult<()>| #[trigger]
                step(splits(before), split, c) && match c {
                    Err(e) => r == Err::<bool, AppError>(e),
                    Ok(_) => exists|s: AppResult<()>| #[trigger]
                        save.ensures((), s) && match s {
                            Err(e) => r == Err::<bool, AppError>(e),
                            Ok(_) => r == Ok::<bool, AppError>(v->Ok_0),
                        },
                },
        };
    let c = choose|c: AppResult<()>| #[trigger]
        step(splits(before), split, c) && match c {
            Err(e) => r == Err::<bool, AppError>(e),
            Ok(_) => exists|s: AppResult<()>| #[trigger]
                save.ensures((), s) && match s {
                    Err(e) => r == Err::<bool, AppError>(e),
                    Ok(_) => r == Ok::<bool, AppError>(v->Ok_0),
                },
        };
    let s = choose|s: AppResult<()>| #[trigger]
        save.ensures((), s) && match s {
            Err(e) => r == Err::<bool, AppError>(e),
            Ok(_) => r == Ok::<bool, AppError>(v->Ok_0),
        };
    let (x, y, z): ((), (), ()) = (k->Ok_0, c->Ok_0, s->Ok_0);
    assert(x == () && y == () && z == ());
    assert(v == r && k == done && c == done && s == done);
}

/// Revoking that succeeds tore down what was installed, where anything was, and
/// removed the autostart entry.
pub proof fn law_revoking_tears_down<T: FnOnce() -> AppResult<()>, U: FnOnce() -> AppResult<()>>(
    installed: AppResult<bool>,
    teardown: T,
    autostart: U,
    there: bool,
)
    requires
        revoked(installed, teardown, autostart, Ok::<bool, AppError>(there)),
    ensures
        installed == Ok::<bool, AppError>(there),
        there ==> teardown.ensures((), Ok::<(), AppError>(())),
        autostart.ensures((), Ok::<(), AppError>(())),
{
    let r = Ok::<bool, AppError>(there);
    let done = Ok::<(), AppError>(());
    let found = installed->Ok_0;
    let t = choose|t: AppResult<()>| #[trigger]
        step(found, teardown, t) && match t {
            Err(e) => r == Err::<bool, AppError>(e),
            Ok(_) => exists|u: AppResult<()>| #[trigger]
                autostart.ensures((), u) && match u {
                    Err(e) => r == Err::<bool, AppError>(e),
                    Ok(_) => r == Ok::<bool, AppError>(found),
                },
        };
    let u = choose|u: AppResult<()>| #[trigger]
        autostart.ensures((), u) && match u {
            Err(e) => r == Err::<bool, AppError>(e),
            Ok(_) => r == Ok::<bool, AppError>(found),
        };
    let (x, y): ((), ()) = (t->Ok_0, u->Ok_0);
    assert(x == () && y == ());
    assert(t == done && u == done);
}

/// Uninstalling removes the package only where its package manager is known and
/// everything else was revoked before.
pub proof fn law_uninstalling_revokes_first<
    V: FnOnce() -> AppResult<()>,
    P: FnOnce(&Removal) -> AppResult<()>,
>(removal: AppResult<Removal>, revoke: V, package: P, r: AppResult<()>)
    requires
        uninstall_run(removal, revoke, package, r),
    ensures
        r is Ok ==> removal is Ok && revoke.ensures((), Ok::<(), AppError>(()))
            && package.ensures((&removal->Ok_0,), Ok::<(), AppError>(())),
        removal matches Err(e) ==> r == Err::<(), AppError>(e),
{
    if r is Ok {
        let done = Ok::<(), AppError>(());
        let how = removal->Ok_0;
        let v = choose|v: AppResult<()>| #[trigger]
            revoke.ensures((), v) && match v {
                Err(e) => r == Err::<(), AppError>(e),
                Ok(_) => package.ensures((&how,), r),
            };
        let (x, y): ((), ()) = (v->Ok_0, r->Ok_0);
        assert(x == () && y == ());
        assert(v == done && r == done);
    }
}

/// Settings are kept unless they are to be purged; they are told to be purged only
/// where they were deleted, or were not there.
pub proof fn law_settings_are_kept_unless_purged<
    L: FnOnce() -> Option<AppConfig>,
    D: FnOnce() -> Result<(), DeleteFault>,
>(
    purge: bool,
    config_dir: Option<Seq<u8>>,
    recorded: L,
    delete: D,
    r: AppResult<Option<Vec<u8>>>,
)
    requires
        settings_run(purge, config_dir, recorded, delete, r),
    ensures
        !purge || config_dir is None ==> r == Ok::<Option<Vec<u8>>, AppError>(None),
        purge && config_dir is Some && r is Ok ==> exists|d: Result<(), DeleteFault>| #[trigger]
            delete.ensures((), d) && !(d matches Err(DeleteFault::Failed(_))),
{
}

/// A drop directory is told to be left in place exactly where it lies outside of the
/// settings' own directory.
pub proof fn law_foreign_drop_directory_is_told(
    recorded: Option<Seq<u8>>,
    config_dir: Seq<u8>,
    dir: Seq<u8>,
)
    ensures
        kept_dir(recorded, config_dir) == Some(dir) <==> recorded == Some(dir) && dir.len() > 0
            && !is_within(dir, config_dir),
        is_outside(dir, Some(config_dir)) <==> !is_within(dir, config_dir),
        is_outside(dir, None),
{
}

} // verus!
