//! The commands of the command line, and what they say.

use vstd::prelude::*;
use vstd::string::*;

use crate::app::eligibility::{set_profile_eligible, with_eligible};
use crate::app::policy::{can_set_kill_switch, can_set_lockdown, kill_switch_set, lockdown_set, set_global_kill_switch, set_global_lockdown};
use crate::collections::{ascending, IdSet};
use crate::config::AppConfig;
use crate::error::{AppError, AppResult};
use crate::nm::endpoints::WireguardTunnel;
use crate::nm::profiles::{find_unique_profile_by_identifier, found_by_identifier, found_view, profile_views, ProfileView, WireguardProfile};
use crate::text::same;

verus! {

// ---------------------------------------------------------------------------
// The commands
// ---------------------------------------------------------------------------

/// What the command line asks for.
#[derive(Debug)]
pub struct Cli {
    pub command: Option<Commands>,
}

/// A command.
#[derive(Debug)]
pub enum Commands {
    Tui,
    Sync,
    List,
    Connect { profile: String },
    Disconnect,
    Switch { profile: String },
    Eligible(EligibleCommands),
    Favorite(FavoriteCommands),
    StartupRandom,
    KillSwitch(PolicyCommands),
    Lockdown(PolicyCommands),
    SplitTunnel(SplitTunnelCommands),
    Qbit(QbitCommands),
    Indicator,
    Uninstall { purge: bool },
    Restart,
}

/// A command on the profiles that can be selected at random.
#[derive(Debug)]
pub enum EligibleCommands {
    List,
    Add { profile: String },
    Remove { profile: String },
}

/// A command on the favorites.
#[derive(Debug)]
pub enum FavoriteCommands {
    List,
    Add { profile: String },
    Remove { profile: String },
}

/// A command on a policy.
#[derive(Debug, Clone, Copy, PartialEq, Eq, Structural)]
pub enum PolicyCommands {
    Status,
    Enable,
    Disable,
}

/// A command on the split tunneling.
#[derive(Debug)]
pub enum SplitTunnelCommands {
    Status,
    SetMode { mode: String },
    AddCidr { cidr: String },
    RemoveCidr { cidr: String },
    AddDomain { domain: String },
    RemoveDomain { domain: String },
    Clear,
}

/// A command on the synchronization with qBittorrent.
#[derive(Debug)]
pub enum QbitCommands {
    Status,
    Test,
    Sync,
    Enable,
    Disable,
    Config {
        url: Option<String>,
        username: Option<String>,
        password: Option<String>,
        bind: Option<bool>,
    },
}

// ---------------------------------------------------------------------------
// Profiles
// ---------------------------------------------------------------------------

/// The identifier that finding a profile gives.
pub open spec fn id_of(found: Result<ProfileView, AppError>, r: AppResult<String>) -> bool {
    match found {
        Ok(p) => r matches Ok(id) && id@ == p.uuid,
        Err(e) => r == Err::<String, AppError>(e),
    }
}

/// Whether a result is the identifier of a profile that a user named.
pub open spec fn resolves(
    profiles: Seq<ProfileView>,
    identifier: Seq<char>,
    r: AppResult<String>,
) -> bool {
    exists|found: Result<ProfileView, AppError>| #[trigger]
        found_by_identifier(found, profiles, identifier) && id_of(found, r)
}

/// The identifier of a profile that a user named by identifier or name.
pub fn resolve_profile_id(profiles: &[WireguardProfile], profile_identifier: &str) -> (r: AppResult<
    String,
>)
    ensures
        resolves(profile_views(profiles@), profile_identifier@, r),
{
    let found = find_unique_profile_by_identifier(profiles, profile_identifier);
    assert(found_by_identifier(found_view(found), profile_views(profiles@), profile_identifier@));
    match found {
        Ok(p) => Ok(p.uuid.clone()),
        Err(e) => Err(e),
    }
}

/// A profile that was named, with its identifier, after what is said of it.
pub open spec fn named(said: Seq<char>, profile: Seq<char>, id: Seq<char>) -> Seq<char> {
    said + profile + " ("@ + id + ")"@
}

/// A profile that was named, after what is said of it.
fn name_line(said: &str, profile: &str, id: &str) -> (r: String)
    ensures
        r@ == named(said@, profile@, id@),
{
    said.to_owned().concat(profile).concat(" (").concat(id).concat(")")
}

/// The line of an excluded profile: the name of the first profile with the
/// identifier, where there is one at or after `i`.
pub open spec fn excluded_line(profiles: Seq<ProfileView>, id: Seq<char>, i: int) -> Seq<char>
    decreases profiles.len() - i,
{
    if i < 0 || i >= profiles.len() {
        named("  "@, "<unknown>"@, id)
    } else if profiles[i].uuid == id {
        named("  "@, profiles[i].name, id)
    } else {
        excluded_line(profiles, id, i + 1)
    }
}

/// The line of an excluded profile.
fn excluded_text(profiles: &[WireguardProfile], id: &str) -> (r: String)
    ensures
        r@ == excluded_line(profile_views(profiles@), id@, 0),
{
    let ghost views = profile_views(profiles@);
    let mut i: usize = 0;
    while i < profiles.len()
        invariant
            i <= profiles.len(),
            views == profile_views(profiles@),
            excluded_line(views, id@, 0) == excluded_line(views, id@, i as int),
        decreases profiles.len() - i,
    {
        assert(views[i as int] == profiles[i as int]@);
        if same(profiles[i].uuid.as_str(), id) {
            return name_line("  ", profiles[i].name.as_str(), id);
        }
        i += 1;
    }
    name_line("  ", "<unknown>", id)
}

/// Whether a list holds the identifiers of a set, in ascending order.
pub open spec fn enumerates(ids: Seq<Seq<char>>, set: Set<Seq<char>>) -> bool {
    ascending(ids) && forall|x: Seq<char>| ids.contains(x) <==> #[trigger] set.contains(x)
}

/// The listing of the excluded profiles.
pub open spec fn eligible_listing(ids: Seq<Seq<char>>, profiles: Seq<ProfileView>) -> Seq<
    Seq<char>,
> {
    if ids.len() == 0 {
        seq!["All profiles are eligible for startup-random (none excluded)."@]
    } else {
        seq!["Profiles excluded from startup-random:"@] + ids.map_values(
            |id: Seq<char>| excluded_line(profiles, id, 0),
        )
    }
}

/// The listing of the excluded profiles. A profile is eligible unless it is
/// excluded, so the excluded ones are listed.
pub fn list_excluded(excluded: &IdSet, profiles: &[WireguardProfile]) -> (r: Vec<String>)
    ensures
        exists|ids: Seq<Seq<char>>| #[trigger]
            enumerates(ids, excluded@) && r.deep_view() == eligible_listing(
                ids,
                profile_views(profiles@),
            ),
{
    let ids = excluded.to_vec();
    let ghost all = ids.deep_view();
    let ghost views = profile_views(profiles@);
    assert(enumerates(all, excluded@));
    if ids.len() == 0 {
        let r = vec!["All profiles are eligible for startup-random (none excluded).".to_owned()];
        assert(r.deep_view() =~= eligible_listing(all, views));
        return r;
    }
    let ghost target = eligible_listing(all, views);
    let mut r = vec!["Profiles excluded from startup-random:".to_owned()];
    let mut i: usize = 0;
    assert(r.deep_view() =~= target.take(1));
    while i < ids.len()
        invariant
            i <= ids.len(),
            ids.len() > 0,
            all == ids.deep_view(),
            views == profile_views(profiles@),
            target == eligible_listing(all, views),
            r.deep_view() == target.take(i as int + 1),
        decreases ids.len() - i,
    {
        let ghost before = r.deep_view();
        assert(all[i as int] == ids[i as int]@);
        r.push(excluded_text(profiles, ids[i].as_str()));
        assert(r.deep_view() =~= before.push(target[i as int + 1]));
        i += 1;
    }
    assert(target.take(i as int + 1) =~= target);
    r
}

/// What is said when a profile is made eligible or excluded.
pub open spec fn eligible_said(eligible: bool, changed: bool) -> Seq<char> {
    if eligible {
        if changed {
            "Profile is now eligible for startup-random: "@
        } else {
            "Profile already eligible: "@
        }
    } else {
        if changed {
            "Profile excluded from startup-random: "@
        } else {
            "Profile already excluded: "@
        }
    }
}

/// Make a profile that a user named eligible, or exclude it; the result is what is
/// said of it.
pub fn change_eligibility(
    config: &mut AppConfig,
    profiles: &[WireguardProfile],
    profile: &str,
    eligible: bool,
) -> (r: AppResult<String>)
    ensures
        *final(config) == (AppConfig {
            excluded_profile_ids: final(config).excluded_profile_ids,
            ..*old(config)
        }),
        exists|id: AppResult<String>| #[trigger]
            resolves(profile_views(profiles@), profile@, id) && match id {
                Ok(uuid) => {
                    &&& final(config).excluded_profile_ids@ == with_eligible(
                        old(config).excluded_profile_ids@,
                        uuid@,
                        eligible,
                    )
                    &&& r matches Ok(line) && line@ == named(
                        eligible_said(
                            eligible,
                            old(config).excluded_profile_ids@.contains(uuid@) == eligible,
                        ),
                        profile@,
                        uuid@,
                    )
                },
                Err(e) => {
                    &&& *final(config) == *old(config)
                    &&& r == Err::<String, AppError>(e)
                },
            },
{
    let id = resolve_profile_id(profiles, profile);
    assert(resolves(profile_views(profiles@), profile@, id));
    match id {
        Ok(uuid) => {
            let changed = set_profile_eligible(
                &mut config.excluded_profile_ids,
                uuid.as_str(),
                eligible,
            );
            let said = if eligible {
                if changed {
                    "Profile is now eligible for startup-random: "
                } else {
                    "Profile already eligible: "
                }
            } else {
                if changed {
                    "Profile excluded from startup-random: "
                } else {
                    "Profile already excluded: "
                }
            };
            Ok(name_line(said, profile, uuid.as_str()))
        },
        Err(e) => Err(e),
    }
}

/// The line of a profile in the list of favorites.
pub open spec fn favorite_line(p: ProfileView, favorites: Set<Seq<char>>) -> Seq<char> {
    named(
        if favorites.contains(p.uuid) {
            "★ "@
        } else {
            "  "@
        },
        p.name,
        p.uuid,
    )
}

/// The list of profiles with the favorites marked.
pub fn list_favorites(favorites: &IdSet, profiles: &[WireguardProfile]) -> (r: Vec<String>)
    ensures
        r.deep_view() == profile_views(profiles@).map_values(
            |p: ProfileView| favorite_line(p, favorites@),
        ),
{
    let ghost views = profile_views(profiles@);
    let ghost target = views.map_values(|p: ProfileView| favorite_line(p, favorites@));
    let mut r: Vec<String> = Vec::new();
    let mut i: usize = 0;
    while i < profiles.len()
        invariant
            i <= profiles.len(),
            views == profile_views(profiles@),
            target == views.map_values(|p: ProfileView| favorite_line(p, favorites@)),
            r.deep_view() == target.take(i as int),
        decreases profiles.len() - i,
    {
        let ghost before = r.deep_view();
        let p = &profiles[i];
        assert(views[i as int] == p@);
        let mark = if favorites.contains(p.uuid.as_str()) { "★ " } else { "  " };
        r.push(name_line(mark, p.name.as_str(), p.uuid.as_str()));
        assert(r.deep_view() =~= before.push(target[i as int]));
        i += 1;
    }
    assert(target.take(i as int) =~= target);
    r
}

/// What is said when a favorite is added or removed.
pub open spec fn favorite_said(favorite: bool, changed: bool) -> Seq<char> {
    if favorite {
        if changed {
            "Starred profile as favorite: "@
        } else {
            "Profile already in favorites: "@
        }
    } else {
        if changed {
            "Removed profile from favorites: "@
        } else {
            "Profile not in favorites: "@
        }
    }
}

/// Add a profile that a user named to the favorites, or remove it; the result is
/// what is said of it.
pub fn change_favorite(
    config: &mut AppConfig,
    profiles: &[WireguardProfile],
    profile: &str,
    favorite: bool,
) -> (r: AppResult<String>)
    ensures
        *final(config) == (AppConfig {
            favorite_profile_ids: final(config).favorite_profile_ids,
            ..*old(config)
        }),
        exists|id: AppResult<String>| #[trigger]
            resolves(profile_views(profiles@), profile@, id) && match id {
                Ok(uuid) => {
                    &&& final(config).favorite_profile_ids@ == (if favorite {
                        old(config).favorite_profile_ids@.insert(uuid@)
                    } else {
                        old(config).favorite_profile_ids@.remove(uuid@)
                    })
                    &&& r matches Ok(line) && line@ == named(
                        favorite_said(
                            favorite,
                            old(config).favorite_profile_ids@.contains(uuid@) != favorite,
                        ),
                        profile@,
                        uuid@,
                    )
                },
                Err(e) => {
                    &&& *final(config) == *old(config)
                    &&& r == Err::<String, AppError>(e)
                },
            },
{
    let id = resolve_profile_id(profiles, profile);
    assert(resolves(profile_views(profiles@), profile@, id));
    match id {
        Ok(uuid) => {
            let (changed, said) = if favorite {
                if config.favorite_profile_ids.insert(uuid.clone()) {
                    (true, "Starred profile as favorite: ")
                } else {
                    (false, "Profile already in favorites: ")
                }
            } else {
                if config.favorite_profile_ids.remove(uuid.as_str()) {
                    (true, "Removed profile from favorites: ")
                } else {
                    (false, "Profile not in favorites: ")
                }
            };
            assert(said@ == favorite_said(favorite, changed));
            Ok(name_line(said, profile, uuid.as_str()))
        },
        Err(e) => Err(e),
    }
}

// ---------------------------------------------------------------------------
// Policies
// ---------------------------------------------------------------------------

/// What is said of the kill switch after a command.
pub open spec fn kill_switch_said(command: PolicyCommands, on: bool) -> Seq<char> {
    match command {
        PolicyCommands::Status => "Kill switch (all profiles): "@ + (if on {
            "on"@
        } else {
            "off"@
        }),
        PolicyCommands::Enable => "Kill switch enabled for all profiles (applies on next connect; full-tunnel profiles only)."@,
        PolicyCommands::Disable => "Kill switch disabled for all profiles (applies on next connect)."@,
    }
}

/// What a change comes to, where it is told afterwards.
pub open spec fn told(done: AppResult<()>, said: Seq<char>, r: AppResult<String>) -> bool {
    match done {
        Ok(_) => r matches Ok(line) && line@ == said,
        Err(e) => r == Err::<String, AppError>(e),
    }
}

/// Carry out a command on the kill switch. `lock` says whether changes could be
/// coordinated, `apply` sets the kill switch in NetworkManager, `load` reads the settings and `store` stores them. The status
/// only reads.
pub fn handle_kill_switch_command<
    A: FnOnce(bool) -> AppResult<()>,
    L: FnOnce() -> AppResult<AppConfig>,
    S: FnOnce(&AppConfig) -> AppResult<()>,
>(command: PolicyCommands, lock: AppResult<()>, apply: A, load: L, store: S) -> (r: AppResult<
    String,
>)
    requires
        command is Status ==> load.requires(()),
        command is Enable && lock is Ok ==> can_set_kill_switch(true, apply, load, store),
        command is Disable && lock is Ok ==> can_set_kill_switch(false, apply, load, store),
    ensures
        match command {
            PolicyCommands::Status => exists|c: AppResult<AppConfig>| #[trigger]
                load.ensures((), c) && match c {
                    Ok(cfg) => r matches Ok(line) && line@ == kill_switch_said(
                        command,
                        cfg.kill_switch_enabled,
                    ),
                    Err(e) => r == Err::<String, AppError>(e),
                },
            PolicyCommands::Enable => match lock {
                Err(e) => r == Err::<String, AppError>(e),
                Ok(_) => exists|done: AppResult<()>| #[trigger]
                    kill_switch_set(true, apply, load, store, done) && told(
                        done,
                        kill_switch_said(command, true),
                        r,
                    ),
            },
            PolicyCommands::Disable => match lock {
                Err(e) => r == Err::<String, AppError>(e),
                Ok(_) => exists|done: AppResult<()>| #[trigger]
                    kill_switch_set(false, apply, load, store, done) && told(
                        done,
                        kill_switch_said(command, false),
                        r,
                    ),
            },
        },
{
    match command {
        PolicyCommands::Status => {
            let c = load();
            assert(load.ensures((), c));
            match c {
                Ok(cfg) => {
                    let label = if cfg.kill_switch_enabled { "on" } else { "off" };
                    Ok("Kill switch (all profiles): ".to_owned().concat(label))
                },
                Err(e) => Err(e),
            }
        },
        PolicyCommands::Enable => {
            let done = set_global_kill_switch(true, lock, apply, load, store);
            match done {
                Ok(_) => Ok(
                    "Kill switch enabled for all profiles (applies on next connect; full-tunnel profiles only).".to_owned(),
                ),
                Err(e) => Err(e),
            }
        },
        PolicyCommands::Disable => {
            let done = set_global_kill_switch(false, lock, apply, load, store);
            match done {
                Ok(_) => Ok(
                    "Kill switch disabled for all profiles (applies on next connect).".to_owned(),
                ),
                Err(e) => Err(e),
            }
        },
    }
}

/// What is said of the lockdown after a command.
pub open spec fn lockdown_said(command: PolicyCommands, on: bool) -> Seq<char> {
    match command {
        PolicyCommands::Status => "Lockdown saved intent: "@ + (if on {
            "on"@
        } else {
            "off"@
        }) + " (effective firewall state is not verified)"@,
        PolicyCommands::Enable => "Lockdown enabled: all traffic is blocked except the WireGuard tunnel, its handshake, and DNS."@,
        PolicyCommands::Disable => "Lockdown disabled: normal connectivity restored."@,
    }
}

/// Carry out a command on the lockdown. `lock` says whether changes could be
/// coordinated, `tunnels` reads the tunnels that there are, `install` installs the
/// rules for tunnels, `remove` removes the rules, `load` reads the settings and
/// `store` stores them. The status only reads.
pub fn handle_lockdown_command<
    T: FnOnce() -> AppResult<Vec<WireguardTunnel>>,
    I: FnOnce(&Vec<WireguardTunnel>) -> AppResult<()>,
    D: FnOnce() -> AppResult<()>,
    L: FnOnce() -> AppResult<AppConfig>,
    S: FnOnce(&AppConfig) -> AppResult<()>,
>(
    command: PolicyCommands,
    lock: AppResult<()>,
    tunnels: T,
    install: I,
    remove: D,
    load: L,
    store: S,
) -> (r: AppResult<String>)
    requires
        command is Status ==> load.requires(()),
        command is Enable && lock is Ok ==> can_set_lockdown(
            true,
            tunnels,
            install,
            remove,
            load,
            store,
        ),
        command is Disable ==> can_set_lockdown(false, tunnels, install, remove, load, store),
    ensures
        match command {
            PolicyCommands::Status => exists|c: AppResult<AppConfig>| #[trigger]
                load.ensures((), c) && match c {
                    Ok(cfg) => r matches Ok(line) && line@ == lockdown_said(
                        command,
                        cfg.lockdown_enabled,
                    ),
                    Err(e) => r == Err::<String, AppError>(e),
                },
            PolicyCommands::Enable => match lock {
                Err(e) => r == Err::<String, AppError>(e),
                Ok(_) => exists|done: AppResult<()>| #[trigger]
                    lockdown_set(true, tunnels, install, remove, load, store, done) && told(
                        done,
                        lockdown_said(command, true),
                        r,
                    ),
            },
            PolicyCommands::Disable => exists|done: AppResult<()>| #[trigger]
                lockdown_set(false, tunnels, install, remove, load, store, done) && told(
                    done,
                    lockdown_said(command, false),
                    r,
                ),
        },
{
    match command {
        PolicyCommands::Status => {
            let c = load();
            assert(load.ensures((), c));
            match c {
                Ok(cfg) => {
                    let label = if cfg.lockdown_enabled { "on" } else { "off" };
                    Ok(
                        "Lockdown saved intent: ".to_owned().concat(label).concat(
                            " (effective firewall state is not verified)",
                        ),
                    )
                },
                Err(e) => Err(e),
            }
        },
        PolicyCommands::Enable => {
            let done = set_global_lockdown(true, lock, tunnels, install, remove, load, store);
            match done {
                Ok(_) => Ok(
                    "Lockdown enabled: all traffic is blocked except the WireGuard tunnel, its handshake, and DNS.".to_owned(),
                ),
                Err(e) => Err(e),
            }
        },
        PolicyCommands::Disable => {
            let done = set_global_lockdown(false, lock, tunnels, install, remove, load, store);
            match done {
                Ok(_) => Ok("Lockdown disabled: normal connectivity restored.".to_owned()),
                Err(e) => Err(e),
            }
        },
    }
}

/// What is said of the kill switch and of the lockdown tells whether they are on.
pub proof fn law_status_tells_the_setting()
    ensures
        kill_switch_said(PolicyCommands::Status, true) == "Kill switch (all profiles): on"@,
        kill_switch_said(PolicyCommands::Status, false) == "Kill switch (all profiles): off"@,
        lockdown_said(PolicyCommands::Status, true)
            == "Lockdown saved intent: on (effective firewall state is not verified)"@,
        lockdown_said(PolicyCommands::Status, false)
            == "Lockdown saved intent: off (effective firewall state is not verified)"@,
{
    reveal_strlit("on");
    reveal_strlit("off");
    reveal_strlit("Kill switch (all profiles): ");
    reveal_strlit("Kill switch (all profiles): on");
    reveal_strlit("Kill switch (all profiles): off");
    reveal_strlit("Lockdown saved intent: ");
    reveal_strlit(" (effective firewall state is not verified)");
    reveal_strlit("Lockdown saved intent: on (effective firewall state is not verified)");
    reveal_strlit("Lockdown saved intent: off (effective firewall state is not verified)");
    assert(kill_switch_said(PolicyCommands::Status, true) =~= "Kill switch (all profiles): on"@);
    assert(kill_switch_said(PolicyCommands::Status, false) =~= "Kill switch (all profiles): off"@);
    assert(lockdown_said(PolicyCommands::Status, true)
        =~= "Lockdown saved intent: on (effective firewall state is not verified)"@);
    assert(lockdown_said(PolicyCommands::Status, false)
        =~= "Lockdown saved intent: off (effective firewall state is not verified)"@);
}

/// An excluded profile is listed under the name of the first profile with its
/// identifier, `k`, and as unknown where there is none.
pub proof fn law_excluded_profiles_are_named(
    profiles: Seq<ProfileView>,
    id: Seq<char>,
    i: int,
    k: int,
)
    requires
        0 <= i <= k <= profiles.len(),
        forall|j: int| i <= j < k ==> (#[trigger] profiles[j]).uuid != id,
        k < profiles.len() ==> profiles[k].uuid == id,
    ensures
        excluded_line(profiles, id, i) == "  "@ + (if k < profiles.len() {
            profiles[k].name
        } else {
            "<unknown>"@
        }) + " ("@ + id + ")"@,
    decreases k - i,
{
    if i < k {
        let p = profiles[i];
        law_excluded_profiles_are_named(profiles, id, i + 1, k);
    }
}

} // verus!
