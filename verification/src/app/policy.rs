//! Turning the kill switch and the lockdown on and off.
//!
//! A policy is applied to the system before it is saved. What failed is told with
//! what is known of the state that the system is in.
//!
//! What is asked of a function that is passed in says when it is called: one that
//! can only be called once another succeeded is not called before, nor where that
//! failed.

use vstd::prelude::*;
use vstd::string::*;

use crate::config::AppConfig;
use crate::error::{AppError, AppResult, Policy};
use crate::nm::endpoints::WireguardTunnel;

verus! {

/// Whether an error tells that a policy change did not complete.
pub open spec fn tells_policy(
    e: AppError,
    policy: Policy,
    outcome: Seq<char>,
    cause: AppError,
) -> bool {
    e matches AppError::PolicyUpdate { policy: p, outcome: o, source: s } && p == policy && o@
        == outcome && *s == cause
}

/// What is known where applying a policy failed.
pub const APPLY_FAILED: &'static str = "application failed and may be partial; effective state is unknown";

/// What is known where turning the lockdown off failed.
pub const DISABLE_FAILED: &'static str = "disable failed; effective state is unknown";

/// What is known where saving a policy failed.
pub const SAVE_FAILED: &'static str = "application completed but saving failed";

/// The error of a policy that could not be applied.
pub fn policy_apply_error(policy: Policy, source: AppError, outcome: &str) -> (r: AppError)
    ensures
        tells_policy(r, policy, outcome@, source),
{
    AppError::PolicyUpdate { policy, outcome: outcome.to_owned(), source: Box::new(source) }
}

/// The error of a policy that was applied and could not be saved.
pub fn policy_save_error(policy: Policy, source: AppError) -> (r: AppError)
    ensures
        tells_policy(r, policy, SAVE_FAILED@, source),
{
    AppError::PolicyUpdate { policy, outcome: SAVE_FAILED.to_owned(), source: Box::new(source) }
}

/// What saving comes to.
pub open spec fn save_outcome(policy: Policy, s: AppResult<()>, r: AppResult<()>) -> bool {
    match s {
        Ok(_) => r is Ok,
        Err(cause) => r matches Err(e) && tells_policy(e, policy, SAVE_FAILED@, cause),
    }
}

/// Whether a policy was applied and, where that succeeded, saved.
pub open spec fn applied_and_saved<A: FnOnce() -> AppResult<()>, S: FnOnce() -> AppResult<()>>(
    policy: Policy,
    apply: A,
    save: S,
    r: AppResult<()>,
) -> bool {
    exists|a: AppResult<()>| #[trigger]
        apply.ensures((), a) && match a {
            Err(cause) => r matches Err(e) && tells_policy(e, policy, APPLY_FAILED@, cause),
            Ok(_) => exists|s: AppResult<()>| #[trigger]
                save.ensures((), s) && save_outcome(policy, s, r),
        }
}

/// Apply a policy and, where that succeeded, save it.
pub fn apply_and_save_policy<A: FnOnce() -> AppResult<()>, S: FnOnce() -> AppResult<()>>(
    policy: Policy,
    apply: A,
    save: S,
) -> (r: AppResult<()>)
    requires
        apply.requires(()),
        forall|a: AppResult<()>| #[trigger] apply.ensures((), a) && a is Ok ==> save.requires(()),
    ensures
        applied_and_saved(policy, apply, save, r),
{
    let a = apply();
    assert(apply.ensures((), a));
    match a {
        Ok(_) => {},
        Err(cause) => {
            return Err(policy_apply_error(policy, cause, APPLY_FAILED));
        },
    }
    let s = save();
    assert(save.ensures((), s));
    match s {
        Ok(_) => Ok(()),
        Err(cause) => Err(policy_save_error(policy, cause)),
    }
}

// ---------------------------------------------------------------------------
// Saving a policy
// ---------------------------------------------------------------------------

/// Settings with one policy on or off, and nothing else changed.
pub open spec fn with_policy(config: AppConfig, policy: Policy, on: bool) -> AppConfig {
    match policy {
        Policy::KillSwitch => AppConfig { kill_switch_enabled: on, ..config },
        Policy::Lockdown => AppConfig { lockdown_enabled: on, ..config },
    }
}

/// Turn one policy of settings on or off, and change nothing else.
pub fn put_policy(config: &mut AppConfig, policy: Policy, on: bool)
    ensures
        *final(config) == with_policy(*old(config), policy, on),
{
    match policy {
        Policy::KillSwitch => {
            config.kill_switch_enabled = on;
        },
        Policy::Lockdown => {
            config.lockdown_enabled = on;
        },
    }
}

/// Whether a policy was saved with a result: the settings were read and, where that
/// succeeded, stored again with that policy changed and nothing else.
pub open spec fn policy_saved<
    L: FnOnce() -> AppResult<AppConfig>,
    S: FnOnce(&AppConfig) -> AppResult<()>,
>(policy: Policy, on: bool, load: L, store: S, s: AppResult<()>) -> bool {
    exists|c: AppResult<AppConfig>| #[trigger]
        load.ensures((), c) && match c {
            Err(e) => s == Err::<(), AppError>(e),
            Ok(config) => store.ensures((&with_policy(config, policy, on),), s),
        }
}

/// Whether a policy can be saved: the settings can be read and, where that
/// succeeded, stored again with that policy changed.
pub open spec fn can_save<
    L: FnOnce() -> AppResult<AppConfig>,
    S: FnOnce(&AppConfig) -> AppResult<()>,
>(policy: Policy, on: bool, load: L, store: S) -> bool {
    &&& load.requires(())
    &&& forall|c: AppResult<AppConfig>| #[trigger]
        load.ensures((), c) && c is Ok ==> store.requires((&with_policy(c->Ok_0, policy, on),))
}

/// Save a policy, where `load` reads the settings and `store` stores them.
pub fn save_policy<
    L: FnOnce() -> AppResult<AppConfig>,
    S: FnOnce(&AppConfig) -> AppResult<()>,
>(policy: Policy, on: bool, load: L, store: S) -> (s: AppResult<()>)
    requires
        can_save(policy, on, load, store),
    ensures
        policy_saved(policy, on, load, store, s),
{
    let c = load();
    assert(load.ensures((), c));
    let mut config = match c {
        Ok(config) => config,
        Err(e) => {
            return Err(e);
        },
    };
    put_policy(&mut config, policy, on);
    store(&config)
}

// ---------------------------------------------------------------------------
// Switching
// ---------------------------------------------------------------------------

/// Whether `r` is what saving a policy comes to after applying it came to `a`.
pub open spec fn switched_after<
    L: FnOnce() -> AppResult<AppConfig>,
    S: FnOnce(&AppConfig) -> AppResult<()>,
>(
    policy: Policy,
    failure: Seq<char>,
    on: bool,
    a: AppResult<()>,
    load: L,
    store: S,
    r: AppResult<()>,
) -> bool {
    match a {
        Err(cause) => r matches Err(e) && tells_policy(e, policy, failure, cause),
        Ok(_) => exists|s: AppResult<()>| #[trigger]
            policy_saved(policy, on, load, store, s) && save_outcome(policy, s, r),
    }
}

/// Save a policy that was applied with a result.
fn conclude<
    L: FnOnce() -> AppResult<AppConfig>,
    S: FnOnce(&AppConfig) -> AppResult<()>,
>(policy: Policy, failure: &str, on: bool, a: AppResult<()>, load: L, store: S) -> (r: AppResult<
    (),
>)
    requires
        a is Ok ==> can_save(policy, on, load, store),
    ensures
        switched_after(policy, failure@, on, a, load, store, r),
{
    match a {
        Ok(_) => {},
        Err(cause) => {
            return Err(policy_apply_error(policy, cause, failure));
        },
    }
    let s = save_policy(policy, on, load, store);
    assert(policy_saved(policy, on, load, store, s));
    match s {
        Ok(_) => Ok(()),
        Err(cause) => Err(policy_save_error(policy, cause)),
    }
}

/// Whether the kill switch was set and, where that succeeded, saved.
pub open spec fn kill_switch_set<
    A: FnOnce(bool) -> AppResult<()>,
    L: FnOnce() -> AppResult<AppConfig>,
    S: FnOnce(&AppConfig) -> AppResult<()>,
>(enable: bool, apply: A, load: L, store: S, r: AppResult<()>) -> bool {
    exists|a: AppResult<()>| #[trigger]
        apply.ensures((enable,), a) && switched_after(
            Policy::KillSwitch,
            APPLY_FAILED@,
            enable,
            a,
            load,
            store,
            r,
        )
}

/// Whether the kill switch can be set and, once that succeeded, saved. Nothing is
/// asked of what saves it before that or where setting it failed: it is not called
/// then.
pub open spec fn can_set_kill_switch<
    A: FnOnce(bool) -> AppResult<()>,
    L: FnOnce() -> AppResult<AppConfig>,
    S: FnOnce(&AppConfig) -> AppResult<()>,
>(enable: bool, apply: A, load: L, store: S) -> bool {
    &&& apply.requires((enable,))
    &&& forall|a: AppResult<()>| #[trigger]
        apply.ensures((enable,), a) && a is Ok ==> can_save(
            Policy::KillSwitch,
            enable,
            load,
            store,
        )
}

/// Set the kill switch of all profiles, where `lock` says whether changes of policies
/// could be coordinated, `apply` sets it in NetworkManager, `load` reads the settings
/// and `store` stores them. Without coordination nothing is done.
pub fn set_global_kill_switch<
    A: FnOnce(bool) -> AppResult<()>,
    L: FnOnce() -> AppResult<AppConfig>,
    S: FnOnce(&AppConfig) -> AppResult<()>,
>(enable: bool, lock: AppResult<()>, apply: A, load: L, store: S) -> (r: AppResult<()>)
    requires
        lock is Ok ==> can_set_kill_switch(enable, apply, load, store),
    ensures
        lock is Err ==> r == lock,
        lock is Ok ==> kill_switch_set(enable, apply, load, store, r),
{
    match lock {
        Ok(_) => {},
        Err(e) => {
            return Err(e);
        },
    }
    let a = apply(enable);
    assert(apply.ensures((enable,), a));
    conclude(Policy::KillSwitch, APPLY_FAILED, enable, a, load, store)
}

/// Whether the firewall was changed with a result. Turning the lockdown on reads the
/// tunnels and installs the rules for just those; turning it off only removes the
/// rules.
pub open spec fn lockdown_applied<
    T: FnOnce() -> AppResult<Vec<WireguardTunnel>>,
    I: FnOnce(&Vec<WireguardTunnel>) -> AppResult<()>,
    D: FnOnce() -> AppResult<()>,
>(enable: bool, tunnels: T, install: I, remove: D, a: AppResult<()>) -> bool {
    if enable {
        exists|t: AppResult<Vec<WireguardTunnel>>| #[trigger]
            tunnels.ensures((), t) && match t {
                Err(e) => a == Err::<(), AppError>(e),
                Ok(list) => install.ensures((&list,), a),
            }
    } else {
        remove.ensures((), a)
    }
}

/// Whether the firewall can be changed: to turn the lockdown on, the tunnels can be
/// read and, where that succeeded, the rules installed for them; to turn it off, the
/// rules can be removed. What is not asked for is not called.
pub open spec fn can_apply_lockdown<
    T: FnOnce() -> AppResult<Vec<WireguardTunnel>>,
    I: FnOnce(&Vec<WireguardTunnel>) -> AppResult<()>,
    D: FnOnce() -> AppResult<()>,
>(enable: bool, tunnels: T, install: I, remove: D) -> bool {
    if enable {
        &&& tunnels.requires(())
        &&& forall|t: AppResult<Vec<WireguardTunnel>>| #[trigger]
            tunnels.ensures((), t) && t is Ok ==> install.requires((&t->Ok_0,))
    } else {
        remove.requires(())
    }
}

/// Change the firewall, where `tunnels` reads the tunnels that there are, `install`
/// installs the rules for tunnels and `remove` removes the rules.
pub fn apply_lockdown<
    T: FnOnce() -> AppResult<Vec<WireguardTunnel>>,
    I: FnOnce(&Vec<WireguardTunnel>) -> AppResult<()>,
    D: FnOnce() -> AppResult<()>,
>(enable: bool, tunnels: T, install: I, remove: D) -> (a: AppResult<()>)
    requires
        can_apply_lockdown(enable, tunnels, install, remove),
    ensures
        lockdown_applied(enable, tunnels, install, remove, a),
{
    if !enable {
        return remove();
    }
    let t = tunnels();
    assert(tunnels.ensures((), t));
    match t {
        Ok(list) => install(&list),
        Err(e) => Err(e),
    }
}

/// What is known where changing the firewall failed.
pub open spec fn lockdown_failure(enable: bool) -> Seq<char> {
    if enable {
        APPLY_FAILED@
    } else {
        DISABLE_FAILED@
    }
}

/// Whether the lockdown was switched and, where that succeeded, saved.
pub open spec fn lockdown_set<
    T: FnOnce() -> AppResult<Vec<WireguardTunnel>>,
    I: FnOnce(&Vec<WireguardTunnel>) -> AppResult<()>,
    D: FnOnce() -> AppResult<()>,
    L: FnOnce() -> AppResult<AppConfig>,
    S: FnOnce(&AppConfig) -> AppResult<()>,
>(
    enable: bool,
    tunnels: T,
    install: I,
    remove: D,
    load: L,
    store: S,
    r: AppResult<()>,
) -> bool {
    exists|a: AppResult<()>| #[trigger]
        lockdown_applied(enable, tunnels, install, remove, a) && switched_after(
            Policy::Lockdown,
            lockdown_failure(enable),
            enable,
            a,
            load,
            store,
            r,
        )
}

/// Whether the lockdown can be switched and, once that succeeded, saved. Nothing is
/// asked of what saves it before that or where switching failed: it is not called
/// then.
pub open spec fn can_set_lockdown<
    T: FnOnce() -> AppResult<Vec<WireguardTunnel>>,
    I: FnOnce(&Vec<WireguardTunnel>) -> AppResult<()>,
    D: FnOnce() -> AppResult<()>,
    L: FnOnce() -> AppResult<AppConfig>,
    S: FnOnce(&AppConfig) -> AppResult<()>,
>(enable: bool, tunnels: T, install: I, remove: D, load: L, store: S) -> bool {
    &&& can_apply_lockdown(enable, tunnels, install, remove)
    &&& forall|a: AppResult<()>| #[trigger]
        lockdown_applied(enable, tunnels, install, remove, a) && a is Ok ==> can_save(
            Policy::Lockdown,
            enable,
            load,
            store,
        )
}

/// Set the lockdown, where `lock` says whether changes of policies could be
/// coordinated, `tunnels` reads the tunnels that there are, `install` installs the
/// rules for tunnels, `remove` removes the rules, `load` reads the settings and
/// `store` stores them. It is only turned on under coordination; it can always be
/// turned off, so that nobody stays locked out.
pub fn set_global_lockdown<
    T: FnOnce() -> AppResult<Vec<WireguardTunnel>>,
    I: FnOnce(&Vec<WireguardTunnel>) -> AppResult<()>,
    D: FnOnce() -> AppResult<()>,
    L: FnOnce() -> AppResult<AppConfig>,
    S: FnOnce(&AppConfig) -> AppResult<()>,
>(
    enable: bool,
    lock: AppResult<()>,
    tunnels: T,
    install: I,
    remove: D,
    load: L,
    store: S,
) -> (r: AppResult<()>)
    requires
        !(enable && lock is Err) ==> can_set_lockdown(
            enable,
            tunnels,
            install,
            remove,
            load,
            store,
        ),
    ensures
        enable && lock is Err ==> r == lock,
        !(enable && lock is Err) ==> lockdown_set(
            enable,
            tunnels,
            install,
            remove,
            load,
            store,
            r,
        ),
{
    if enable {
        match lock {
            Ok(_) => {},
            Err(e) => {
                return Err(e);
            },
        }
    }
    let failure = if enable { APPLY_FAILED } else { DISABLE_FAILED };
    let a = apply_lockdown(enable, tunnels, install, remove);
    assert(lockdown_applied(enable, tunnels, install, remove, a));
    conclude(Policy::Lockdown, failure, enable, a, load, store)
}

/// Turning a policy on or off leaves every other setting, the other policy among
/// them; having turned it the other way before makes no difference.
pub proof fn law_a_policy_changes_alone(config: AppConfig, policy: Policy, on: bool)
    ensures
        ({
            let after = with_policy(config, policy, on);
            &&& after.kill_switch_enabled == (if policy == Policy::KillSwitch {
                on
            } else {
                config.kill_switch_enabled
            })
            &&& after.lockdown_enabled == (if policy == Policy::Lockdown {
                on
            } else {
                config.lockdown_enabled
            })
            &&& after == (AppConfig {
                kill_switch_enabled: after.kill_switch_enabled,
                lockdown_enabled: after.lockdown_enabled,
                ..config
            })
            &&& with_policy(with_policy(config, policy, !on), policy, on) == after
        }),
{
}

/// Refresh the rules of the lockdown where it is meant to be on, after profiles
/// have changed. The setting is read by `load`, under coordination.
pub fn rebuild_lockdown_if_enabled<
    L: FnOnce() -> AppResult<AppConfig>,
    F: FnOnce() -> AppResult<()>,
>(load: L, refresh: F) -> (r: AppResult<()>)
    requires
        load.requires(()),
        forall|c: AppResult<AppConfig>| #[trigger]
            load.ensures((), c) && (c matches Ok(cfg) && cfg.lockdown_enabled)
                ==> refresh.requires(()),
    ensures
        exists|c: AppResult<AppConfig>| #[trigger]
            load.ensures((), c) && match c {
                Err(e) => r == Err::<(), AppError>(e),
                Ok(cfg) => if cfg.lockdown_enabled {
                    refresh.ensures((), r)
                } else {
                    r is Ok
                },
            },
{
    let c = load();
    assert(load.ensures((), c));
    match c {
        Ok(cfg) => if cfg.lockdown_enabled {
            let r = refresh();
            assert(refresh.ensures((), r));
            r
        } else {
            Ok(())
        },
        Err(e) => Err(e),
    }
}

/// Whether settings are the same but for the two policies.
pub open spec fn same_but_policies(after: AppConfig, before: AppConfig) -> bool {
    &&& after.general == before.general
    &&& after.excluded_profile_ids == before.excluded_profile_ids
    &&& after.favorite_profile_ids == before.favorite_profile_ids
    &&& after.last_random_profile_id == before.last_random_profile_id
    &&& after.global_split_tunnel == before.global_split_tunnel
    &&& after.theme == before.theme
    &&& after.port_forwarding == before.port_forwarding
    &&& after.qbittorrent == before.qbittorrent
    &&& after.profile_custom_info == before.profile_custom_info
}

/// Whether settings that were read may be stored with the kill switch and the
/// lockdown as given, and otherwise unchanged.
pub open spec fn stored_with<
    L: FnOnce() -> AppResult<AppConfig>,
    S: FnOnce(&AppConfig) -> AppResult<()>,
>(load: L, store: S, kill_switch: Option<bool>, lockdown: Option<bool>) -> bool {
    exists|before: AppConfig, after: AppConfig|
        #![trigger load.ensures((), Ok::<AppConfig, AppError>(before)), store.ensures((&after,), Ok::<(), AppError>(()))]
        load.ensures((), Ok::<AppConfig, AppError>(before)) && store.ensures(
            (&after,),
            Ok::<(), AppError>(()),
        ) && same_but_policies(after, before) && after.kill_switch_enabled == (match kill_switch {
            Some(on) => on,
            None => before.kill_switch_enabled,
        }) && after.lockdown_enabled == (match lockdown {
            Some(on) => on,
            None => before.lockdown_enabled,
        })
}

/// Setting the kill switch succeeds only where it was applied as asked for and then
/// stored as asked for, with all other settings as they were; where it cannot be
/// applied, it is told so.
pub proof fn law_kill_switch_is_applied_then_stored<
    A: FnOnce(bool) -> AppResult<()>,
    L: FnOnce() -> AppResult<AppConfig>,
    S: FnOnce(&AppConfig) -> AppResult<()>,
>(enable: bool, apply: A, load: L, store: S, r: AppResult<()>)
    requires
        kill_switch_set(enable, apply, load, store, r),
    ensures
        r is Ok ==> apply.ensures((enable,), Ok::<(), AppError>(())) && stored_with(
            load,
            store,
            Some(enable),
            None,
        ),
        (forall|a: AppResult<()>| #[trigger] apply.ensures((enable,), a) ==> a is Err) ==> (r
            matches Err(AppError::PolicyUpdate { policy, outcome: _, source: _ }) && policy
            == Policy::KillSwitch),
{
    let a = choose|a: AppResult<()>| #[trigger]
        apply.ensures((enable,), a) && switched_after(
            Policy::KillSwitch,
            APPLY_FAILED@,
            enable,
            a,
            load,
            store,
            r,
        );
    if r is Ok {
        lemma_stored(Policy::KillSwitch, APPLY_FAILED@, enable, a, load, store, r);
    }
}

/// Setting the lockdown succeeds only where its rules were installed for the tunnels
/// that were found, or removed, as asked for, and it was then stored as asked for.
pub proof fn law_lockdown_is_applied_then_stored<
    T: FnOnce() -> AppResult<Vec<WireguardTunnel>>,
    I: FnOnce(&Vec<WireguardTunnel>) -> AppResult<()>,
    D: FnOnce() -> AppResult<()>,
    L: FnOnce() -> AppResult<AppConfig>,
    S: FnOnce(&AppConfig) -> AppResult<()>,
>(enable: bool, tunnels: T, install: I, remove: D, load: L, store: S, r: AppResult<()>)
    requires
        lockdown_set(enable, tunnels, install, remove, load, store, r),
        r is Ok,
    ensures
        enable ==> exists|list: Vec<WireguardTunnel>|
            #![trigger tunnels.ensures((), Ok::<Vec<WireguardTunnel>, AppError>(list))]
            tunnels.ensures((), Ok::<Vec<WireguardTunnel>, AppError>(list)) && install.ensures(
                (&list,),
                Ok::<(), AppError>(()),
            ),
        !enable ==> remove.ensures((), Ok::<(), AppError>(())),
        stored_with(load, store, None, Some(enable)),
{
    let a = choose|a: AppResult<()>| #[trigger]
        lockdown_applied(enable, tunnels, install, remove, a) && switched_after(
            Policy::Lockdown,
            lockdown_failure(enable),
            enable,
            a,
            load,
            store,
            r,
        );
    lemma_stored(Policy::Lockdown, lockdown_failure(enable), enable, a, load, store, r);
    if enable {
        let t = choose|t: AppResult<Vec<WireguardTunnel>>| #[trigger]
            tunnels.ensures((), t) && match t {
                Err(e) => a == Err::<(), AppError>(e),
                Ok(list) => install.ensures((&list,), a),
            };
        let list = t->Ok_0;
        assert(tunnels.ensures((), Ok::<Vec<WireguardTunnel>, AppError>(list)));
        assert(a == Ok::<(), AppError>(()));
    }
}

/// A policy that is set in the end was stored.
proof fn lemma_stored<L: FnOnce() -> AppResult<AppConfig>, S: FnOnce(&AppConfig) -> AppResult<()>>(
    policy: Policy,
    failure: Seq<char>,
    on: bool,
    a: AppResult<()>,
    load: L,
    store: S,
    r: AppResult<()>,
)
    requires
        switched_after(policy, failure, on, a, load, store, r),
        r is Ok,
    ensures
        a == Ok::<(), AppError>(()),
        policy == Policy::KillSwitch ==> stored_with(load, store, Some(on), None),
        policy == Policy::Lockdown ==> stored_with(load, store, None, Some(on)),
{
    let s = choose|s: AppResult<()>| #[trigger]
        policy_saved(policy, on, load, store, s) && save_outcome(policy, s, r);
    let c = choose|c: AppResult<AppConfig>| #[trigger]
        load.ensures((), c) && match c {
            Err(e) => s == Err::<(), AppError>(e),
            Ok(config) => store.ensures((&with_policy(config, policy, on),), s),
        };
    let before = c->Ok_0;
    let after = with_policy(before, policy, on);
    let (x, y): ((), ()) = (s->Ok_0, a->Ok_0);
    assert(x == () && y == ());
    assert(s == Ok::<(), AppError>(()));
    assert(load.ensures((), Ok::<AppConfig, AppError>(before)));
    assert(store.ensures((&after,), Ok::<(), AppError>(())));
}

} // verus!
