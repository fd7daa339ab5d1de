//! What the commands do.

pub mod commands;
pub mod eligibility;
pub mod policy;
pub mod processes;
pub mod profile_list;
pub mod qbittorrent;
pub mod refresh_sync;
pub mod split_command;
pub mod split_tunnel;
pub mod sync;
pub mod uninstall;

pub use policy::{
    apply_and_save_policy, policy_apply_error, policy_save_error, rebuild_lockdown_if_enabled,
    set_global_kill_switch, set_global_lockdown,
};
pub use processes::should_terminate_process;
