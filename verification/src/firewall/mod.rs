//! The lockdown firewall: its rules, the script that applies them, and the helper
//! that refreshes them.

pub mod helper;
pub mod hosts;
pub mod packets;
pub mod protection;
pub mod rules;
pub mod script;
pub mod teardown;

pub use rules::{
    add_rule, direct_args, endpoint_rules, local_network_batches, lockdown_enable_batches,
    lockdown_family_batches, reload_batch, ResolvedHost, LOCKDOWN_MARKER,
};
pub use script::{build_firewall_script, shell_quote};
pub use teardown::{
    line_is_marked, lockdown_rebuild_batches, parse_foreign_runtime_preservations,
    parse_marked_removals, rules_match,
};
