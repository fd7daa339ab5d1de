//! NetworkManager: its profiles, its properties and what it reports.

pub mod activation;
pub mod autoconnect;
pub mod client;
pub mod comments;
pub mod diagnostics;
pub mod effects;
pub mod endpoints;
pub mod health;
pub mod kill_switch;
pub mod machine;
pub mod network_info;
pub mod operations;
pub mod profiles;
pub mod resolve;
pub mod split_tunnel;
pub mod tunnel_routing;

pub use activation::{
    autoconnect_arg_batches, health_check_enabled, kill_switch_arg_batches,
    split_tunnel_arg_batches,
};
pub use comments::extract_interface_comments;
pub use diagnostics::{
    format_bytes, format_handshake_time, overlay_wg_dump, parse_peer_settings,
    settings_to_diagnostics, PeerSettings, ProfileDiagnostics,
};
pub use endpoints::{
    extract_endpoints, parse_endpoint, parse_interface_name, profile_has_ipv6, unescape_nmcli,
    Endpoint, WireguardTunnel,
};
pub use machine::CliNmClient;
pub use profiles::{
    find_unique_profile_by_identifier, find_unique_profile_by_name, parse_nmcli_fields,
    parse_nmcli_triplet, ProfileState, WireguardProfile,
};
