//! Neutron: a manager for the WireGuard profiles of NetworkManager.
//!
//! The library decides; it opens no file, no socket and no process of its own.
//! What it needs of the machine comes in as values, or as functions that it
//! calls: one runs `nmcli`, one sends a request, one saves the settings. It only
//! asks by itself which directories the user has.
//!
//! - [`nm`]: profiles, and the commands that bring them up, down and in line
//!   with the settings
//! - [`firewall`]: the rules of the lockdown, and how they are replaced
//! - [`portforward`]: asking the gateway for a port, and telling qBittorrent
//! - [`config`]: the settings
//! - [`app`]: what the commands of the command line do
//! - [`gui`]: what the window and the indicator show
//! - [`record`]: how it is stated which of those functions are called, and when

use vstd::prelude::*;

pub mod app;
pub mod collections;
pub mod config;
pub mod error;
pub mod firewall;
pub mod gui;
pub mod install;
pub mod ip;
pub mod nm;
pub mod outcomes;
pub mod order;
pub mod paths;
pub mod portforward;
pub mod process;
pub mod record;
pub mod text;

verus! {

/// The identifier of the application.
pub const APP_ID: &'static str = "io.gitlab.neutron_vpn.neutron";

/// The name of the application, as it is shown.
pub const APP_NAME: &'static str = "Neutron VPN";

} // verus!
