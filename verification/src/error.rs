//! What can go wrong, and how it is told.

use vstd::prelude::*;
use vstd::string::*;

verus! {

/// A setting that is applied to the system before it is saved.
#[derive(Debug, Clone, Copy, PartialEq, Eq, Structural)]
pub enum Policy {
    KillSwitch,
    Lockdown,
}

impl Policy {
    /// The name of the policy, as it is shown.
    pub open spec fn spec_name(self) -> Seq<char> {
        match self {
            Policy::KillSwitch => "kill switch"@,
            Policy::Lockdown => "lockdown"@,
        }
    }

    /// The name of the policy, as it is shown.
    pub fn name(self) -> (r: &'static str)
        ensures
            r@ == self.spec_name(),
    {
        match self {
            Policy::KillSwitch => "kill switch",
            Policy::Lockdown => "lockdown",
        }
    }
}

/// Every failure of the application. The failures of the operating system and
/// of the file formats carry the text that describes them.
#[derive(Debug)]
pub enum AppError {
    CommandFailed(String),
    Firewall(String),
    NmParseFailed(String),
    ProfileNotFound(String),
    AmbiguousProfileName(String),
    NoActiveProfile,
    TunnelUnhealthy(String),
    NoEligibleProfile,
    PortForward(String),
    QBittorrent(String),
    Config(String),
    FeatureUnavailable(String),
    Uninstall(String),
    /// A policy change that did not complete, with what is known of its effect.
    PolicyUpdate { policy: Policy, outcome: String, source: Box<AppError> },
    Io(String),
    SerdeJson(String),
    TomlDe(String),
    TomlSer(String),
}

/// The result of an operation that can fail.
pub type AppResult<T> = Result<T, AppError>;

impl AppError {
    /// The message that describes the failure.
    pub open spec fn spec_text(self) -> Seq<char>
        decreases self,
    {
        match self {
            AppError::CommandFailed(m) => "command failed: "@ + m@,
            AppError::Firewall(m) => "firewall command failed: "@ + m@,
            AppError::NmParseFailed(m) => "failed to parse NetworkManager output: "@ + m@,
            AppError::ProfileNotFound(m) => "wireguard profile not found: "@ + m@,
            AppError::AmbiguousProfileName(m) => "multiple wireguard profiles match name: "@ + m@
                + "; use a unique profile name"@,
            AppError::NoActiveProfile => "no active wireguard profile found"@,
            AppError::TunnelUnhealthy(m) => m@,
            AppError::NoEligibleProfile => "no eligible profile found for random startup"@,
            AppError::PortForward(m) => "port forwarding failed: "@ + m@,
            AppError::QBittorrent(m) => "qbittorrent error: "@ + m@,
            AppError::Config(m) => "configuration error: "@ + m@,
            AppError::FeatureUnavailable(m) => "feature unavailable: "@ + m@,
            AppError::Uninstall(m) => "uninstall failed: "@ + m@,
            AppError::PolicyUpdate { policy, outcome, source } => policy.spec_name() + " "@
                + outcome@ + ": "@ + source.spec_text(),
            AppError::Io(m) => "io error: "@ + m@,
            AppError::SerdeJson(m) => "json serialization error: "@ + m@,
            AppError::TomlDe(m) => "toml deserialization error: "@ + m@,
            AppError::TomlSer(m) => "toml serialization error: "@ + m@,
        }
    }

    /// The message that describes the failure.
    pub fn text(&self) -> (r: String)
        ensures
            r@ == self.spec_text(),
        decreases self,
    {
        match self {
            AppError::CommandFailed(m) => "command failed: ".to_owned().concat(m.as_str()),
            AppError::Firewall(m) => "firewall command failed: ".to_owned().concat(m.as_str()),
            AppError::NmParseFailed(m) => "failed to parse NetworkManager output: ".to_owned().concat(
                m.as_str(),
            ),
            AppError::ProfileNotFound(m) => "wireguard profile not found: ".to_owned().concat(
                m.as_str(),
            ),
            AppError::AmbiguousProfileName(m) => "multiple wireguard profiles match name: ".to_owned().concat(
            m.as_str()).concat("; use a unique profile name"),
            AppError::NoActiveProfile => "no active wireguard profile found".to_owned(),
            AppError::TunnelUnhealthy(m) => m.clone(),
            AppError::NoEligibleProfile => "no eligible profile found for random startup".to_owned(),
            AppError::PortForward(m) => "port forwarding failed: ".to_owned().concat(m.as_str()),
            AppError::QBittorrent(m) => "qbittorrent error: ".to_owned().concat(m.as_str()),
            AppError::Config(m) => "configuration error: ".to_owned().concat(m.as_str()),
            AppError::FeatureUnavailable(m) => "feature unavailable: ".to_owned().concat(m.as_str()),
            AppError::Uninstall(m) => "uninstall failed: ".to_owned().concat(m.as_str()),
            AppError::PolicyUpdate { policy, outcome, source } => {
                let cause = source.text();
                policy.name().to_owned().concat(" ").concat(outcome.as_str()).concat(": ").concat(
                    cause.as_str(),
                )
            },
            AppError::Io(m) => "io error: ".to_owned().concat(m.as_str()),
            AppError::SerdeJson(m) => "json serialization error: ".to_owned().concat(m.as_str()),
            AppError::TomlDe(m) => "toml deserialization error: ".to_owned().concat(m.as_str()),
            AppError::TomlSer(m) => "toml serialization error: ".to_owned().concat(m.as_str()),
        }
    }
}

} // verus!
