//! The settings: their types, their defaults, and the rules that read and
//! change them.

use vstd::prelude::*;
use vstd::slice::slice_to_vec;
use vstd::string::*;
use vstd::utf8::encode_utf8;

use crate::collections::{IdSet, NoteMap};
use crate::error::AppError;
use crate::ip::{address_of, IpAddr};
use crate::paths::{join, opt_bytes, opt_path, path_join, path_views};
use crate::text::{after_prefix, ascii_lowered, chars_of, copied, cut_last, cut_part, decimal, first_part, has_prefix, lowercased, opt_text, rsplit_once, same, split_once_part, strip_prefix, to_ascii_lowercase, to_lowercase, trim, trimmed};

verus! {

// ---------------------------------------------------------------------------
// Split tunneling
// ---------------------------------------------------------------------------

/// What the configured addresses mean for the tunnel.
#[derive(Debug, Clone, Copy, PartialEq, Eq, Structural)]
pub enum SplitTunnelMode {
    Disabled,
    /// Only the configured addresses go through the tunnel.
    Include,
    /// All but the configured addresses go through the tunnel.
    Exclude,
}

impl Default for SplitTunnelMode {
    fn default() -> (r: SplitTunnelMode)
        ensures
            r == SplitTunnelMode::Disabled,
    {
        SplitTunnelMode::Disabled
    }
}

/// The mode that a trimmed text in lower case names.
pub open spec fn split_mode_of(t: Seq<char>) -> Option<SplitTunnelMode> {
    if t == "disabled"@ || t == "off"@ || t == "none"@ {
        Some(SplitTunnelMode::Disabled)
    } else if t == "include"@ || t == "only"@ {
        Some(SplitTunnelMode::Include)
    } else if t == "exclude"@ || t == "bypass"@ {
        Some(SplitTunnelMode::Exclude)
    } else {
        None
    }
}

/// What is said of a text that names no split-tunnel mode.
pub open spec fn split_mode_complaint(t: Seq<char>) -> Seq<char> {
    "invalid split-tunnel mode '"@ + t + "'; expected 'disabled', 'include', or 'exclude'"@
}

impl SplitTunnelMode {
    /// Whether traffic is split at all.
    pub fn is_enabled(&self) -> (r: bool)
        ensures
            r == self.spec_is_enabled(),
    {
        match self {
            SplitTunnelMode::Disabled => false,
            _ => true,
        }
    }

    /// Whether traffic is split at all.
    pub open spec fn spec_is_enabled(self) -> bool {
        self != SplitTunnelMode::Disabled
    }

    /// The name of the mode.
    pub open spec fn spec_str(self) -> Seq<char> {
        match self {
            SplitTunnelMode::Disabled => "disabled"@,
            SplitTunnelMode::Include => "include"@,
            SplitTunnelMode::Exclude => "exclude"@,
        }
    }

    /// The name of the mode.
    pub fn as_str(&self) -> (r: &'static str)
        ensures
            r@ == self.spec_str(),
    {
        match self {
            SplitTunnelMode::Disabled => "disabled",
            SplitTunnelMode::Include => "include",
            SplitTunnelMode::Exclude => "exclude",
        }
    }

    /// The name of the mode, owned.
    pub fn to_string(&self) -> (r: String)
        ensures
            r@ == self.spec_str(),
    {
        self.as_str().to_owned()
    }

    /// The mode that a text in lower case names, with white space around it
    /// ignored.
    pub fn from_lowercase(lower: &str) -> (r: Result<SplitTunnelMode, AppError>)
        ensures
            match r {
                Ok(mode) => split_mode_of(trimmed(lower@)) == Some(mode),
                Err(e) => split_mode_of(trimmed(lower@)) is None && (e matches AppError::Config(m)
                    && m@ == split_mode_complaint(trimmed(lower@))),
            },
    {
        let t = trim(lower);
        if same(t, "disabled") || same(t, "off") || same(t, "none") {
            Ok(SplitTunnelMode::Disabled)
        } else if same(t, "include") || same(t, "only") {
            Ok(SplitTunnelMode::Include)
        } else if same(t, "exclude") || same(t, "bypass") {
            Ok(SplitTunnelMode::Exclude)
        } else {
            let mut m = "invalid split-tunnel mode '".to_owned();
            m.append(t);
            m.append("'; expected 'disabled', 'include', or 'exclude'");
            Err(AppError::Config(m))
        }
    }

    /// The mode that a text names, in any case and with white space around it
    /// ignored.
    pub fn parse(s: &str) -> (r: Result<SplitTunnelMode, AppError>)
        ensures
            match r {
                Ok(mode) => split_mode_of(trimmed(lowercased(s@))) == Some(mode),
                Err(e) => split_mode_of(trimmed(lowercased(s@))) is None && (
                e matches AppError::Config(m) && m@ == split_mode_complaint(
                    trimmed(lowercased(s@)),
                )),
            },
            vstd::utf8::is_ascii_chars(s@) ==> (match r {
                Ok(mode) => split_mode_of(trimmed(ascii_lowered(s@))) == Some(mode),
                Err(_) => split_mode_of(trimmed(ascii_lowered(s@))) is None,
            }),
    {
        let lower = to_lowercase(s);
        SplitTunnelMode::from_lowercase(lower.as_str())
    }
}

impl std::str::FromStr for SplitTunnelMode {
    type Err = AppError;

    fn from_str(s: &str) -> Result<SplitTunnelMode, AppError> {
        SplitTunnelMode::parse(s)
    }
}

/// The name of a mode reads back as that mode.
pub proof fn law_split_mode_reads_back(mode: SplitTunnelMode)
    ensures
        split_mode_of(trimmed(mode.spec_str())) == Some(mode),
{
    reveal_strlit("disabled");
    reveal_strlit("off");
    reveal_strlit("none");
    reveal_strlit("include");
    reveal_strlit("only");
    reveal_strlit("exclude");
    reveal_strlit("bypass");
    assert("include"@ != "disabled"@) by {
        assert("include"@.len() != "disabled"@.len());
    }
    assert("exclude"@ != "disabled"@) by {
        assert("exclude"@.len() != "disabled"@.len());
    }
    assert("exclude"@[0] != "include"@[0]);
    assert("include"@.len() == 7 && "off"@.len() == 3 && "none"@.len() == 4 && "only"@.len() == 4);
}

/// The settings of split tunneling.
#[derive(Debug, PartialEq, Eq)]
pub struct SplitTunnelConfig {
    pub mode: SplitTunnelMode,
    pub cidrs: Vec<String>,
    pub domains: Vec<String>,
}

/// The settings of split tunneling, as texts.
#[verifier::ext_equal]
pub struct SplitTunnelView {
    pub mode: SplitTunnelMode,
    pub cidrs: Seq<Seq<char>>,
    pub domains: Seq<Seq<char>>,
}

impl View for SplitTunnelConfig {
    type V = SplitTunnelView;

    open spec fn view(&self) -> SplitTunnelView {
        SplitTunnelView {
            mode: self.mode,
            cidrs: self.cidrs.deep_view(),
            domains: self.domains.deep_view(),
        }
    }
}

impl SplitTunnelConfig {
    /// Whether no address is configured.
    pub fn is_empty(&self) -> (r: bool)
        ensures
            r == (self@.cidrs.len() == 0 && self@.domains.len() == 0),
    {
        self.cidrs.len() == 0 && self.domains.len() == 0
    }
}

impl Clone for SplitTunnelConfig {
    fn clone(&self) -> (r: SplitTunnelConfig)
        ensures
            r@ == self@,
    {
        let r = SplitTunnelConfig {
            mode: self.mode,
            cidrs: copied(&self.cidrs),
            domains: copied(&self.domains),
        };
        assert(r.cidrs.deep_view() =~= self.cidrs.deep_view());
        assert(r.domains.deep_view() =~= self.domains.deep_view());
        r
    }
}

impl Default for SplitTunnelConfig {
    fn default() -> (r: SplitTunnelConfig)
        ensures
            r@ == (SplitTunnelView {
                mode: SplitTunnelMode::Disabled,
                cidrs: Seq::empty(),
                domains: Seq::empty(),
            }),
    {
        let r = SplitTunnelConfig {
            mode: SplitTunnelMode::Disabled,
            cidrs: Vec::new(),
            domains: Vec::new(),
        };
        assert(r.cidrs.deep_view() =~= Seq::<Seq<char>>::empty());
        assert(r.domains.deep_view() =~= Seq::<Seq<char>>::empty());
        r
    }
}

// ---------------------------------------------------------------------------
// Port forwarding
// ---------------------------------------------------------------------------

/// What is done about a forwarded port.
#[derive(Debug, Clone, Copy, PartialEq, Eq, Structural)]
pub enum PortForwardMode {
    Disabled,
    /// Lease a port from the tunnel gateway without pushing it anywhere.
    Forward,
    /// Lease the port and push it to qBittorrent.
    ForwardAndSync,
}

impl Default for PortForwardMode {
    fn default() -> (r: PortForwardMode)
        ensures
            r == PortForwardMode::Disabled,
    {
        PortForwardMode::Disabled
    }
}

/// The mode that a trimmed text in lower case names.
pub open spec fn forward_mode_of(t: Seq<char>) -> Option<PortForwardMode> {
    if t == "disabled"@ || t == "off"@ || t == "none"@ {
        Some(PortForwardMode::Disabled)
    } else if t == "forward"@ || t == "on"@ || t == "port-forward"@ {
        Some(PortForwardMode::Forward)
    } else if t == "forward-and-sync"@ || t == "auto-sync"@ || t == "qbit"@ {
        Some(PortForwardMode::ForwardAndSync)
    } else {
        None
    }
}

/// What is said of a text that names no port-forward mode.
pub open spec fn forward_mode_complaint(t: Seq<char>) -> Seq<char> {
    "invalid port-forward mode '"@ + t
        + "'; expected 'disabled', 'forward', or 'forward-and-sync'"@
}

impl PortForwardMode {
    /// Whether a port is leased.
    pub fn is_enabled(&self) -> (r: bool)
        ensures
            r == (*self != PortForwardMode::Disabled),
    {
        match self {
            PortForwardMode::Disabled => false,
            _ => true,
        }
    }

    /// Whether the leased port is pushed to qBittorrent.
    pub fn syncs_to_qbittorrent(&self) -> (r: bool)
        ensures
            r == (*self == PortForwardMode::ForwardAndSync),
    {
        match self {
            PortForwardMode::ForwardAndSync => true,
            _ => false,
        }
    }

    /// The name of the mode.
    pub open spec fn spec_str(self) -> Seq<char> {
        match self {
            PortForwardMode::Disabled => "disabled"@,
            PortForwardMode::Forward => "forward"@,
            PortForwardMode::ForwardAndSync => "forward-and-sync"@,
        }
    }

    /// The name of the mode.
    pub fn as_str(&self) -> (r: &'static str)
        ensures
            r@ == self.spec_str(),
    {
        match self {
            PortForwardMode::Disabled => "disabled",
            PortForwardMode::Forward => "forward",
            PortForwardMode::ForwardAndSync => "forward-and-sync",
        }
    }

    /// The name of the mode, owned.
    pub fn to_string(&self) -> (r: String)
        ensures
            r@ == self.spec_str(),
    {
        self.as_str().to_owned()
    }

    /// The mode that a text in lower case names, with white space around it
    /// ignored.
    pub fn from_lowercase(lower: &str) -> (r: Result<PortForwardMode, AppError>)
        ensures
            match r {
                Ok(mode) => forward_mode_of(trimmed(lower@)) == Some(mode),
                Err(e) => forward_mode_of(trimmed(lower@)) is None && (
                e matches AppError::Config(m) && m@ == forward_mode_complaint(trimmed(lower@))),
            },
    {
        let t = trim(lower);
        if same(t, "disabled") || same(t, "off") || same(t, "none") {
            Ok(PortForwardMode::Disabled)
        } else if same(t, "forward") || same(t, "on") || same(t, "port-forward") {
            Ok(PortForwardMode::Forward)
        } else if same(t, "forward-and-sync") || same(t, "auto-sync") || same(t, "qbit") {
            Ok(PortForwardMode::ForwardAndSync)
        } else {
            let mut m = "invalid port-forward mode '".to_owned();
            m.append(t);
            m.append("'; expected 'disabled', 'forward', or 'forward-and-sync'");
            Err(AppError::Config(m))
        }
    }

    /// The mode that a text names, in any case and with white space around it
    /// ignored.
    pub fn parse(s: &str) -> (r: Result<PortForwardMode, AppError>)
        ensures
            match r {
                Ok(mode) => forward_mode_of(trimmed(lowercased(s@))) == Some(mode),
                Err(e) => forward_mode_of(trimmed(lowercased(s@))) is None && (
                e matches AppError::Config(m) && m@ == forward_mode_complaint(
                    trimmed(lowercased(s@)),
                )),
            },
            vstd::utf8::is_ascii_chars(s@) ==> (match r {
                Ok(mode) => forward_mode_of(trimmed(ascii_lowered(s@))) == Some(mode),
                Err(_) => forward_mode_of(trimmed(ascii_lowered(s@))) is None,
            }),
    {
        let lower = to_lowercase(s);
        PortForwardMode::from_lowercase(lower.as_str())
    }
}

impl std::str::FromStr for PortForwardMode {
    type Err = AppError;

    fn from_str(s: &str) -> Result<PortForwardMode, AppError> {
        PortForwardMode::parse(s)
    }
}

/// The name of a mode reads back as that mode.
pub proof fn law_forward_mode_reads_back(mode: PortForwardMode)
    ensures
        forward_mode_of(trimmed(mode.spec_str())) == Some(mode),
{
    reveal_strlit("disabled");
    reveal_strlit("off");
    reveal_strlit("none");
    reveal_strlit("forward");
    reveal_strlit("on");
    reveal_strlit("port-forward");
    reveal_strlit("forward-and-sync");
    reveal_strlit("auto-sync");
    reveal_strlit("qbit");
    assert("forward"@.len() == 7 && "forward-and-sync"@.len() == 16 && "disabled"@.len() == 8);
    assert("off"@.len() == 3 && "none"@.len() == 4 && "on"@.len() == 2);
    assert("port-forward"@.len() == 12 && "auto-sync"@.len() == 9 && "qbit"@.len() == 4);
}

/// The settings of port forwarding.
#[derive(Debug, Clone, Copy, PartialEq, Eq, Structural)]
pub struct PortForwardConfig {
    pub mode: PortForwardMode,
    /// The flag that older settings hold in place of a mode.
    pub legacy_enabled: bool,
    /// Whether the settings name a mode at all.
    pub mode_explicit: bool,
}

impl Default for PortForwardConfig {
    fn default() -> (r: PortForwardConfig)
        ensures
            r == (PortForwardConfig {
                mode: PortForwardMode::Disabled,
                legacy_enabled: false,
                mode_explicit: false,
            }),
    {
        PortForwardConfig {
            mode: PortForwardMode::Disabled,
            legacy_enabled: false,
            mode_explicit: false,
        }
    }
}

impl PortForwardConfig {
    /// The settings that a file gives, where the mode may be absent.
    pub fn from_file(mode: Option<PortForwardMode>, legacy_enabled: bool) -> (r: PortForwardConfig)
        ensures
            r == (PortForwardConfig {
                mode: if mode is Some {
                    mode->0
                } else {
                    PortForwardMode::Disabled
                },
                legacy_enabled,
                mode_explicit: mode is Some,
            }),
    {
        match mode {
            Some(m) => PortForwardConfig { mode: m, legacy_enabled, mode_explicit: true },
            None => PortForwardConfig {
                mode: PortForwardMode::Disabled,
                legacy_enabled,
                mode_explicit: false,
            },
        }
    }
}

// ---------------------------------------------------------------------------
// The other settings
// ---------------------------------------------------------------------------

/// Where configurations are dropped by default.
pub fn default_profiles_dir() -> (r: String)
    ensures
        r@ == "~/.config/neutron/profiles"@,
{
    "~/.config/neutron/profiles".to_owned()
}

/// The color preset that is used by default.
pub fn default_theme_preset() -> (r: String)
    ensures
        r@ == "nord"@,
{
    "nord".to_owned()
}

/// Where the qBittorrent WebUI is expected by default.
pub fn default_qbittorrent_url() -> (r: String)
    ensures
        r@ == "http://127.0.0.1:8080"@,
{
    "http://127.0.0.1:8080".to_owned()
}

/// The default of the flags that are on unless they are turned off.
pub fn default_true() -> (r: bool)
    ensures
        r,
{
    true
}

/// The general settings.
#[derive(Debug, Clone, PartialEq, Eq)]
pub struct GeneralConfig {
    pub profiles_dir: String,
    pub auto_sync_profiles: bool,
    /// Whether a random eligible profile is connected at login.
    pub autoconnect_at_login: bool,
    /// Whether a fresh tunnel that initiates its own handshake is taken down
    /// again when no authenticated traffic arrives.
    pub verify_tunnel_on_connect: bool,
}

impl Default for GeneralConfig {
    fn default() -> (r: GeneralConfig)
        ensures
            r.profiles_dir@ == "~/.config/neutron/profiles"@,
            r.auto_sync_profiles,
            !r.autoconnect_at_login,
            r.verify_tunnel_on_connect,
    {
        GeneralConfig {
            profiles_dir: default_profiles_dir(),
            auto_sync_profiles: default_true(),
            autoconnect_at_login: false,
            verify_tunnel_on_connect: default_true(),
        }
    }
}

/// The colors.
#[derive(Debug, Clone, PartialEq, Eq)]
pub struct ThemeConfig {
    pub preset: String,
    pub active_border: Option<String>,
    pub status_connected: Option<String>,
    pub status_disconnected: Option<String>,
    pub transfer_rx: Option<String>,
    pub transfer_tx: Option<String>,
}

impl Default for ThemeConfig {
    fn default() -> (r: ThemeConfig)
        ensures
            r.preset@ == "nord"@,
            r.active_border is None,
            r.status_connected is None,
            r.status_disconnected is None,
            r.transfer_rx is None,
            r.transfer_tx is None,
    {
        ThemeConfig {
            preset: default_theme_preset(),
            active_border: None,
            status_connected: None,
            status_disconnected: None,
            transfer_rx: None,
            transfer_tx: None,
        }
    }
}

/// How qBittorrent is reached.
#[derive(Debug, Clone, PartialEq, Eq)]
pub struct QBittorrentConfig {
    /// The flag by which older settings turned the synchronization on.
    pub legacy_enabled: bool,
    pub url: String,
    pub username: Option<String>,
    pub password: Option<String>,
    pub bind_interface: bool,
}

/// Whether a host is this machine: by the name that every machine has for
/// itself, or by an address of the loopback networks.
pub open spec fn is_local_host(host: Seq<char>) -> bool {
    let plain = unbracketed(host);
    ascii_lowered(host) == "localhost"@ || match address_of(plain) {
        Some(IpAddr::V4(v)) => v / 0x1000000 == 127,
        Some(IpAddr::V6(v)) => v == 1,
        None => false,
    }
}

/// A host without the brackets that a URL puts around an IPv6 address.
pub open spec fn unbracketed(host: Seq<char>) -> Seq<char> {
    if host.len() >= 2 && host[0] == '[' && host.last() == ']' {
        host.subrange(1, host.len() - 1)
    } else {
        host
    }
}

/// Whether a host is this machine.
fn local_host(host: &str) -> (r: bool)
    ensures
        r == is_local_host(host@),
{
    let lower = to_ascii_lowercase(host);
    if same(lower.as_str(), "localhost") {
        return true;
    }
    let cs = chars_of(host);
    let n = cs.len();
    let plain = if n >= 2 && cs[0] == '[' && cs[n - 1] == ']' {
        host.substring_char(1, n - 1)
    } else {
        host
    };
    assert(plain@ =~= unbracketed(host@));
    match IpAddr::parse(plain) {
        Some(IpAddr::V4(v)) => v / 0x1000000 == 127,
        Some(IpAddr::V6(v)) => v == 1,
        None => false,
    }
}

impl QBittorrentConfig {
    /// Whether qBittorrent listens on the interface of the tunnel: where it runs
    /// on this machine, or where the settings say so. The forwarded port is only
    /// reachable through the tunnel.
    pub fn binds_tunnel_interface(&self) -> (r: bool)
        ensures
            r == (self.bind_interface || is_local_host(url_host_port(self.url@).0)),
    {
        if self.bind_interface {
            return true;
        }
        let (host, _) = split_webui_url(self.url.as_str());
        local_host(host.as_str())
    }
}

impl Default for QBittorrentConfig {
    fn default() -> (r: QBittorrentConfig)
        ensures
            !r.legacy_enabled,
            r.url@ == "http://127.0.0.1:8080"@,
            r.username is None,
            r.password is None,
            !r.bind_interface,
    {
        QBittorrentConfig {
            legacy_enabled: false,
            url: default_qbittorrent_url(),
            username: None,
            password: None,
            bind_interface: false,
        }
    }
}

/// All settings.
#[derive(Debug, Clone)]
pub struct AppConfig {
    pub general: GeneralConfig,
    /// Whether the kill switch is meant to be on.
    pub kill_switch_enabled: bool,
    /// Whether the lockdown is meant to be on.
    pub lockdown_enabled: bool,
    /// Profiles that are never selected at random at startup.
    pub excluded_profile_ids: IdSet,
    /// Profiles that are pinned to the quick actions.
    pub favorite_profile_ids: IdSet,
    pub last_random_profile_id: Option<String>,
    pub global_split_tunnel: SplitTunnelConfig,
    pub theme: ThemeConfig,
    pub port_forwarding: PortForwardConfig,
    pub qbittorrent: QBittorrentConfig,
    /// Imported notes, keyed by profile.
    pub profile_custom_info: NoteMap,
}

/// Whether all settings are those of a first run.
pub open spec fn is_default_config(c: AppConfig) -> bool {
    &&& c.general.profiles_dir@ == "~/.config/neutron/profiles"@
    &&& c.general.auto_sync_profiles
    &&& !c.general.autoconnect_at_login
    &&& c.general.verify_tunnel_on_connect
    &&& !c.kill_switch_enabled
    &&& !c.lockdown_enabled
    &&& c.excluded_profile_ids@ == Set::<Seq<char>>::empty()
    &&& c.favorite_profile_ids@ == Set::<Seq<char>>::empty()
    &&& c.last_random_profile_id is None
    &&& c.global_split_tunnel@ == (SplitTunnelView {
        mode: SplitTunnelMode::Disabled,
        cidrs: Seq::empty(),
        domains: Seq::empty(),
    })
    &&& c.theme.preset@ == "nord"@
    &&& c.theme.active_border is None
    &&& c.theme.status_connected is None
    &&& c.theme.status_disconnected is None
    &&& c.theme.transfer_rx is None
    &&& c.theme.transfer_tx is None
    &&& c.port_forwarding.mode == PortForwardMode::Disabled
    &&& !c.port_forwarding.legacy_enabled
    &&& !c.port_forwarding.mode_explicit
    &&& c.qbittorrent.url@ == "http://127.0.0.1:8080"@
    &&& !c.qbittorrent.legacy_enabled
    &&& c.qbittorrent.username is None
    &&& c.qbittorrent.password is None
    &&& !c.qbittorrent.bind_interface
    &&& c.profile_custom_info@ == Map::<Seq<char>, Seq<char>>::empty()
}

impl Default for AppConfig {
    fn default() -> (r: AppConfig)
        ensures
            is_default_config(r),
    {
        AppConfig {
            general: GeneralConfig::default(),
            kill_switch_enabled: false,
            lockdown_enabled: false,
            excluded_profile_ids: IdSet::new(),
            favorite_profile_ids: IdSet::new(),
            last_random_profile_id: None,
            global_split_tunnel: SplitTunnelConfig::default(),
            theme: ThemeConfig::default(),
            port_forwarding: PortForwardConfig::default(),
            qbittorrent: QBittorrentConfig::default(),
            profile_custom_info: NoteMap::new(),
        }
    }
}

// ---------------------------------------------------------------------------
// The address of the WebUI
// ---------------------------------------------------------------------------

/// Whether `c` ends the authority of a URL.
pub open spec fn ends_authority(c: char) -> bool {
    c == '/' || c == '?' || c == '#'
}

/// The length of the authority that `s` starts with.
pub open spec fn authority_end(s: Seq<char>) -> int
    decreases s.len(),
{
    if s.len() == 0 || ends_authority(s[0]) {
        0
    } else {
        1 + authority_end(s.skip(1))
    }
}

/// The scheme of a URL and what follows it; `http` where there is none.
pub open spec fn url_scheme(url: Seq<char>) -> (Seq<char>, Seq<char>) {
    match cut_part(url, "://"@) {
        Some(p) => p,
        None => ("http"@, url),
    }
}

/// Whether every character is an ASCII digit.
pub open spec fn all_digits(s: Seq<char>) -> bool {
    forall|i: int| 0 <= i < s.len() ==> '0' <= #[trigger] s[i] <= '9'
}

/// The host and the port of a URL; the default port where there is none.
pub open spec fn url_host_port(url: Seq<char>) -> (Seq<char>, Seq<char>) {
    let rest = url_scheme(url).1;
    let authority = rest.take(authority_end(rest));
    match cut_last(authority, ':') {
        Some((host, port)) => if host.len() > 0 && all_digits(port) {
            (host, port)
        } else {
            (authority, "8080"@)
        },
        None => (authority, "8080"@),
    }
}

/// The index where the authority ends.
fn find_authority_end(cs: &[char]) -> (r: usize)
    ensures
        r <= cs.len(),
        r == authority_end(cs@),
{
    let mut i: usize = 0;
    assert(cs@.skip(0) =~= cs@);
    while i < cs.len() && !(cs[i] == '/' || cs[i] == '?' || cs[i] == '#')
        invariant
            i <= cs.len(),
            authority_end(cs@) == i + authority_end(cs@.skip(i as int)),
        decreases cs.len() - i,
    {
        assert(cs@.skip(i as int).skip(1) =~= cs@.skip(i as int + 1));
        i += 1;
    }
    i
}

/// Whether every character is an ASCII digit.
fn digits_only(s: &str) -> (r: bool)
    ensures
        r == all_digits(s@),
{
    let cs = chars_of(s);
    let mut i: usize = 0;
    while i < cs.len()
        invariant
            i <= cs.len(),
            cs@ == s@,
            forall|k: int| 0 <= k < i ==> '0' <= #[trigger] s@[k] <= '9',
        decreases cs.len() - i,
    {
        if !('0' <= cs[i] && cs[i] <= '9') {
            assert(!('0' <= s@[i as int] <= '9'));
            return false;
        }
        i += 1;
    }
    true
}

/// The host and the port of the URL of a WebUI.
pub fn split_webui_url(url: &str) -> (r: (String, String))
    ensures
        (r.0@, r.1@) == url_host_port(url@),
{
    let rest = match split_once_part(url, "://") {
        Some((_, rest)) => rest,
        None => url,
    };
    let cs = chars_of(rest);
    let end = find_authority_end(&cs);
    let authority = rest.substring_char(0, end);
    assert(authority@ =~= rest@.take(end as int));
    match rsplit_once(authority, ':') {
        Some((host, port)) => if !host.is_empty() && digits_only(port) {
            (host.to_owned(), port.to_owned())
        } else {
            (authority.to_owned(), "8080".to_owned())
        },
        None => (authority.to_owned(), "8080".to_owned()),
    }
}

/// `url` with another host and port; the scheme and the path stay.
pub open spec fn url_with_host_port(url: Seq<char>, host: Seq<char>, port: Seq<char>) -> Seq<char> {
    let (scheme, rest) = url_scheme(url);
    scheme + "://"@ + host + ":"@ + port + rest.skip(authority_end(rest))
}

/// `url` with another host and port; the scheme and the path stay.
pub fn join_webui_url(url: &str, host: &str, port: &str) -> (r: String)
    ensures
        r@ == url_with_host_port(url@, host@, port@),
{
    let (scheme, rest) = match split_once_part(url, "://") {
        Some((scheme, rest)) => (scheme, rest),
        None => ("http", url),
    };
    let cs = chars_of(rest);
    let end = find_authority_end(&cs);
    let path = rest.substring_char(end, cs.len());
    assert(path@ =~= rest@.skip(end as int));
    scheme.to_owned().concat("://").concat(host).concat(":").concat(port).concat(path)
}

/// The length of an authority that is known.
proof fn lemma_authority_end_is(s: Seq<char>, n: int)
    requires
        0 <= n <= s.len(),
        forall|k: int| 0 <= k < n ==> !ends_authority(#[trigger] s[k]),
        n < s.len() ==> ends_authority(s[n]),
    ensures
        authority_end(s) == n,
    decreases s.len(),
{
    if n > 0 {
        let rest = s.skip(1);
        assert forall|k: int| 0 <= k < n - 1 implies !ends_authority(#[trigger] rest[k]) by {
            assert(rest[k] == s[k + 1]);
        }
        lemma_authority_end_is(rest, n - 1);
    }
}

/// An authority ends where it does.
proof fn lemma_authority_end(s: Seq<char>)
    ensures
        0 <= authority_end(s) <= s.len(),
        authority_end(s) < s.len() ==> ends_authority(s[authority_end(s)]),
    decreases s.len(),
{
    if s.len() > 0 && !ends_authority(s[0]) {
        lemma_authority_end(s.skip(1));
    }
}

/// The scheme of a URL that was put together, and what follows it.
proof fn lemma_joined_scheme(url: Seq<char>, tail: Seq<char>)
    ensures
        url_scheme(url_scheme(url).0 + "://"@ + tail) == (url_scheme(url).0, tail),
{
    reveal_strlit("://");
    reveal_strlit("http");
    let sep = "://"@;
    let scheme = url_scheme(url).0;
    let all = scheme + sep + tail;
    let i = scheme.len() as int;
    crate::text::lemma_first_part(url, sep);
    assert(all.skip(i).take(3) =~= sep);
    assert(has_prefix(all.skip(i), sep));
    assert forall|j: int| 0 <= j < i implies !has_prefix(#[trigger] all.skip(j), sep) by {
        if has_prefix(all.skip(j), sep) {
            let found = all.skip(j).take(3);
            assert(found[0] == all[j] && found[1] == all[j + 1] && found[2] == all[j + 2]);
            if first_part(url, sep) < url.len() {
                assert(i == first_part(url, sep));
                let there = url.skip(i).take(3);
                assert(there == sep);
                assert(there[0] == url[i] && there[1] == url[i + 1] && there[2] == url[i + 2]);
                assert forall|k: int| 0 <= k < i + 3 implies #[trigger] all[k] == url[k] by {}
                assert(url.skip(j).take(3) =~= sep);
                crate::text::lemma_first_part_before(url, sep, j);
            } else {
                assert(all[j] == "http"@[j]);
            }
        }
    }
    crate::text::lemma_first_part_is(all, sep, i);
    assert(all.take(i) =~= scheme);
    assert(all.skip(i + 3) =~= tail);
}

/// How a URL that got another host and port reads: the scheme, and after it the
/// authority that was put in and the path.
proof fn lemma_joined_url(url: Seq<char>, host: Seq<char>, port: Seq<char>)
    requires
        forall|k: int| 0 <= k < host.len() ==> !ends_authority(#[trigger] host[k]),
        forall|k: int| 0 <= k < port.len() ==> !ends_authority(#[trigger] port[k]),
    ensures
        ({
            let (scheme, rest) = url_scheme(url);
            let authority = host + ":"@ + port;
            let path = rest.skip(authority_end(rest));
            &&& url_scheme(url_with_host_port(url, host, port)) == (scheme, authority + path)
            &&& authority_end(authority + path) == authority.len()
            &&& (authority + path).take(authority.len() as int) == authority
            &&& (authority + path).skip(authority.len() as int) == path
        }),
{
    reveal_strlit(":");
    let (scheme, rest) = url_scheme(url);
    let path = rest.skip(authority_end(rest));
    lemma_authority_end(rest);
    let authority = host + ":"@ + port;
    let tail = authority + path;
    assert(url_with_host_port(url, host, port) =~= scheme + "://"@ + tail);
    lemma_joined_scheme(url, tail);
    let n = authority.len() as int;
    assert forall|k: int| 0 <= k < n implies !ends_authority(#[trigger] tail[k]) by {
        if k < host.len() {
            assert(tail[k] == host[k]);
        } else if k == host.len() {
            assert(tail[k] == ':');
        } else {
            assert(tail[k] == port[k - host.len() - 1]);
        }
    }
    if n < tail.len() {
        assert(tail[n] == path[0]);
    }
    lemma_authority_end_is(tail, n);
    assert(tail.take(n) =~= authority);
    assert(tail.skip(n) =~= path);
}

/// What stands before and behind the last colon of a host with its port.
proof fn lemma_host_and_port(host: Seq<char>, port: Seq<char>)
    requires
        all_digits(port),
    ensures
        cut_last(host + ":"@ + port, ':') == Some((host, port)),
{
    reveal_strlit(":");
    let authority = host + ":"@ + port;
    let at = host.len() as int;
    crate::text::lemma_last_at(authority, ':');
    assert(authority[at] == ':');
    assert forall|k: int| at < k < authority.len() implies authority[k] != ':' by {
        assert(authority[k] == port[k - at - 1]);
    }
    assert(authority.take(at) =~= host);
    assert(authority.skip(at + 1) =~= port);
}

/// A URL with another host and port has that host and port.
pub proof fn law_webui_url(url: Seq<char>, host: Seq<char>, port: Seq<char>)
    requires
        host.len() > 0,
        forall|k: int| 0 <= k < host.len() ==> !ends_authority(#[trigger] host[k]),
        all_digits(port),
    ensures
        url_host_port(url_with_host_port(url, host, port)) == (host, port),
{
    lemma_joined_url(url, host, port);
    lemma_host_and_port(host, port);
}

/// Another host and port leave the scheme and the path of a URL, so that putting
/// in yet another host and port gives the same as doing so at once.
pub proof fn law_webui_url_twice(
    url: Seq<char>,
    host: Seq<char>,
    port: Seq<char>,
    other_host: Seq<char>,
    other_port: Seq<char>,
)
    requires
        forall|k: int| 0 <= k < host.len() ==> !ends_authority(#[trigger] host[k]),
        forall|k: int| 0 <= k < port.len() ==> !ends_authority(#[trigger] port[k]),
    ensures
        url_with_host_port(url_with_host_port(url, host, port), other_host, other_port)
            == url_with_host_port(url, other_host, other_port),
{
    lemma_joined_url(url, host, port);
}

// ---------------------------------------------------------------------------
// Reading and changing the settings
// ---------------------------------------------------------------------------

/// The mode that settings mean: a mode that they name always wins; otherwise the
/// flags of older settings decide.
pub open spec fn effective_mode(forwarding: PortForwardConfig, sync_flag: bool) -> PortForwardMode {
    if forwarding.mode_explicit || !forwarding.legacy_enabled {
        forwarding.mode
    } else if sync_flag {
        PortForwardMode::ForwardAndSync
    } else {
        PortForwardMode::Forward
    }
}

/// Notes on profiles, by their identifiers.
pub type Notes = Map<Seq<char>, Seq<char>>;

/// The notes that a sidecar holds, where there is one.
pub open spec fn sidecar_notes(sidecar: Option<NoteMap>) -> Option<Notes> {
    match sidecar {
        Some(notes) => Some(notes@),
        None => None,
    }
}

/// The notes that are read: those of the sidecar, where there is one, and the inline
/// ones of the settings otherwise.
pub open spec fn notes_read(inline: Notes, sidecar: Option<Notes>) -> Notes {
    match sidecar {
        Some(notes) => notes,
        None => inline,
    }
}

/// Settings as they were read from their file, with the notes of the sidecar in
/// place of the inline ones where there is a sidecar, and with the port-forward
/// mode that they mean.
pub fn loaded(file: AppConfig, sidecar: Option<NoteMap>) -> (r: AppConfig)
    ensures
        r.profile_custom_info@ == notes_read(file.profile_custom_info@, sidecar_notes(sidecar)),
        r.port_forwarding == (PortForwardConfig {
            mode: effective_mode(file.port_forwarding, file.qbittorrent.legacy_enabled),
            ..file.port_forwarding
        }),
        r.general == file.general,
        r.kill_switch_enabled == file.kill_switch_enabled,
        r.lockdown_enabled == file.lockdown_enabled,
        r.excluded_profile_ids == file.excluded_profile_ids,
        r.favorite_profile_ids == file.favorite_profile_ids,
        r.last_random_profile_id == file.last_random_profile_id,
        r.global_split_tunnel == file.global_split_tunnel,
        r.theme == file.theme,
        r.qbittorrent == file.qbittorrent,
{
    let mut r = file;
    if let Some(info) = sidecar {
        r.profile_custom_info = info;
    }
    if !r.port_forwarding.mode_explicit {
        if r.qbittorrent.legacy_enabled && r.port_forwarding.legacy_enabled {
            r.port_forwarding.mode = PortForwardMode::ForwardAndSync;
        } else if r.port_forwarding.legacy_enabled {
            r.port_forwarding.mode = PortForwardMode::Forward;
        }
    }
    r
}

/// Whether the sidecar has to be written when settings with `notes` are saved
/// and the sidecar holds `stored`.
pub open spec fn is_outdated(stored: Option<Notes>, notes: Notes) -> bool {
    match stored {
        Some(info) => info != notes,
        None => notes != Map::<Seq<char>, Seq<char>>::empty(),
    }
}

/// What the sidecar holds after settings with `notes` were saved: it is written
/// where it has to be.
pub open spec fn sidecar_saved(stored: Option<Notes>, notes: Notes) -> Option<Notes> {
    if is_outdated(stored, notes) {
        Some(notes)
    } else {
        stored
    }
}

/// The notes that are read after a save are those that were saved. The settings are
/// saved without inline notes; a stale inline copy does not bring notes back where
/// there was a sidecar or notes were saved.
pub proof fn law_saved_notes_are_read(stored: Option<Notes>, notes: Notes, inline: Notes)
    ensures
        notes_read(Map::empty(), sidecar_saved(stored, notes)) == notes,
        stored is Some || notes != Map::<Seq<char>, Seq<char>>::empty() ==> notes_read(
            inline,
            sidecar_saved(stored, notes),
        ) == notes,
{
}

/// Whether the sidecar has to be written when settings with `notes` are saved
/// and the sidecar holds `stored`.
pub fn sidecar_needs_writing(stored: &Option<NoteMap>, notes: &NoteMap) -> (r: bool)
    ensures
        r == is_outdated(sidecar_notes(*stored), notes@),
{
    match stored {
        Some(info) => !info.same_as(notes),
        None => !notes.is_empty(),
    }
}

/// The settings after everything that is kept of profile `uuid` was dropped.
pub open spec fn forgot(after: AppConfig, before: AppConfig, uuid: Seq<char>) -> bool {
    &&& after.profile_custom_info@ == before.profile_custom_info@.remove(uuid)
    &&& after.excluded_profile_ids@ == before.excluded_profile_ids@.remove(uuid)
    &&& after.favorite_profile_ids@ == before.favorite_profile_ids@.remove(uuid)
    &&& opt_text(after.last_random_profile_id) == (if opt_text(before.last_random_profile_id)
        == Some(uuid) {
        None
    } else {
        opt_text(before.last_random_profile_id)
    })
    &&& after.general == before.general
    &&& after.kill_switch_enabled == before.kill_switch_enabled
    &&& after.lockdown_enabled == before.lockdown_enabled
    &&& after.global_split_tunnel == before.global_split_tunnel
    &&& after.theme == before.theme
    &&& after.port_forwarding == before.port_forwarding
    &&& after.qbittorrent == before.qbittorrent
}

/// Whether the settings keep anything of profile `uuid`.
pub open spec fn remembers(config: AppConfig, uuid: Seq<char>) -> bool {
    ||| config.profile_custom_info@.dom().contains(uuid)
    ||| config.excluded_profile_ids@.contains(uuid)
    ||| config.favorite_profile_ids@.contains(uuid)
    ||| opt_text(config.last_random_profile_id) == Some(uuid)
}

/// Drop everything that is kept of profile `uuid`; the result says whether there
/// was anything.
pub fn forget_profile(config: &mut AppConfig, uuid: &str) -> (r: bool)
    ensures
        forgot(*final(config), *old(config), uuid@),
        r == remembers(*old(config), uuid@),
{
    let notes = config.profile_custom_info.remove(uuid);
    let excluded = config.excluded_profile_ids.remove(uuid);
    let favorite = config.favorite_profile_ids.remove(uuid);
    let last = match &config.last_random_profile_id {
        Some(id) => same(id.as_str(), uuid),
        None => false,
    };
    if last {
        config.last_random_profile_id = None;
    }
    notes || excluded || favorite || last
}

/// A forgotten profile is forgotten for good: nothing is kept of it afterwards,
/// and what is kept of every other profile stays.
pub proof fn law_forgetting(after: AppConfig, before: AppConfig, uuid: Seq<char>, other: Seq<char>)
    requires
        forgot(after, before, uuid),
        other != uuid,
    ensures
        !remembers(after, uuid),
        remembers(after, other) == remembers(before, other),
{
}

// ---------------------------------------------------------------------------
// Where things are kept
// ---------------------------------------------------------------------------

/// Calls `dirs::home_dir`, and hands the path over as the bytes by which the system
/// knows it. Nothing is said of the result, which depends on the environment of the
/// process.
#[verifier::external_body]
fn home_dir() -> (r: Option<Vec<u8>>) {
    dirs::home_dir().map(|path| path.into_os_string().into_encoded_bytes())
}

/// Calls `dirs::config_dir`, and hands the path over as the bytes by which the
/// system knows it. Nothing is said of the result, which depends on the environment
/// of the process.
#[verifier::external_body]
fn config_dir() -> (r: Option<Vec<u8>>) {
    dirs::config_dir().map(|path| path.into_os_string().into_encoded_bytes())
}

/// The directory that `raw` names for a user with the given home.
pub open spec fn expanded(raw: Seq<char>, home: Option<Seq<u8>>) -> Seq<u8> {
    match home {
        Some(h) => if raw == "~"@ {
            h
        } else {
            match after_prefix(raw, "~/"@) {
                Some(rest) => path_join(h, encode_utf8(rest)),
                None => encode_utf8(raw),
            }
        },
        None => encode_utf8(raw),
    }
}

/// The directory that `raw` names for a user with the given home.
pub fn expand_home(raw: &str, home: Option<&[u8]>) -> (r: Vec<u8>)
    ensures
        r@ == expanded(raw@, opt_path(home)),
{
    match home {
        Some(h) => {
            if same(raw, "~") {
                return slice_to_vec(h);
            }
            match strip_prefix(raw, "~/") {
                Some(rest) => join(h, rest.as_bytes()),
                None => slice_to_vec(raw.as_bytes()),
            }
        },
        None => slice_to_vec(raw.as_bytes()),
    }
}

/// Ask a function that depends on the environment.
fn asked<F: Fn() -> Option<Vec<u8>>>(f: F) -> (r: Option<Vec<u8>>)
    requires
        f.requires(()),
    ensures
        f.ensures((), r),
{
    f()
}

/// Whether `dirs::home_dir` may give `home`.
pub closed spec fn may_be_home(home: Option<Seq<u8>>) -> bool {
    exists|h: Option<Vec<u8>>| #[trigger] call_ensures(home_dir, (), h) && opt_bytes(h) == home
}

/// Whether `dirs::config_dir` may give `base`.
pub closed spec fn may_be_config_dir(base: Option<Seq<u8>>) -> bool {
    exists|b: Option<Vec<u8>>| #[trigger] call_ensures(config_dir, (), b) && opt_bytes(b) == base
}

/// Whether `dir` is the drop directory that the settings name as `raw`: a leading
/// `~` is replaced by what `dirs::home_dir` gives.
pub open spec fn is_drop_dir(dir: Seq<u8>, raw: Seq<char>) -> bool {
    exists|home: Option<Seq<u8>>| #[trigger] may_be_home(home) && dir == expanded(raw, home)
}

/// The directory where configurations are dropped, with a leading `~` replaced
/// by the home directory of the user, where there is one.
pub fn resolve_profiles_dir(config: &AppConfig) -> (r: Vec<u8>)
    ensures
        is_drop_dir(r@, config.general.profiles_dir@),
{
    let home = asked(home_dir);
    assert(may_be_home(opt_bytes(home)));
    let known = match &home {
        Some(h) => Some(h.as_slice()),
        None => None,
    };
    expand_home(config.general.profiles_dir.as_str(), known)
}

/// The file `name` in the directory `dir` under `base`.
pub open spec fn candidate(base: Seq<u8>, dir: Seq<char>, name: Seq<char>) -> Seq<u8> {
    path_join(path_join(base, encode_utf8(dir)), encode_utf8(name))
}

/// The places where settings may be kept under `base`, the preferred one first.
pub open spec fn candidates_under(base: Seq<u8>) -> Seq<Seq<u8>> {
    seq![
        candidate(base, "neutron"@, "config.toml"@),
        candidate(base, "neutron-vpn"@, "config.toml"@),
        candidate(base, "neutron"@, "config.json"@),
        candidate(base, "neutron-vpn"@, "config.json"@),
        candidate(base, "wireguard-manager"@, "config.json"@),
    ]
}

/// The file `name` in the directory `dir` under `base`.
fn file_under(base: &[u8], dir: &str, name: &str) -> (r: Vec<u8>)
    ensures
        r@ == candidate(base@, dir@, name@),
{
    let dir = join(base, dir.as_bytes());
    join(dir.as_slice(), name.as_bytes())
}

/// The places where settings may be kept under `base`, the preferred one first.
pub fn config_candidates(base: &[u8]) -> (r: Vec<Vec<u8>>)
    ensures
        path_views(r@) == candidates_under(base@),
{
    let r = vec![
        file_under(base, "neutron", "config.toml"),
        file_under(base, "neutron-vpn", "config.toml"),
        file_under(base, "neutron", "config.json"),
        file_under(base, "neutron-vpn", "config.json"),
        file_under(base, "wireguard-manager", "config.json"),
    ];
    assert(path_views(r@) =~= candidates_under(base@));
    r
}

/// The places where the settings of this user may be kept, the preferred one
/// first.
pub fn default_config_candidates() -> (r: Result<Vec<Vec<u8>>, AppError>)
    ensures
        exists|base: Option<Seq<u8>>| #[trigger]
            may_be_config_dir(base) && match base {
                Some(dir) => r matches Ok(list) && path_views(list@) == candidates_under(dir),
                None => r matches Err(AppError::Config(m)) && m@
                    == "could not determine configuration directory"@,
            },
{
    let base = asked(config_dir);
    assert(may_be_config_dir(opt_bytes(base)));
    match base {
        Some(base) => Ok(config_candidates(base.as_slice())),
        None => Err(
            AppError::Config("could not determine configuration directory".to_owned()),
        ),
    }
}

/// Which candidate holds the settings, given which of them exist: the first that
/// does, else the preferred one.
pub open spec fn chosen(present: Seq<bool>, i: int) -> int
    decreases present.len() - i,
{
    if i >= present.len() {
        0
    } else if present[i] {
        i
    } else {
        chosen(present, i + 1)
    }
}

/// Which candidate holds the settings, given which of them exist.
pub fn choose_config(present: &[bool]) -> (r: usize)
    ensures
        r == chosen(present@, 0),
        r < present.len() || r == 0,
{
    let mut i: usize = 0;
    while i < present.len()
        invariant
            i <= present.len(),
            chosen(present@, 0) == chosen(present@, i as int),
        decreases present.len() - i,
    {
        if present[i] {
            return i;
        }
        i += 1;
    }
    0
}

/// The name of the temporary file that becomes `path`, as it is shown, made distinct
/// by `stamp`.
pub fn temporary_path(path: &str, stamp: u128) -> (r: String)
    ensures
        r@ == path@ + ".tmp."@ + crate::text::decimal(stamp as nat),
{
    let mut r = path.to_owned().concat(".tmp.");
    crate::text::push_decimal(&mut r, stamp);
    r
}

/// An address in dotted decimal is on this machine exactly where its first octet is
/// that of the loopback network; so is `localhost` in any case.
pub proof fn law_loopback(a: nat, b: nat, c: nat, d: nat, name: Seq<char>)
    requires
        a <= 255,
        b <= 255,
        c <= 255,
        d <= 255,
    ensures
        is_local_host(
            decimal(a) + seq!['.'] + decimal(b) + seq!['.'] + decimal(c) + seq!['.'] + decimal(d),
        ) <==> a == 127,
        ascii_lowered(name) == "localhost"@ ==> is_local_host(name),
{
    let host = decimal(a) + seq!['.'] + decimal(b) + seq!['.'] + decimal(c) + seq!['.'] + decimal(
        d,
    );
    crate::ip::lemma_v4_parts(a, b, c, d);
    crate::text::lemma_decimal_value(a, 255);
    assert(host[0] == decimal(a)[0]);
    assert(unbracketed(host) == host);
    reveal_strlit("localhost");
    assert(ascii_lowered(host)[0] == crate::text::ascii_lower(host[0]));
    assert("localhost"@[0] == 'l');
    let v = a * 0x1000000 + b * 0x10000 + c * 0x100 + d;
    assert(v / 0x1000000 == a);
}

proof fn lemma_chosen(present: Seq<bool>, i: int)
    requires
        0 <= i <= present.len(),
        forall|k: int| 0 <= k < i ==> !#[trigger] present[k],
    ensures
        (exists|k: int| 0 <= k < present.len() && #[trigger] present[k]) ==> 0 <= chosen(present, i)
            < present.len() && present[chosen(present, i)] && forall|k: int|
            0 <= k < chosen(present, i) ==> !#[trigger] present[k],
        (forall|k: int| 0 <= k < present.len() ==> !#[trigger] present[k]) ==> chosen(present, i)
            == 0,
    decreases present.len() - i,
{
    if i < present.len() && !present[i] {
        lemma_chosen(present, i + 1);
    }
}

/// Of the places where settings may be, the first that is there is taken, and
/// without any the first of all.
pub proof fn law_first_settings_are_taken(present: Seq<bool>)
    ensures
        (exists|k: int| 0 <= k < present.len() && #[trigger] present[k]) ==> 0 <= chosen(present, 0)
            < present.len() && present[chosen(present, 0)] && forall|k: int|
            0 <= k < chosen(present, 0) ==> !#[trigger] present[k],
        (forall|k: int| 0 <= k < present.len() ==> !#[trigger] present[k]) ==> chosen(present, 0)
            == 0,
{
    lemma_chosen(present, 0);
}

/// Settings from before there were modes keep what they asked for: a mode that was
/// set stands, and otherwise the old switch decides, with the synchronization where
/// that was asked for too.
pub proof fn law_old_settings_keep_their_meaning(forwarding: PortForwardConfig, sync_flag: bool)
    ensures
        forwarding.mode_explicit ==> effective_mode(forwarding, sync_flag) == forwarding.mode,
        !forwarding.legacy_enabled ==> effective_mode(forwarding, sync_flag) == forwarding.mode,
        !forwarding.mode_explicit && forwarding.legacy_enabled ==> effective_mode(
            forwarding,
            sync_flag,
        ) == (if sync_flag {
            PortForwardMode::ForwardAndSync
        } else {
            PortForwardMode::Forward
        }),
{
}

/// The words that each way of splitting traffic goes by.
pub proof fn law_split_mode_words(t: Seq<char>)
    ensures
        split_mode_of(t) == Some(SplitTunnelMode::Disabled) <==> t == "disabled"@ || t == "off"@ || t
            == "none"@,
        split_mode_of(t) == Some(SplitTunnelMode::Include) <==> t == "include"@ || t == "only"@,
        split_mode_of(t) == Some(SplitTunnelMode::Exclude) <==> t == "exclude"@ || t == "bypass"@,
{
    reveal_strlit("disabled");
    reveal_strlit("off");
    reveal_strlit("none");
    reveal_strlit("include");
    reveal_strlit("only");
    reveal_strlit("exclude");
    reveal_strlit("bypass");
    assert("disabled"@.len() == 8 && "off"@.len() == 3 && "none"@.len() == 4 && "only"@.len() == 4);
    assert("include"@.len() == 7 && "exclude"@.len() == 7 && "bypass"@.len() == 6);
    assert("none"@[0] == 'n' && "only"@[0] == 'o');
    assert("include"@[0] == 'i' && "exclude"@[0] == 'e');
}

/// The words that each way of forwarding a port goes by.
pub proof fn law_forward_mode_words(t: Seq<char>)
    ensures
        forward_mode_of(t) == Some(PortForwardMode::Disabled) <==> t == "disabled"@ || t == "off"@
            || t == "none"@,
        forward_mode_of(t) == Some(PortForwardMode::Forward) <==> t == "forward"@ || t == "on"@ || t
            == "port-forward"@,
        forward_mode_of(t) == Some(PortForwardMode::ForwardAndSync) <==> t == "forward-and-sync"@
            || t == "auto-sync"@ || t == "qbit"@,
{
    reveal_strlit("disabled");
    reveal_strlit("off");
    reveal_strlit("none");
    reveal_strlit("forward");
    reveal_strlit("on");
    reveal_strlit("port-forward");
    reveal_strlit("forward-and-sync");
    reveal_strlit("auto-sync");
    reveal_strlit("qbit");
    assert("disabled"@.len() == 8 && "off"@.len() == 3 && "none"@.len() == 4);
    assert("forward"@.len() == 7 && "on"@.len() == 2 && "port-forward"@.len() == 12);
    assert("forward-and-sync"@.len() == 16 && "auto-sync"@.len() == 9 && "qbit"@.len() == 4);
    assert("none"@[0] == 'n' && "qbit"@[0] == 'q');
}

/// Without settings nothing is done unasked: neither policy is on, no port is
/// forwarded, traffic is not split, no profile is connected at login, none is
/// excluded; fresh tunnels are checked and new profiles are synchronized.
pub proof fn law_defaults(c: AppConfig)
    requires
        is_default_config(c),
    ensures
        !c.kill_switch_enabled && !c.lockdown_enabled && !c.general.autoconnect_at_login,
        c.general.verify_tunnel_on_connect && c.general.auto_sync_profiles,
        c.general.profiles_dir@ == "~/.config/neutron/profiles"@,
        c.global_split_tunnel.mode == SplitTunnelMode::Disabled,
        c.port_forwarding.mode == PortForwardMode::Disabled,
        forall|id: Seq<char>| !#[trigger] c.excluded_profile_ids@.contains(id),
        forall|id: Seq<char>| !#[trigger] c.favorite_profile_ids@.contains(id),
        c.qbittorrent.url@ == "http://127.0.0.1:8080"@ && c.qbittorrent.password is None
            && !c.qbittorrent.bind_interface,
{
    assert(c.global_split_tunnel@.mode == SplitTunnelMode::Disabled);
}

/// A URL whose host has no port behind it is taken to be at the usual port of the
/// WebUI, whatever its scheme and its path.
pub proof fn law_usual_webui_port(url: Seq<char>, host: Seq<char>, path: Seq<char>)
    requires
        forall|k: int|
            0 <= k < host.len() ==> !ends_authority(#[trigger] host[k]) && host[k] != ':',
        path.len() > 0 ==> ends_authority(path[0]),
    ensures
        url_host_port(url_scheme(url).0 + "://"@ + host + path) == (host, "8080"@),
{
    let tail = host + path;
    let n = host.len() as int;
    assert(url_scheme(url).0 + "://"@ + host + path =~= url_scheme(url).0 + "://"@ + tail);
    lemma_joined_scheme(url, tail);
    assert forall|k: int| 0 <= k < n implies !ends_authority(#[trigger] tail[k]) by {
        assert(tail[k] == host[k]);
    }
    if n < tail.len() {
        assert(tail[n] == path[0]);
    }
    lemma_authority_end_is(tail, n);
    assert(tail.take(n) =~= host);
    crate::text::lemma_last_at(host, ':');
}

/// Settings are looked for under the name of the program before any of its former
/// names, and in the newer format before the older one.
pub proof fn law_newer_settings_come_first(base: Seq<u8>)
    ensures
        ({
            let places = candidates_under(base);
            let under = |dir: Seq<char>, name: Seq<char>|
                path_join(path_join(base, encode_utf8(dir)), encode_utf8(name));
            &&& places.len() == 5
            &&& places[0] == under("neutron"@, "config.toml"@)
            &&& places[1] == under("neutron-vpn"@, "config.toml"@)
            &&& places[2] == under("neutron"@, "config.json"@)
            &&& places[3] == under("neutron-vpn"@, "config.json"@)
            &&& places[4] == under("wireguard-manager"@, "config.json"@)
        }),
{
}

/// A leading tilde stands for the home directory, where that is known; any other text
/// is a path as it stands.
pub proof fn law_tilde(rest: Seq<char>, home: Seq<u8>, raw: Seq<char>)
    ensures
        expanded("~"@, Some(home)) == home,
        expanded("~/"@ + rest, Some(home)) == path_join(home, encode_utf8(rest)),
        raw.len() == 0 || raw[0] != '~' ==> expanded(raw, Some(home)) == encode_utf8(raw),
        expanded(raw, None) == encode_utf8(raw),
{
    reveal_strlit("~");
    reveal_strlit("~/");
    let path = "~/"@ + rest;
    assert(path.len() != "~"@.len());
    assert(path.take(2) =~= "~/"@);
    assert(path.skip(2) =~= rest);
    if raw.len() > 0 && raw[0] != '~' {
        assert("~"@[0] == '~');
        if has_prefix(raw, "~/"@) {
            assert(raw.take(2)[0] == '~');
        }
    }
}

/// The stored notes are written anew exactly where they differ from those held; that
/// there are none is not written where nothing is stored.
pub proof fn law_notes_are_written_when_changed(stored: Notes, notes: Notes)
    ensures
        is_outdated(Some(stored), notes) <==> stored != notes,
        is_outdated(None, notes) <==> exists|id: Seq<char>| notes.dom().contains(id),
{
    if notes != Map::<Seq<char>, Seq<char>>::empty() {
        if forall|id: Seq<char>| !notes.dom().contains(id) {
            assert(notes =~= Map::<Seq<char>, Seq<char>>::empty());
        }
    }
}

/// Brackets around a host are no part of it.
pub proof fn law_bracketed_hosts(host: Seq<char>)
    ensures
        unbracketed("["@ + host + "]"@) == host,
        host.len() == 0 || host[0] != '[' ==> unbracketed(host) == host,
{
    reveal_strlit("[");
    reveal_strlit("]");
    let all = "["@ + host + "]"@;
    assert(all.subrange(1, all.len() - 1) =~= host);
}

} // verus!
