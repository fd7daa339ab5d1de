//! The window: what it shows of the connection, and what its dialogs do.

use vstd::prelude::*;
use vstd::string::*;

use crate::app::profile_list::ProfileListRow;
use crate::app::split_tunnel::{normal_cidr, normal_domain, put, take_out, with_item, without_items};
use crate::app::sync::names_of;
use crate::config::SplitTunnelMode;
use crate::error::AppResult;
use crate::nm::split_tunnel::{cidr_of, domain_of, normalize_domain, parse_and_normalize_cidr};
use crate::record::{grown, lemma_since_none, lemma_since_push, since, Recorder};
use crate::text::{copied, cut, decimal, decimal_string, join, joined, lemma_decimal_value, lemma_first_at_is, lowercased, number_value, opt_text, opt_view, parse_number, same, split_once, trim, trimmed, trimmed_end, trimmed_start};

verus! {

// ---------------------------------------------------------------------------
// The connection
// ---------------------------------------------------------------------------

/// What the window knows of the connection.
#[derive(Debug)]
pub struct ConnectionState {
    /// The name of the profile that is up.
    pub active_profile: Option<String>,
    /// The port that was granted last.
    pub active_port: Option<u16>,
    /// The profile that the port belongs to.
    pub port_profile: Option<String>,
}

/// What follows from a new list of profiles.
#[derive(Debug)]
pub struct RowsOutcome {
    /// What is said, if anything.
    pub message: Option<&'static str>,
    /// Whether the tunnel went down.
    pub dropped: bool,
    /// The profile whose gateway is asked for a port.
    pub ask_port: Option<String>,
}

/// The first row of an active profile at or after `i`.
pub open spec fn active_row(rows: Seq<ProfileListRow>, i: int) -> Option<ProfileListRow>
    decreases rows.len() - i,
{
    if i < 0 || i >= rows.len() {
        None
    } else if rows[i].is_active {
        Some(rows[i])
    } else {
        active_row(rows, i + 1)
    }
}

/// The name of a row that may be there.
pub open spec fn row_name(o: Option<ProfileListRow>) -> Option<Seq<char>> {
    match o {
        Some(row) => Some(row.name@),
        None => None,
    }
}

/// The identifier of a row that may be there.
pub open spec fn row_uuid(o: Option<ProfileListRow>) -> Option<Seq<char>> {
    match o {
        Some(row) => Some(row.uuid@),
        None => None,
    }
}

/// The first row of an active profile.
fn find_active<'a>(rows: &'a [ProfileListRow]) -> (r: Option<&'a ProfileListRow>)
    ensures
        match r {
            Some(row) => active_row(rows@, 0) == Some(*row),
            None => active_row(rows@, 0) is None,
        },
{
    let mut i: usize = 0;
    while i < rows.len()
        invariant
            i <= rows.len(),
            active_row(rows@, 0) == active_row(rows@, i as int),
        decreases rows.len() - i,
    {
        if rows[i].is_active {
            return Some(&rows[i]);
        }
        i += 1;
    }
    None
}

impl ConnectionState {
    /// What is known before the first list.
    pub fn new() -> (r: ConnectionState)
        ensures
            r.active_profile is None,
            r.active_port is None,
            r.port_profile is None,
    {
        ConnectionState { active_profile: None, active_port: None, port_profile: None }
    }

    /// Take over a new list of profiles. A port belongs to the tunnel that was
    /// granted it: it is forgotten as soon as another profile is active, or none.
    pub fn rows_loaded(&mut self, rows: &[ProfileListRow], list_was_empty: bool) -> (r: RowsOutcome)
        ensures
            ({
                let active = active_row(rows@, 0);
                &&& opt_text(final(self).active_profile) == row_name(active)
                &&& opt_text(final(self).port_profile) == row_uuid(active)
                &&& final(self).active_port == (if opt_text(old(self).port_profile) == row_uuid(
                    active,
                ) {
                    old(self).active_port
                } else {
                    None
                })
                &&& r.dropped == (old(self).active_profile is Some && active is None)
                &&& opt_text(r.ask_port) == row_uuid(active)
            }),
            opt_view(r.message) == (if rows@.len() == 0 {
                Some("No WireGuard profiles found. Import a configuration to add one."@)
            } else if list_was_empty {
                Some("Profiles loaded from NetworkManager."@)
            } else {
                None
            }),
    {
        let message = if rows.len() == 0 {
            Some("No WireGuard profiles found. Import a configuration to add one.")
        } else if list_was_empty {
            Some("Profiles loaded from NetworkManager.")
        } else {
            None
        };
        let was_connected = self.active_profile.is_some();
        let active = find_active(rows);
        match active {
            Some(row) => {
                let same_profile = match &self.port_profile {
                    Some(uuid) => same(uuid.as_str(), row.uuid.as_str()),
                    None => false,
                };
                self.active_profile = Some(row.name.clone());
                if !same_profile {
                    self.port_profile = Some(row.uuid.clone());
                    self.active_port = None;
                }
                RowsOutcome { message, dropped: false, ask_port: Some(row.uuid.clone()) }
            },
            None => {
                self.active_profile = None;
                if self.port_profile.is_some() {
                    self.port_profile = None;
                    self.active_port = None;
                }
                RowsOutcome { message, dropped: was_connected, ask_port: None }
            },
        }
    }

    /// Take over what the gateway granted.
    pub fn port_told(&mut self, port: Option<u16>)
        ensures
            *final(self) == (ConnectionState { active_port: port, ..*old(self) }),
    {
        self.active_port = port;
    }
}

/// What is said when the tunnel goes down: what its traffic is protected by from
/// then on. Nothing is said where neither protection is on.
pub fn protection_notice(lockdown: bool, kill_switch: bool) -> (r: Option<
    (&'static str, &'static str),
>)
    ensures
        match r {
            Some((title, body)) => if lockdown {
                title@ == "Lockdown is blocking traffic"@ && body@
                    == "The VPN disconnected. Lockdown is blocking all non-VPN traffic until you reconnect."@
            } else {
                kill_switch && title@ == "VPN disconnected — traffic is exposed"@ && body@
                    == "The kill switch only protects traffic while a tunnel is up. Reconnect, or enable Lockdown to block traffic while disconnected."@
            },
            None => !lockdown && !kill_switch,
        },
{
    if lockdown {
        Some(
            (
                "Lockdown is blocking traffic",
                "The VPN disconnected. Lockdown is blocking all non-VPN traffic until you reconnect.",
            ),
        )
    } else if kill_switch {
        Some(
            (
                "VPN disconnected — traffic is exposed",
                "The kill switch only protects traffic while a tunnel is up. Reconnect, or enable Lockdown to block traffic while disconnected.",
            ),
        )
    } else {
        None
    }
}

/// The label of the connection.
pub fn connection_label(connected: bool) -> (r: &'static str)
    ensures
        r@ == (if connected {
            "<span size='large' weight='bold' foreground='#2ec27e'>Connected</span>"@
        } else {
            "<span size='large' weight='bold' foreground='#e01b24'>Disconnected</span>"@
        }),
{
    if connected {
        "<span size='large' weight='bold' foreground='#2ec27e'>Connected</span>"
    } else {
        "<span size='large' weight='bold' foreground='#e01b24'>Disconnected</span>"
    }
}

/// The label of the port; none where there is no port, which is the normal case.
pub fn port_label(port: Option<u16>) -> (r: Option<String>)
    ensures
        opt_text(r) == match port {
            Some(p) => Some("Forwarded port: <b><tt>"@ + decimal(p as nat) + "</tt></b>"@),
            None => None,
        },
{
    match port {
        Some(p) => {
            let n = decimal_string(p as u128);
            Some(
                "Forwarded port: <b><tt>".to_owned().concat(n.as_str()).concat("</tt></b>"),
            )
        },
        None => None,
    }
}

/// What is said when the port was copied.
pub fn port_copied(port: u16) -> (r: String)
    ensures
        r@ == "Copied port "@ + decimal(port as nat) + " to clipboard."@,
{
    let n = decimal_string(port as u128);
    "Copied port ".to_owned().concat(n.as_str()).concat(" to clipboard.")
}

/// What is said of a failure, after what failed.
pub fn failure(what: &str, error: &str) -> (r: String)
    ensures
        r@ == what@ + ": "@ + error@,
{
    what.to_owned().concat(": ").concat(error)
}

/// What is said of a failure with a profile, after what failed.
pub fn profile_failure(what: &str, name: &str, error: &str) -> (r: String)
    ensures
        r@ == what@ + " '"@ + name@ + "': "@ + error@,
{
    what.to_owned().concat(" '").concat(name).concat("': ").concat(error)
}

/// What is asked before a profile is deleted.
pub fn removal_question(name: &str) -> (r: String)
    ensures
        r@ == "This permanently deletes '"@ + name@
            + "' from NetworkManager. This cannot be undone."@,
{
    "This permanently deletes '".to_owned().concat(name).concat(
        "' from NetworkManager. This cannot be undone.",
    )
}

// ---------------------------------------------------------------------------
// Eligibility
// ---------------------------------------------------------------------------

/// How the list of eligible profiles is summed up.
pub open spec fn eligibility_summary(autoconnect: bool, eligible: nat, total: nat) -> Seq<char> {
    if !autoconnect {
        "Disabled (Auto-Connect at Login is turned off)"@
    } else if total == 0 {
        "No profiles to choose from"@
    } else {
        decimal(eligible) + " of "@ + decimal(total) + " eligible for random selection"@
    }
}

/// How the list of eligible profiles is summed up, from the switches of the
/// profiles.
pub fn eligibility_subtitle(autoconnect: bool, switches: &[bool]) -> (r: String)
    ensures
        r@ == eligibility_summary(autoconnect, count_on(switches@), switches@.len()),
{
    if !autoconnect {
        return "Disabled (Auto-Connect at Login is turned off)".to_owned();
    }
    if switches.len() == 0 {
        return "No profiles to choose from".to_owned();
    }
    let mut on: usize = 0;
    let mut i: usize = 0;
    assert(switches@.take(0) =~= Seq::<bool>::empty());
    while i < switches.len()
        invariant
            i <= switches.len(),
            on <= i,
            on == count_on(switches@.take(i as int)),
        decreases switches.len() - i,
    {
        assert(switches@.take(i as int + 1).drop_last() =~= switches@.take(i as int));
        if switches[i] {
            on += 1;
        }
        i += 1;
    }
    assert(switches@.take(i as int) =~= switches@);
    let a = decimal_string(on as u128);
    let b = decimal_string(switches.len() as u128);
    a.concat(" of ").concat(b.as_str()).concat(" eligible for random selection")
}

/// How many switches are on.
pub open spec fn count_on(switches: Seq<bool>) -> nat
    decreases switches.len(),
{
    if switches.len() == 0 {
        0
    } else {
        count_on(switches.drop_last()) + if switches.last() {
            1nat
        } else {
            0nat
        }
    }
}

/// What is said when the eligibility of a profile is changed.
pub fn eligibility_message(name: &str, eligible: bool, error: Option<&str>) -> (r: String)
    ensures
        r@ == match error {
            Some(why) => "Failed to update eligibility for '"@ + name@ + "': "@ + why@,
            None => (if eligible {
                "Enabled"@
            } else {
                "Disabled"@
            }) + " random login selection for '"@ + name@ + "'."@,
        },
{
    match error {
        Some(why) => "Failed to update eligibility for '".to_owned().concat(name).concat(
            "': ",
        ).concat(why),
        None => {
            let verb = if eligible { "Enabled" } else { "Disabled" };
            verb.to_owned().concat(" random login selection for '").concat(name).concat("'.")
        },
    }
}

// ---------------------------------------------------------------------------
// Split tunneling
// ---------------------------------------------------------------------------

/// The place of a mode in its list.
pub open spec fn place_of(mode: SplitTunnelMode) -> u32 {
    match mode {
        SplitTunnelMode::Disabled => 0,
        SplitTunnelMode::Include => 1,
        SplitTunnelMode::Exclude => 2,
    }
}

/// The mode at a place of the list; nothing is split at a place that is not there.
pub open spec fn mode_at_place(place: u32) -> SplitTunnelMode {
    if place == 1 {
        SplitTunnelMode::Include
    } else if place == 2 {
        SplitTunnelMode::Exclude
    } else {
        SplitTunnelMode::Disabled
    }
}

/// The place of a mode in its list.
pub fn mode_place(mode: SplitTunnelMode) -> (r: u32)
    ensures
        r == place_of(mode),
{
    match mode {
        SplitTunnelMode::Disabled => 0,
        SplitTunnelMode::Include => 1,
        SplitTunnelMode::Exclude => 2,
    }
}

/// The mode at a place of the list.
pub fn mode_at(place: u32) -> (r: SplitTunnelMode)
    ensures
        r == mode_at_place(place),
{
    match place {
        1 => SplitTunnelMode::Include,
        2 => SplitTunnelMode::Exclude,
        _ => SplitTunnelMode::Disabled,
    }
}

/// A mode is read back from its place.
pub proof fn law_mode_reads_back(mode: SplitTunnelMode)
    ensures
        mode_at_place(place_of(mode)) == mode,
{
}

/// Put what was typed into the list of blocks, in its normal form. The result says
/// whether it was a block; else the list stays as it is.
pub fn add_typed_cidr(list: &mut Vec<String>, typed: &str) -> (r: bool)
    ensures
        r == cidr_of(typed@) is Ok,
        final(list).deep_view() == (if r {
            with_item(old(list).deep_view(), normal_cidr(typed@))
        } else {
            old(list).deep_view()
        }),
{
    match parse_and_normalize_cidr(typed) {
        Ok((normalized, _)) => {
            let _ = put(list, normalized);
            true
        },
        Err(_) => false,
    }
}

/// Put what was typed into the list of domains, in its normal form. The result
/// says whether anything was typed; else the list stays as it is.
pub fn add_typed_domain(list: &mut Vec<String>, typed: &str) -> (r: bool)
    ensures
        r == domain_of(lowercased(trimmed(typed@))) is Some,
        final(list).deep_view() == (if r {
            with_item(old(list).deep_view(), normal_domain(typed@))
        } else {
            old(list).deep_view()
        }),
{
    match normalize_domain(typed) {
        Some(normalized) => {
            let _ = put(list, normalized);
            true
        },
        None => false,
    }
}

/// Take an item out of a list.
pub fn remove_item(list: &mut Vec<String>, item: &str)
    ensures
        final(list).deep_view() == without_items(old(list).deep_view(), item@, item@),
{
    let _ = take_out(list, item, item);
}

/// What is said when the split tunneling was changed.
pub fn split_message(mode: SplitTunnelMode) -> (r: String)
    ensures
        r@ == "Updated global split tunneling ("@ + mode.spec_str() + ")."@,
{
    "Updated global split tunneling (".to_owned().concat(mode.as_str()).concat(").")
}

// ---------------------------------------------------------------------------
// Importing
// ---------------------------------------------------------------------------

/// A source of profiles. A source with steps explains them before files are
/// chosen.
#[derive(Debug, Clone, Copy)]
pub struct ImportSource {
    pub title: &'static str,
    pub subtitle: &'static str,
    pub guide: Option<(&'static str, &'static str)>,
}

/// The steps of an import from Proton.
pub const PROTON_IMPORT_STEPS: &'static str = "To add a ProtonVPN profile:\n\n1. Open the WireGuard downloads page and sign in. <a href=\"https://account.protonvpn.com/downloads#wireguard-configuration\">Downloads page</a>\n\n2. Create and download a configuration for each server you want. <a href=\"https://protonvpn.com/support/wireguard-configurations\">Configuration guide</a>\n\n3. Choose the downloaded <tt>.conf</tt> file(s) below to import them.";

/// The steps of an import from Mullvad.
pub const MULLVAD_IMPORT_STEPS: &'static str = "To add a Mullvad VPN profile:\n\n1. Open the WireGuard configuration page and log in with your account number. <a href=\"https://mullvad.net/en/account/wireguard-config\">Configuration page</a>\n\n2. Generate a key, choose your servers, and download the configuration. Extract the <tt>.zip</tt> if it contains several files. <a href=\"https://mullvad.net/en/help?Protocol=wireguard\">Mullvad help center</a>\n\n3. Choose the downloaded <tt>.conf</tt> file(s) below to import them.";

/// The sources of profiles, in the order in which they are offered.
pub fn import_sources() -> (r: Vec<ImportSource>)
    ensures
        r@.len() == 3,
        r@[0].title@ == "ProtonVPN"@,
        r@[0].subtitle@ == "Download configurations from your Proton account"@,
        r@[0].guide matches Some((heading, steps)) && heading@ == "Import from ProtonVPN"@ && steps@
            == PROTON_IMPORT_STEPS@,
        r@[1].title@ == "MullvadVPN"@,
        r@[1].subtitle@ == "Download configurations from your Mullvad account"@,
        r@[1].guide matches Some((heading, steps)) && heading@ == "Import from MullvadVPN"@
            && steps@ == MULLVAD_IMPORT_STEPS@,
        r@[2].title@ == "Manual import"@,
        r@[2].subtitle@ == "Import a WireGuard .conf file"@,
        r@[2].guide is None,
{
    vec![
        ImportSource {
            title: "ProtonVPN",
            subtitle: "Download configurations from your Proton account",
            guide: Some(("Import from ProtonVPN", PROTON_IMPORT_STEPS)),
        },
        ImportSource {
            title: "MullvadVPN",
            subtitle: "Download configurations from your Mullvad account",
            guide: Some(("Import from MullvadVPN", MULLVAD_IMPORT_STEPS)),
        },
        ImportSource {
            title: "Manual import",
            subtitle: "Import a WireGuard .conf file",
            guide: None,
        },
    ]
}

/// What is said of a chosen file that is not on this machine.
pub fn no_local_path(name: Option<&str>) -> (r: String)
    ensures
        r@ == (match name {
            Some(n) => n@,
            None => "selected file"@,
        }) + ": file has no local path"@,
{
    let shown = match name {
        Some(n) => n,
        None => "selected file",
    };
    shown.to_owned().concat(": file has no local path")
}

/// What is said after an import, where anything is.
pub open spec fn import_said(
    failures: Seq<Seq<char>>,
    outcome: Option<Result<Seq<Seq<char>>, Seq<char>>>,
) -> Option<Seq<char>> {
    match outcome {
        None => if failures.len() > 0 {
            Some("Import failed:\n"@ + joined(failures, "\n"@))
        } else {
            None
        },
        Some(Ok(errors)) => if failures.len() + errors.len() > 0 {
            Some("Some imports failed:\n"@ + joined(failures + errors, "\n"@))
        } else {
            None
        },
        Some(Err(error)) => Some("Import failed: "@ + error),
    }
}

/// The outcome of an import, as texts.
pub open spec fn outcome_view(outcome: Option<Result<Vec<String>, String>>) -> Option<
    Result<Seq<Seq<char>>, Seq<char>>,
> {
    match outcome {
        None => None,
        Some(Ok(errors)) => Some(Ok(errors.deep_view())),
        Some(Err(e)) => Some(Err(e@)),
    }
}

/// What is said after an import, where anything is: `failures` are the files that
/// could not be imported at all, and `outcome` is what importing the others gave,
/// where there were any.
pub fn import_message(failures: &Vec<String>, outcome: &Option<Result<Vec<String>, String>>) -> (r:
    Option<String>)
    ensures
        opt_text(r) == import_said(failures.deep_view(), outcome_view(*outcome)),
{
    match outcome {
        None => if failures.len() > 0 {
            let list = failures.as_slice();
            assert(list.deep_view() =~= failures.deep_view());
            let all = join(list, "\n");
            Some("Import failed:\n".to_owned().concat(all.as_str()))
        } else {
            None
        },
        Some(Ok(errors)) => {
            let first = failures.as_slice();
            assert(first.deep_view() =~= failures.deep_view());
            let second = errors.as_slice();
            assert(second.deep_view() =~= errors.deep_view());
            let mut all = copied(first);
            let mut more = copied(second);
            all.append(&mut more);
            assert(all.deep_view() =~= failures.deep_view() + errors.deep_view());
            if all.len() > 0 {
                let list = all.as_slice();
                assert(list.deep_view() =~= all.deep_view());
                let text = join(list, "\n");
                Some("Some imports failed:\n".to_owned().concat(text.as_str()))
            } else {
                None
            }
        },
        Some(Err(error)) => Some("Import failed: ".to_owned().concat(error.as_str())),
    }
}

/// What is said of the imports that failed, in order: each under the path of its
/// file.
pub open spec fn import_failures(calls: Seq<(Seq<char>, AppResult<()>)>) -> Seq<Seq<char>>
    decreases calls.len(),
{
    if calls.len() == 0 {
        Seq::empty()
    } else {
        let before = import_failures(calls.drop_last());
        match calls.last().1 {
            Ok(_) => before,
            Err(e) => before.push(calls.last().0 + ": "@ + e.spec_text()),
        }
    }
}

/// Import each of the chosen files once, in order, and say which of them failed.
/// One that fails does not stop the others.
pub fn import_files<I: Fn(&str) -> AppResult<()>>(
    paths: &[String],
    import: &mut Recorder<str, AppResult<()>, I>,
) -> (r: Vec<String>)
    ensures
        final(import).follows(*old(import)),
        names_of(since(old(import).calls(), final(import).calls())) == paths.deep_view(),
        r.deep_view() == import_failures(since(old(import).calls(), final(import).calls())),
{
    let ghost start = import.calls();
    let mut r: Vec<String> = Vec::new();
    let mut i: usize = 0;
    proof {
        lemma_since_none(start);
    }
    assert(names_of(since(start, start)) =~= paths.deep_view().take(0));
    assert(r.deep_view() =~= Seq::<Seq<char>>::empty());
    while i < paths.len()
        invariant
            i <= paths.len(),
            start == old(import).calls(),
            grown(start, import.calls()),
            import.follows(*old(import)),
            names_of(since(start, import.calls())) == paths.deep_view().take(i as int),
            r.deep_view() == import_failures(since(start, import.calls())),
        decreases paths.len() - i,
    {
        let path = paths[i].as_str();
        let ghost before = import.calls();
        let ghost so_far = since(start, before);
        let ghost said = r.deep_view();
        let outcome = import.ask(path);
        proof {
            let call = (path@, outcome);
            lemma_since_push(start, before, call);
            assert(names_of(so_far.push(call)) =~= names_of(so_far).push(path@));
            assert(so_far.push(call).drop_last() =~= so_far);
            assert(paths.deep_view().take(i as int).push(path@) =~= paths.deep_view().take(
                i as int + 1,
            ));
        }
        if let Err(e) = outcome {
            let why = e.text();
            let line = failure(path, why.as_str());
            let ghost text = line@;
            r.push(line);
            assert(r.deep_view() =~= said.push(text));
        }
        i += 1;
    }
    assert(paths.deep_view().take(i as int) =~= paths.deep_view());
    r
}

// ---------------------------------------------------------------------------
// Size
// ---------------------------------------------------------------------------

/// The width of the window before one is remembered.
pub const DEFAULT_WINDOW_WIDTH: i32 = 720;

/// The height of the window before one is remembered.
pub const DEFAULT_WINDOW_HEIGHT: i32 = 420;

/// The size of the window: the remembered one, as far as there is one.
pub fn window_size(width: Option<i32>, height: Option<i32>) -> (r: (i32, i32))
    ensures
        r.0 == match width {
            Some(w) => w,
            None => 720,
        },
        r.1 == match height {
            Some(h) => h,
            None => 420,
        },
{
    let w = match width {
        Some(w) => w,
        None => DEFAULT_WINDOW_WIDTH,
    };
    let h = match height {
        Some(h) => h,
        None => DEFAULT_WINDOW_HEIGHT,
    };
    (w, h)
}

/// The size that is remembered: that of a window that has one.
pub fn size_to_remember(width: i32, height: i32) -> (r: Option<(i32, i32)>)
    ensures
        r == (if width > 0 && height > 0 {
            Some((width, height))
        } else {
            None
        }),
{
    if width > 0 && height > 0 {
        Some((width, height))
    } else {
        None
    }
}

/// A size as it is kept.
pub open spec fn size_text(width: nat, height: nat) -> Seq<char> {
    decimal(width) + " "@ + decimal(height) + "\n"@
}

/// The text that keeps the size of a window, where it has one that is remembered.
pub fn remembered_text(width: i32, height: i32) -> (r: Option<String>)
    ensures
        opt_text(r) == (if width > 0 && height > 0 {
            Some(size_text(width as nat, height as nat))
        } else {
            None
        }),
{
    let (width, height) = match size_to_remember(width, height) {
        Some(size) => size,
        None => {
            return None;
        },
    };
    let w = decimal_string(width as u128);
    let h = decimal_string(height as u128);
    Some(w.concat(" ").concat(h.as_str()).concat("\n"))
}

/// The size that a text keeps: two numbers, with a space between them.
pub open spec fn size_in(text: Seq<char>) -> Option<(nat, nat)> {
    match cut(trimmed(text), ' ') {
        Some((w, h)) => match (
            number_value(w, i32::MAX as nat),
            number_value(h, i32::MAX as nat),
        ) {
            (Ok(width), Ok(height)) => Some((width, height)),
            _ => None,
        },
        None => None,
    }
}

/// The size that a text keeps, where it keeps one.
pub fn remembered_size(text: &str) -> (r: Option<(i32, i32)>)
    ensures
        match r {
            Some(size) => size_in(text@) == Some((size.0 as nat, size.1 as nat)) && size.0 >= 0
                && size.1 >= 0,
            None => size_in(text@) is None,
        },
{
    match split_once(trim(text), ' ') {
        Some((w, h)) => match (
            parse_number(w, i32::MAX as u64),
            parse_number(h, i32::MAX as u64),
        ) {
            (Ok(width), Ok(height)) => Some((width as i32, height as i32)),
            _ => None,
        },
        None => None,
    }
}

/// The size of a window that is remembered is read back as it was.
pub proof fn law_size_reads_back(width: nat, height: nat)
    requires
        width <= i32::MAX,
        height <= i32::MAX,
    ensures
        size_in(size_text(width, height)) == Some((width, height)),
{
    reveal_strlit(" ");
    reveal_strlit("\n");
    lemma_decimal_value(width, i32::MAX as nat);
    lemma_decimal_value(height, i32::MAX as nat);
    let (w, h) = (decimal(width), decimal(height));
    let body = w + " "@ + h;
    let text = size_text(width, height);
    assert(text.drop_last() =~= body);
    assert(text[0] == w[0]);
    assert(body.last() == h.last());
    assert(trimmed_start(text) == text);
    assert(trimmed_end(text) == trimmed_end(body));
    assert(trimmed_end(body) == body);
    let at = w.len() as int;
    assert(body[at] == ' ');
    assert forall|k: int| 0 <= k < at implies body[k] != ' ' by {
        assert(body[k] == w[k]);
    }
    lemma_first_at_is(body, ' ', at);
    assert(body.take(at) =~= w);
    assert(body.skip(at + 1) =~= h);
}

/// The row of the active profile is active, and no row before it is; there is none
/// exactly where no row is active.
pub proof fn law_active_row(rows: Seq<ProfileListRow>, i: int)
    requires
        0 <= i <= rows.len(),
    ensures
        match active_row(rows, i) {
            Some(row) => exists|k: int|
                i <= k < rows.len() && #[trigger] rows[k] == row && row.is_active && forall|j: int|
                    i <= j < k ==> !(#[trigger] rows[j]).is_active,
            None => forall|j: int| i <= j < rows.len() ==> !(#[trigger] rows[j]).is_active,
        },
    decreases rows.len() - i,
{
    if i < rows.len() {
        if rows[i].is_active {
            assert(rows[i] == active_row(rows, i)->0);
        } else {
            law_active_row(rows, i + 1);
            if let Some(row) = active_row(rows, i + 1) {
                let k = choose|k: int|
                    i + 1 <= k < rows.len() && #[trigger] rows[k] == row && row.is_active
                        && forall|j: int| i + 1 <= j < k ==> !(#[trigger] rows[j]).is_active;
                assert(rows[k] == row);
            }
        }
    }
}

/// Each switch that is on counts once.
pub proof fn law_switches_on(switches: Seq<bool>)
    ensures
        count_on(switches.push(true)) == count_on(switches) + 1,
        count_on(switches.push(false)) == count_on(switches),
        count_on(Seq::empty()) == 0,
{
    assert(switches.push(true).drop_last() =~= switches);
    assert(switches.push(false).drop_last() =~= switches);
}

} // verus!
