//! What is known of a profile and of its live link, for display.

use vstd::prelude::*;
use vstd::string::*;

use crate::nm::network_info::{as_double, lemma_nearest, nearest, number_or_none, round_div, to_double};
use crate::text::{after_prefix, contains_char, cut, decimal, is_blank, is_space, joined, law_split_joined, law_trimming, lemma_decimal_value, lemma_first_at_is, lines, lines_of, opt_text, opt_view, parse_number, push_decimal, replace_char, same, split, split_on, split_once, split_whitespace, strip_prefix, trim, trimmed, with_char_replaced, words_of};

verus! {

/// What is shown of a profile.
#[derive(Debug, Clone, PartialEq, Eq)]
pub struct ProfileDiagnostics {
    pub interface_name: String,
    pub public_key: String,
    pub endpoint: String,
    pub allowed_ips: String,
    pub latest_handshake: String,
    pub transfer_rx: String,
    pub transfer_tx: String,
    pub keepalive: String,
}

/// What is shown of a profile, as texts.
#[verifier::ext_equal]
pub struct DiagnosticsView {
    pub interface_name: Seq<char>,
    pub public_key: Seq<char>,
    pub endpoint: Seq<char>,
    pub allowed_ips: Seq<char>,
    pub latest_handshake: Seq<char>,
    pub transfer_rx: Seq<char>,
    pub transfer_tx: Seq<char>,
    pub keepalive: Seq<char>,
}

impl View for ProfileDiagnostics {
    type V = DiagnosticsView;

    open spec fn view(&self) -> DiagnosticsView {
        DiagnosticsView {
            interface_name: self.interface_name@,
            public_key: self.public_key@,
            endpoint: self.endpoint@,
            allowed_ips: self.allowed_ips@,
            latest_handshake: self.latest_handshake@,
            transfer_rx: self.transfer_rx@,
            transfer_tx: self.transfer_tx@,
            keepalive: self.keepalive@,
        }
    }
}

impl Default for ProfileDiagnostics {
    fn default() -> (r: ProfileDiagnostics)
        ensures
            r@ == (DiagnosticsView {
                interface_name: Seq::empty(),
                public_key: Seq::empty(),
                endpoint: Seq::empty(),
                allowed_ips: Seq::empty(),
                latest_handshake: Seq::empty(),
                transfer_rx: Seq::empty(),
                transfer_tx: Seq::empty(),
                keepalive: Seq::empty(),
            }),
    {
        ProfileDiagnostics {
            interface_name: String::new(),
            public_key: String::new(),
            endpoint: String::new(),
            allowed_ips: String::new(),
            latest_handshake: String::new(),
            transfer_rx: String::new(),
            transfer_tx: String::new(),
            keepalive: String::new(),
        }
    }
}

/// The settings of a profile's peer, as far as they are set.
#[derive(Debug, PartialEq, Eq)]
pub struct PeerSettings {
    pub interface_name: Option<String>,
    pub public_key: Option<String>,
    pub endpoint: Option<String>,
    pub allowed_ips: Option<String>,
    pub keepalive: Option<String>,
}

/// The settings of a profile's peer, as texts.
#[verifier::ext_equal]
pub struct PeerView {
    pub interface_name: Option<Seq<char>>,
    pub public_key: Option<Seq<char>>,
    pub endpoint: Option<Seq<char>>,
    pub allowed_ips: Option<Seq<char>>,
    pub keepalive: Option<Seq<char>>,
}

impl View for PeerSettings {
    type V = PeerView;

    open spec fn view(&self) -> PeerView {
        PeerView {
            interface_name: opt_text(self.interface_name),
            public_key: opt_text(self.public_key),
            endpoint: opt_text(self.endpoint),
            allowed_ips: opt_text(self.allowed_ips),
            keepalive: opt_text(self.keepalive),
        }
    }
}

/// Settings of which nothing is set.
pub open spec fn unset() -> PeerView {
    PeerView {
        interface_name: None,
        public_key: None,
        endpoint: None,
        allowed_ips: None,
        keepalive: None,
    }
}

impl Default for PeerSettings {
    fn default() -> (r: PeerSettings)
        ensures
            r@ == unset(),
    {
        PeerSettings {
            interface_name: None,
            public_key: None,
            endpoint: None,
            allowed_ips: None,
            keepalive: None,
        }
    }
}

// ---------------------------------------------------------------------------
// The stored profile
// ---------------------------------------------------------------------------

/// The settings after one word of the description of a peer.
pub open spec fn after_word(v: PeerView, word: Seq<char>) -> PeerView {
    match after_prefix(word, "endpoint="@) {
        Some(endpoint) => PeerView { endpoint: Some(endpoint), ..v },
        None => match after_prefix(word, "allowed-ips="@) {
            Some(ips) => PeerView {
                allowed_ips: Some(with_char_replaced(ips, ';', ", "@)),
                ..v
            },
            None => match after_prefix(word, "persistent-keepalive="@) {
                Some(keepalive) => PeerView { keepalive: Some(keepalive), ..v },
                None => v,
            },
        },
    }
}

/// The settings after all words of the description of a peer.
pub open spec fn after_words(v: PeerView, words: Seq<Seq<char>>) -> PeerView
    decreases words.len(),
{
    if words.len() == 0 {
        v
    } else {
        after_word(after_words(v, words.drop_last()), words.last())
    }
}

/// The settings after the public key that the description of a peer starts with:
/// a first word that holds an equals sign is no key.
pub open spec fn after_key(v: PeerView, words: Seq<Seq<char>>) -> PeerView {
    if words.len() > 0 && !words[0].contains('=') {
        PeerView { public_key: Some(words[0]), ..v }
    } else {
        v
    }
}

/// The settings after one line of the output of `nmcli`; a value of `--` is unset.
pub open spec fn after_line(v: PeerView, line: Seq<char>) -> PeerView {
    match cut(line, ':') {
        Some((k, x)) => {
            let key = trimmed(k);
            let value = trimmed(x);
            if value == "--"@ || value.len() == 0 {
                v
            } else if key == "connection.interface-name"@ {
                PeerView { interface_name: Some(value), ..v }
            } else if key == "wireguard.peers"@ {
                after_words(after_key(v, words_of(value)), words_of(value))
            } else {
                v
            }
        },
        None => v,
    }
}

/// The settings that lines of the output of `nmcli` give.
pub open spec fn settings_in(rows: Seq<Seq<char>>) -> PeerView
    decreases rows.len(),
{
    if rows.len() == 0 {
        unset()
    } else {
        after_line(settings_in(rows.drop_last()), rows.last())
    }
}

/// Take one word of the description of a peer into the settings.
fn take_word(settings: &mut PeerSettings, word: &str)
    ensures
        final(settings)@ == after_word(old(settings)@, word@),
{
    match strip_prefix(word, "endpoint=") {
        Some(endpoint) => {
            settings.endpoint = Some(endpoint.to_owned());
        },
        None => match strip_prefix(word, "allowed-ips=") {
            Some(ips) => {
                settings.allowed_ips = Some(replace_char(ips, ';', ", "));
            },
            None => match strip_prefix(word, "persistent-keepalive=") {
                Some(keepalive) => {
                    settings.keepalive = Some(keepalive.to_owned());
                },
                None => {},
            },
        },
    }
}

/// Take the description of a peer into the settings.
fn take_peer(settings: &mut PeerSettings, value: &str)
    ensures
        final(settings)@ == after_words(
            after_key(old(settings)@, words_of(value@)),
            words_of(value@),
        ),
{
    let words = split_whitespace(value);
    let ghost all = words.deep_view();
    let ghost start = after_key(settings@, all);
    if words.len() > 0 {
        assert(all[0] == words[0]@);
        if !contains_char(words[0], '=') {
            settings.public_key = Some(words[0].to_owned());
        }
    }
    let mut i: usize = 0;
    assert(all.take(0) =~= Seq::<Seq<char>>::empty());
    while i < words.len()
        invariant
            i <= words.len(),
            all == words.deep_view(),
            settings@ == after_words(start, all.take(i as int)),
        decreases words.len() - i,
    {
        proof {
            let next = all.take(i as int + 1);
            assert(next.drop_last() =~= all.take(i as int));
            assert(next.last() == words[i as int]@);
        }
        take_word(settings, words[i]);
        i += 1;
    }
    assert(all.take(i as int) =~= all);
}

/// The settings of a profile's peer, from the output of `nmcli`.
pub fn parse_peer_settings(output: &str) -> (r: PeerSettings)
    ensures
        r@ == settings_in(lines_of(output@)),
{
    let rows = lines(output);
    let ghost all = rows.deep_view();
    let mut settings = PeerSettings::default();
    let mut i: usize = 0;
    assert(all.take(0) =~= Seq::<Seq<char>>::empty());
    while i < rows.len()
        invariant
            i <= rows.len(),
            all == rows.deep_view(),
            settings@ == settings_in(all.take(i as int)),
        decreases rows.len() - i,
    {
        proof {
            let next = all.take(i as int + 1);
            assert(next.drop_last() =~= all.take(i as int));
            assert(next.last() == rows[i as int]@);
        }
        match split_once(rows[i], ':') {
            Some((k, x)) => {
                let key = trim(k);
                let value = trim(x);
                if !same(value, "--") && !value.is_empty() {
                    if same(key, "connection.interface-name") {
                        settings.interface_name = Some(value.to_owned());
                    } else if same(key, "wireguard.peers") {
                        take_peer(&mut settings, value);
                    }
                }
            },
            None => {},
        }
        i += 1;
    }
    assert(all.take(i as int) =~= all);
    settings
}

/// A setting, or a placeholder where it is not set.
pub open spec fn or_text(o: Option<Seq<char>>, placeholder: Seq<char>) -> Seq<char> {
    match o {
        Some(t) => t,
        None => placeholder,
    }
}

/// What is shown of the settings of a profile.
pub open spec fn shown(v: PeerView, interface_name: Seq<char>, is_active: bool) -> DiagnosticsView {
    DiagnosticsView {
        interface_name,
        public_key: or_text(v.public_key, "N/A"@),
        endpoint: or_text(v.endpoint, "N/A"@),
        allowed_ips: or_text(v.allowed_ips, "0.0.0.0/0, ::/0"@),
        latest_handshake: if is_active {
            "Active"@
        } else {
            "Inactive (Standby)"@
        },
        transfer_rx: "0 B"@,
        transfer_tx: "0 B"@,
        keepalive: or_text(v.keepalive, "N/A"@),
    }
}

/// A setting, or a placeholder where it is not set.
fn or_placeholder(value: &Option<String>, placeholder: &str) -> (r: String)
    ensures
        r@ == or_text(opt_text(*value), placeholder@),
{
    match value {
        Some(t) => t.clone(),
        None => placeholder.to_owned(),
    }
}

/// What is shown of the settings of a profile. Allowed addresses that are not set
/// mean a full tunnel.
pub fn settings_to_diagnostics(settings: &PeerSettings, interface_name: String, is_active: bool) -> (r:
    ProfileDiagnostics)
    ensures
        r@ == shown(settings@, interface_name@, is_active),
{
    let latest = if is_active { "Active" } else { "Inactive (Standby)" };
    ProfileDiagnostics {
        interface_name,
        public_key: or_placeholder(&settings.public_key, "N/A"),
        endpoint: or_placeholder(&settings.endpoint, "N/A"),
        allowed_ips: or_placeholder(&settings.allowed_ips, "0.0.0.0/0, ::/0"),
        latest_handshake: latest.to_owned(),
        transfer_rx: "0 B".to_owned(),
        transfer_tx: "0 B".to_owned(),
        keepalive: or_placeholder(&settings.keepalive, "N/A"),
    }
}

/// Whether a tunnel with these settings initiates its handshake on its own: it
/// has a peer to reach, and keeps the connection alive.
pub open spec fn initiates(v: PeerView) -> bool {
    v.endpoint is Some && v.keepalive is Some && v.keepalive->0 != "0"@ && v.keepalive->0
        != "off"@
}

impl PeerSettings {
    /// Whether a tunnel with these settings initiates its handshake on its own.
    pub fn initiates_handshake(&self) -> (r: bool)
        ensures
            r == initiates(self@),
    {
        match (&self.endpoint, &self.keepalive) {
            (Some(_), Some(k)) => !same(k.as_str(), "0") && !same(k.as_str(), "off"),
            _ => false,
        }
    }
}

// ---------------------------------------------------------------------------
// The live link
// ---------------------------------------------------------------------------

/// How long ago a handshake was, at time `now`.
pub open spec fn handshake_text(now: nat, timestamp: nat) -> Seq<char> {
    if now < timestamp {
        "Just now"@
    } else {
        let diff = (now - timestamp) as nat;
        if diff < 60 {
            decimal(diff) + "s ago"@
        } else if diff < 3600 {
            decimal(diff / 60) + "m "@ + decimal(diff % 60) + "s ago"@
        } else {
            decimal(diff / 3600) + "h "@ + decimal(diff % 3600 / 60) + "m ago"@
        }
    }
}

/// How long ago a handshake was, at time `now`; both in seconds.
pub fn format_handshake_time(timestamp: u64, now: u64) -> (r: String)
    ensures
        r@ == handshake_text(now as nat, timestamp as nat),
{
    if now < timestamp {
        return "Just now".to_owned();
    }
    let diff = now - timestamp;
    let mut r = String::new();
    if diff < 60 {
        push_decimal(&mut r, diff as u128);
        r.append("s ago");
    } else if diff < 3600 {
        push_decimal(&mut r, (diff / 60) as u128);
        r.append("m ");
        push_decimal(&mut r, (diff % 60) as u128);
        r.append("s ago");
    } else {
        push_decimal(&mut r, (diff / 3600) as u128);
        r.append("h ");
        push_decimal(&mut r, (diff % 3600 / 60) as u128);
        r.append("m ago");
    }
    assert(r@ =~= handshake_text(now as nat, timestamp as nat));
    r
}

/// `n / d` with two digits after the point.
pub open spec fn two_decimals(n: nat, d: nat) -> Seq<char> {
    let hundredths = nearest(n * 100, d);
    decimal(hundredths / 100) + "."@ + decimal(hundredths / 10 % 10) + decimal(hundredths % 10)
}

/// An amount of bytes, as it is shown.
pub open spec fn bytes_text(n: nat) -> Seq<char> {
    if n >= 0x4000_0000 {
        two_decimals(as_double(n), 0x4000_0000) + " GiB"@
    } else if n >= 0x10_0000 {
        two_decimals(n, 0x10_0000) + " MiB"@
    } else if n >= 0x400 {
        two_decimals(n, 0x400) + " KiB"@
    } else {
        decimal(n) + " B"@
    }
}

/// Append `n / d` with two digits after the point.
fn push_two_decimals(out: &mut String, n: u128, d: u128)
    requires
        0 < d <= 0x1_0000_0000_0000_0000,
        n <= 0x1_0000_0000_0000_0000,
    ensures
        final(out)@ == old(out)@ + two_decimals(n as nat, d as nat),
{
    let ghost before = out@;
    let hundredths = round_div(n * 100, d);
    push_decimal(out, hundredths / 100);
    out.append(".");
    push_decimal(out, hundredths / 10 % 10);
    push_decimal(out, hundredths % 10);
    assert(out@ =~= before + two_decimals(n as nat, d as nat));
}

/// An amount of bytes, as it is shown.
pub fn format_bytes(bytes: u64) -> (r: String)
    ensures
        r@ == bytes_text(bytes as nat),
{
    let mut r = String::new();
    if bytes >= 0x4000_0000 {
        let value = to_double(bytes);
        push_two_decimals(&mut r, value, 0x4000_0000);
        r.append(" GiB");
    } else if bytes >= 0x10_0000 {
        push_two_decimals(&mut r, bytes as u128, 0x10_0000);
        r.append(" MiB");
    } else if bytes >= 0x400 {
        push_two_decimals(&mut r, bytes as u128, 0x400);
        r.append(" KiB");
    } else {
        push_decimal(&mut r, bytes as u128);
        r.append(" B");
    }
    assert(r@ =~= bytes_text(bytes as nat));
    r
}

/// The value of a column, unless it is empty or `(none)`.
pub open spec fn present(columns: Seq<Seq<char>>, i: int) -> Option<Seq<char>> {
    if i < columns.len() && columns[i].len() > 0 && columns[i] != "(none)"@ {
        Some(columns[i])
    } else {
        None
    }
}

/// The number in a column, where there is one.
pub open spec fn present_number(columns: Seq<Seq<char>>, i: int) -> Option<nat> {
    match present(columns, i) {
        Some(t) => number_or_none(t),
        None => None,
    }
}

/// What is shown after the line of the interface was taken in: a key that is
/// missing there leaves what the stored profile gave.
pub open spec fn after_interface(v: DiagnosticsView, line: Seq<char>) -> DiagnosticsView {
    DiagnosticsView { public_key: or_text(present(split_on(line, '\t'), 1), v.public_key), ..v }
}

/// What is shown after the line of the first peer was taken in: values that are
/// missing there leave what the stored profile gave.
pub open spec fn after_peer(v: DiagnosticsView, line: Seq<char>, now: nat) -> DiagnosticsView {
    let columns = split_on(line, '\t');
    if columns.len() < 8 {
        v
    } else {
        DiagnosticsView {
            interface_name: v.interface_name,
            public_key: v.public_key,
            endpoint: or_text(present(columns, 2), v.endpoint),
            allowed_ips: or_text(present(columns, 3), v.allowed_ips),
            latest_handshake: match present_number(columns, 4) {
                Some(t) => if t > 0 {
                    handshake_text(now, t)
                } else {
                    v.latest_handshake
                },
                None => v.latest_handshake,
            },
            transfer_rx: match present_number(columns, 5) {
                Some(n) => bytes_text(n),
                None => v.transfer_rx,
            },
            transfer_tx: match present_number(columns, 6) {
                Some(n) => bytes_text(n),
                None => v.transfer_tx,
            },
            keepalive: match present(columns, 7) {
                Some(k) => if k != "off"@ {
                    k
                } else {
                    v.keepalive
                },
                None => v.keepalive,
            },
        }
    }
}

/// What is shown after the dump of `wg show` was taken in.
pub open spec fn overlaid(v: DiagnosticsView, dump: Seq<char>, now: nat) -> DiagnosticsView {
    let rows = lines_of(dump);
    if rows.len() == 0 {
        v
    } else if rows.len() == 1 {
        after_interface(v, rows[0])
    } else {
        after_peer(after_interface(v, rows[0]), rows[1], now)
    }
}

/// The value of a column, unless it is empty or `(none)`.
fn column<'a>(columns: &Vec<&'a str>, i: usize) -> (r: Option<&'a str>)
    ensures
        opt_view(r) == present(columns.deep_view(), i as int),
{
    if i < columns.len() {
        assert(columns.deep_view()[i as int] == columns[i as int]@);
        if !columns[i].is_empty() && !same(columns[i], "(none)") {
            return Some(columns[i]);
        }
    }
    None
}

/// The number in a column, where there is one.
fn column_number(columns: &Vec<&str>, i: usize) -> (r: Option<u64>)
    ensures
        (match r {
            Some(n) => Some(n as nat),
            None => None,
        }) == present_number(columns.deep_view(), i as int),
{
    match column(columns, i) {
        Some(t) => match parse_number(t, u64::MAX) {
            Ok(n) => Some(n),
            Err(_) => None,
        },
        None => None,
    }
}

/// Take the dump of `wg show` into what is shown, at time `now` in seconds.
pub fn overlay_wg_dump(diagnostics: &mut ProfileDiagnostics, dump: &str, now: u64)
    ensures
        final(diagnostics)@ == overlaid(old(diagnostics)@, dump@, now as nat),
{
    let rows = lines(dump);
    if rows.len() == 0 {
        return ;
    }
    assert(rows.deep_view()[0] == rows[0]@);
    let first = split(rows[0], '\t');
    if let Some(public_key) = column(&first, 1) {
        diagnostics.public_key = public_key.to_owned();
    }
    if rows.len() < 2 {
        return ;
    }
    assert(rows.deep_view()[1] == rows[1]@);
    let columns = split(rows[1], '\t');
    if columns.len() < 8 {
        return ;
    }
    if let Some(endpoint) = column(&columns, 2) {
        diagnostics.endpoint = endpoint.to_owned();
    }
    if let Some(allowed_ips) = column(&columns, 3) {
        diagnostics.allowed_ips = allowed_ips.to_owned();
    }
    if let Some(timestamp) = column_number(&columns, 4) {
        if timestamp > 0 {
            diagnostics.latest_handshake = format_handshake_time(timestamp, now);
        }
    }
    if let Some(rx) = column_number(&columns, 5) {
        diagnostics.transfer_rx = format_bytes(rx);
    }
    if let Some(tx) = column_number(&columns, 6) {
        diagnostics.transfer_tx = format_bytes(tx);
    }
    if let Some(keepalive) = column(&columns, 7) {
        if !same(keepalive, "off") {
            diagnostics.keepalive = keepalive.to_owned();
        }
    }
}

/// What is shown once the counters of the interface are taken in: counters that
/// are both zero change nothing.
pub open spec fn counted_in(v: DiagnosticsView, rx: nat, tx: nat) -> DiagnosticsView {
    if rx > 0 || tx > 0 {
        DiagnosticsView { transfer_rx: bytes_text(rx), transfer_tx: bytes_text(tx), ..v }
    } else {
        v
    }
}

/// Take the counters of the interface into what is shown, where `wg show` is not
/// available.
pub fn overlay_counters(diagnostics: &mut ProfileDiagnostics, rx: u64, tx: u64)
    ensures
        final(diagnostics)@ == counted_in(old(diagnostics)@, rx as nat, tx as nat),
{
    if rx > 0 || tx > 0 {
        diagnostics.transfer_rx = format_bytes(rx);
        diagnostics.transfer_tx = format_bytes(tx);
    }
}

/// What is shown of a peer comes from the columns of its row, which stand apart by
/// tabs: the endpoint, the allowed addresses, the time of the last handshake, what
/// was received, what was sent, and the keepalive.
pub proof fn law_peer_row(
    v: DiagnosticsView,
    columns: Seq<Seq<char>>,
    handshake: nat,
    received: nat,
    sent: nat,
    now: nat,
)
    requires
        columns.len() == 8,
        forall|i: int|
            0 <= i < 8 ==> !(#[trigger] columns[i]).contains('\t') && columns[i].len() > 0
                && columns[i] != "(none)"@,
        columns[4] == decimal(handshake),
        columns[5] == decimal(received),
        columns[6] == decimal(sent),
        0 < handshake <= u64::MAX,
        received <= u64::MAX,
        sent <= u64::MAX,
        columns[7] != "off"@,
    ensures
        after_peer(v, joined(columns, seq!['\t']), now) == (DiagnosticsView {
            interface_name: v.interface_name,
            public_key: v.public_key,
            endpoint: columns[2],
            allowed_ips: columns[3],
            latest_handshake: handshake_text(now, handshake),
            transfer_rx: bytes_text(received),
            transfer_tx: bytes_text(sent),
            keepalive: columns[7],
        }),
{
    law_split_joined(columns, '\t');
    lemma_decimal_value(handshake, u64::MAX as nat);
    lemma_decimal_value(received, u64::MAX as nat);
    lemma_decimal_value(sent, u64::MAX as nat);
}

/// The age of a handshake is told in seconds below a minute, in minutes and seconds
/// below an hour, and in hours and whole minutes above; the parts make up the time
/// that passed.
pub proof fn law_handshake_age(timestamp: nat, hours: nat, minutes: nat, seconds: nat)
    requires
        minutes < 60,
        seconds < 60,
    ensures
        ({
            let now = timestamp + hours * 3600 + minutes * 60 + seconds;
            handshake_text(now, timestamp) == (if hours > 0 {
                decimal(hours) + "h "@ + decimal(minutes) + "m ago"@
            } else if minutes > 0 {
                decimal(minutes) + "m "@ + decimal(seconds) + "s ago"@
            } else {
                decimal(seconds) + "s ago"@
            })
        }),
        forall|now: nat| now < timestamp ==> #[trigger] handshake_text(now, timestamp)
            == "Just now"@,
{
    let diff = hours * 3600 + minutes * 60 + seconds;
    assert(diff / 3600 == hours && diff % 3600 == minutes * 60 + seconds) by (nonlinear_arith)
        requires
            diff == hours * 3600 + minutes * 60 + seconds,
            minutes < 60,
            seconds < 60,
    ;
}

/// Whether a text shows a number of hundredths.
pub open spec fn shows_hundredths(text: Seq<char>, hundredths: nat) -> bool {
    text == decimal(hundredths / 100) + seq!['.'] + decimal(hundredths / 10 % 10) + decimal(
        hundredths % 10,
    )
}

/// A size below a gibibyte is shown in the largest unit of 1024 that it reaches,
/// rounded to the nearest hundredth; one below a kibibyte as it is.
pub proof fn law_sizes(n: nat)
    ensures
        n < 1024 ==> bytes_text(n) == decimal(n) + " B"@,
        1024 <= n < 1024 * 1024 ==> exists|text: Seq<char>, hundredths: nat| #[trigger]
            shows_hundredths(text, hundredths) && bytes_text(n) == text + " KiB"@ && 2 * hundredths
                * 1024 <= 2 * 100 * n + 1024 && 2 * 100 * n <= 2 * hundredths * 1024 + 1024,
        1024 * 1024 <= n < 1024 * 1024 * 1024 ==> exists|text: Seq<char>, hundredths: nat| #[trigger]
            shows_hundredths(text, hundredths) && bytes_text(n) == text + " MiB"@ && 2 * hundredths
                * 0x10_0000 <= 2 * 100 * n + 0x10_0000 && 2 * 100 * n <= 2 * hundredths * 0x10_0000
                + 0x10_0000,
        n >= 1024 * 1024 * 1024 ==> crate::text::has_suffix(bytes_text(n), " GiB"@),
{
    reveal_strlit(".");
    assert("."@ =~= seq!['.']);
    if 1024 <= n < 1024 * 1024 {
        lemma_nearest(n * 100, 1024);
        let h = nearest(n * 100, 1024);
        assert(shows_hundredths(two_decimals(n, 1024), h));
        assert(bytes_text(n) == two_decimals(n, 1024) + " KiB"@);
        let (m, d): (nat, nat) = (n * 100, 1024);
        assert(2 * h * 1024 <= 2 * 100 * n + 1024 && 2 * 100 * n <= 2 * h * 1024 + 1024)
            by (nonlinear_arith)
            requires
                2 * h * d <= 2 * m + d,
                2 * m <= 2 * h * d + d,
                m == n * 100,
                d == 1024,
        ;
    } else if 1024 * 1024 <= n < 1024 * 1024 * 1024 {
        lemma_nearest(n * 100, 0x10_0000);
        let h = nearest(n * 100, 0x10_0000);
        assert(shows_hundredths(two_decimals(n, 0x10_0000), h));
        assert(bytes_text(n) == two_decimals(n, 0x10_0000) + " MiB"@);
        let (m, d): (nat, nat) = (n * 100, 0x10_0000);
        assert(2 * h * 0x10_0000 <= 2 * 100 * n + 0x10_0000 && 2 * 100 * n <= 2 * h * 0x10_0000 + 0x10_0000)
            by (nonlinear_arith)
            requires
                2 * h * d <= 2 * m + d,
                2 * m <= 2 * h * d + d,
                m == n * 100,
                d == 0x10_0000,
        ;
    } else if n >= 1024 * 1024 * 1024 {
        let text = two_decimals(as_double(n), 0x4000_0000);
        assert(bytes_text(n).skip(text.len() as int) =~= " GiB"@);
    }
}

/// A tunnel initiates its handshake on its own where its peer has an endpoint and a
/// keepalive that is neither zero nor off: these are words of the description of
/// the peer.
pub proof fn law_initiating(
    key: Seq<char>,
    endpoint: Seq<char>,
    keepalive: Seq<char>,
    v: PeerView,
)
    ensures
        ({
            let words = seq![key, "endpoint="@ + endpoint, "persistent-keepalive="@ + keepalive];
            initiates(after_words(v, words)) <==> keepalive != "0"@ && keepalive != "off"@
        }),
        v.endpoint is None || v.keepalive is None ==> !initiates(v),
{
    let words = seq![key, "endpoint="@ + endpoint, "persistent-keepalive="@ + keepalive];
    let two = words.drop_last();
    let one = two.drop_last();
    reveal_with_fuel(after_words, 4);
    reveal_strlit("endpoint=");
    reveal_strlit("allowed-ips=");
    reveal_strlit("persistent-keepalive=");
    let e = "endpoint="@ + endpoint;
    let k = "persistent-keepalive="@ + keepalive;
    assert(two.last() == e && words.last() == k);
    assert(e.take(9) =~= "endpoint="@);
    assert(e.skip(9) =~= endpoint);
    assert(k.take(21) =~= "persistent-keepalive="@);
    assert(k.skip(21) =~= keepalive);
    assert(k.take(9)[0] != "endpoint="@[0]);
    assert(k.take(12)[0] != "allowed-ips="@[0]);
}

/// What a line of a description sets: the interface, where its key says so and it has
/// a value, and nothing of the peer; a line of another key sets nothing.
pub proof fn law_setting_lines(
    v: PeerView,
    key: Seq<char>,
    before: Seq<char>,
    value: Seq<char>,
    after: Seq<char>,
)
    requires
        !key.contains(':'),
        key.len() > 0,
        !is_space(key[0]) && !is_space(key.last()),
        is_blank(before),
        is_blank(after),
        value.len() > 0,
        !is_space(value[0]) && !is_space(value.last()),
        value != "--"@,
    ensures
        ({
            let line = key + seq![':'] + (before + value + after);
            &&& key == "connection.interface-name"@ ==> after_line(v, line) == (PeerView {
                interface_name: Some(value),
                ..v
            })
            &&& key == "wireguard.peers"@ ==> after_line(v, line) == after_words(
                after_key(v, words_of(value)),
                words_of(value),
            )
            &&& key != "connection.interface-name"@ && key != "wireguard.peers"@ ==> after_line(
                v,
                line,
            ) == v
        }),
{
    let line = key + seq![':'] + (before + value + after);
    let n = key.len() as int;
    assert forall|k: int| 0 <= k < n implies line[k] != ':' by {
        assert(line[k] == key[k]);
        assert(key.contains(key[k]));
    }
    lemma_first_at_is(line, ':', n);
    assert(line.take(n) =~= key);
    assert(line.skip(n + 1) =~= before + value + after);
    law_trimming(before, value, after);
    crate::text::lemma_trimmed_plain(key);
    reveal_strlit("connection.interface-name");
    reveal_strlit("wireguard.peers");
    assert("connection.interface-name"@.len() == 25 && "wireguard.peers"@.len() == 15);
}

/// The row of the interface tells its public key, in its second column.
pub proof fn law_interface_row(v: DiagnosticsView, columns: Seq<Seq<char>>)
    requires
        columns.len() >= 2,
        forall|i: int| 0 <= i < columns.len() ==> !(#[trigger] columns[i]).contains('\t'),
        columns[1].len() > 0,
        columns[1] != "(none)"@,
    ensures
        after_interface(v, joined(columns, seq!['\t'])) == (DiagnosticsView {
            public_key: columns[1],
            ..v
        }),
{
    law_split_joined(columns, '\t');
}

/// The counters of an interface stand in for what `wg` tells: what was received, and
/// what was sent, where there was anything.
pub proof fn law_counters_stand_in(v: DiagnosticsView, received: nat, sent: nat)
    ensures
        received > 0 || sent > 0 ==> counted_in(v, received, sent) == (DiagnosticsView {
            transfer_rx: bytes_text(received),
            transfer_tx: bytes_text(sent),
            ..v
        }),
        received == 0 && sent == 0 ==> counted_in(v, received, sent) == v,
{
}

/// What is known of a profile is shown as it stands. Before the live link is looked
/// at, nothing counts as transferred, and whether the profile is up is all that is
/// said of a handshake.
pub proof fn law_settings_are_shown(v: PeerView, interface_name: Seq<char>, is_active: bool)
    ensures
        ({
            let s = shown(v, interface_name, is_active);
            &&& s.interface_name == interface_name
            &&& v.public_key matches Some(t) ==> s.public_key == t
            &&& v.endpoint matches Some(t) ==> s.endpoint == t
            &&& v.allowed_ips matches Some(t) ==> s.allowed_ips == t
            &&& v.keepalive matches Some(t) ==> s.keepalive == t
            &&& v.public_key is None ==> s.public_key == "N/A"@
            &&& v.endpoint is None ==> s.endpoint == "N/A"@
            &&& v.allowed_ips is None ==> s.allowed_ips == "0.0.0.0/0, ::/0"@
            &&& v.keepalive is None ==> s.keepalive == "N/A"@
            &&& s.transfer_rx == "0 B"@ && s.transfer_tx == "0 B"@
            &&& s.latest_handshake == "Active"@ <==> is_active
            &&& s.latest_handshake == "Inactive (Standby)"@ <==> !is_active
        }),
{
    reveal_strlit("Active");
    reveal_strlit("Inactive (Standby)");
    assert("Active"@.len() != "Inactive (Standby)"@.len());
}

/// Of a dump the first row tells of the interface and the second of the peer; further
/// rows change nothing.
pub proof fn law_dump_rows(v: DiagnosticsView, dump: Seq<char>, now: nat)
    ensures
        lines_of(dump).len() == 0 ==> overlaid(v, dump, now) == v,
        lines_of(dump).len() == 1 ==> overlaid(v, dump, now) == after_interface(v, lines_of(dump)[0]),
        lines_of(dump).len() >= 2 ==> overlaid(v, dump, now) == after_peer(
            after_interface(v, lines_of(dump)[0]),
            lines_of(dump)[1],
            now,
        ),
{
}

} // verus!
