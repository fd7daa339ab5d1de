//! The public address, transfer rates and latency.

use vstd::prelude::*;
use vstd::string::*;

use crate::text::{cut, decimal, from_utf8_lossy, has_prefix, is_word, joined, lemma_decimal_value, lemma_words_of_joined, lines, lines_of, lossy_text, number_value, opt_text, parse_number, push_decimal, same, split_once, split_whitespace, starts_with, trim, trimmed, trimmed_end_part, words_of};

verus! {

// ---------------------------------------------------------------------------
// The public address
// ---------------------------------------------------------------------------

/// What is known of the public address.
#[derive(Debug, Clone, PartialEq, Eq)]
pub struct PublicIpInfo {
    pub ip: String,
    pub country: Option<String>,
    pub city: Option<String>,
    pub isp: Option<String>,
}

/// What is known of the public address, as texts.
#[verifier::ext_equal]
pub struct PublicIpView {
    pub ip: Seq<char>,
    pub country: Option<Seq<char>>,
    pub city: Option<Seq<char>>,
    pub isp: Option<Seq<char>>,
}

impl View for PublicIpInfo {
    type V = PublicIpView;

    open spec fn view(&self) -> PublicIpView {
        PublicIpView {
            ip: self.ip@,
            country: opt_text(self.country),
            city: opt_text(self.city),
            isp: opt_text(self.isp),
        }
    }
}

impl Default for PublicIpInfo {
    fn default() -> (r: PublicIpInfo)
        ensures
            r@ == (PublicIpView { ip: Seq::empty(), country: None, city: None, isp: None }),
    {
        PublicIpInfo { ip: String::new(), country: None, city: None, isp: None }
    }
}

impl PublicIpView {
    /// The city and the country, as far as they are known.
    pub open spec fn location(self) -> Seq<char> {
        match (self.city, self.country) {
            (Some(city), Some(country)) => city + ", "@ + country,
            (Some(city), None) => city,
            (None, Some(country)) => country,
            (None, None) => Seq::empty(),
        }
    }

    /// One line that tells what is known.
    pub open spec fn line(self) -> Seq<char> {
        match (self.location().len() == 0, self.isp) {
            (false, Some(isp)) => self.ip + " ("@ + self.location() + " — "@ + isp + ")"@,
            (false, None) => self.ip + " ("@ + self.location() + ")"@,
            (true, Some(isp)) => self.ip + " ("@ + isp + ")"@,
            (true, None) => self.ip,
        }
    }
}

impl PublicIpInfo {
    /// One line that tells the address, the location and the provider.
    pub fn format_display(&self) -> (r: String)
        ensures
            r@ == self@.line(),
    {
        let location = match (&self.city, &self.country) {
            (Some(city), Some(country)) => city.clone().concat(", ").concat(country.as_str()),
            (Some(city), None) => city.clone(),
            (None, Some(country)) => country.clone(),
            (None, None) => String::new(),
        };
        match (location.as_str().is_empty(), &self.isp) {
            (false, Some(isp)) => self.ip.clone().concat(" (").concat(location.as_str()).concat(
                " — ",
            ).concat(isp.as_str()).concat(")"),
            (false, None) => self.ip.clone().concat(" (").concat(location.as_str()).concat(")"),
            (true, Some(isp)) => self.ip.clone().concat(" (").concat(isp.as_str()).concat(")"),
            (true, None) => self.ip.clone(),
        }
    }
}

/// The text that a JSON document, given as bytes, holds under `key` of its
/// top-level object.
pub uninterp spec fn json_text(body: Seq<u8>, key: Seq<char>) -> Option<Seq<char>>;

/// Calls `serde_json::from_slice`, then `Value::get` and `Value::as_str`. The
/// result is named: the string under `key`, or nothing where the bytes are no
/// JSON, are no object, or hold no string there.
#[verifier::external_body]
fn json_field(body: &[u8], key: &str) -> (r: Option<String>)
    ensures
        opt_text(r) == json_text(body@, key@),
{
    let value: serde_json::Value = serde_json::from_slice(body).ok()?;
    value.get(key).and_then(|field| field.as_str()).map(String::from)
}

/// A text where there is one and it is not empty.
pub open spec fn filled(o: Option<Seq<char>>) -> Option<Seq<char>> {
    match o {
        Some(t) => if t.len() > 0 {
            Some(t)
        } else {
            None
        },
        None => None,
    }
}

/// The string under `key`, where it is present and not empty.
pub fn json_str(body: &[u8], key: &str) -> (r: Option<String>)
    ensures
        opt_text(r) == filled(json_text(body@, key@)),
{
    match json_field(body, key) {
        Some(text) => if text.as_str().is_empty() {
            None
        } else {
            Some(text)
        },
        None => None,
    }
}

/// The services that tell the public address, in the order in which they are
/// asked: the one that reports most comes first.
#[derive(Debug, Clone, Copy, PartialEq, Eq, Structural)]
pub enum IpSource {
    IpApi,
    IfconfigCo,
    Icanhazip,
}

impl IpSource {
    /// The address of the service.
    pub fn url(self) -> (r: &'static str)
        ensures
            r@ == (match self {
                IpSource::IpApi => "http://ip-api.com/json/"@,
                IpSource::IfconfigCo => "https://ifconfig.co/json"@,
                IpSource::Icanhazip => "https://icanhazip.com"@,
            }),
    {
        match self {
            IpSource::IpApi => "http://ip-api.com/json/",
            IpSource::IfconfigCo => "https://ifconfig.co/json",
            IpSource::Icanhazip => "https://icanhazip.com",
        }
    }
}

/// What a reply of a JSON service tells, given the strings that it holds.
#[verifier::ext_equal]
pub struct IpFields {
    pub status: Option<Seq<char>>,
    pub query: Option<Seq<char>>,
    pub ip: Option<Seq<char>>,
    pub country: Option<Seq<char>>,
    pub city: Option<Seq<char>>,
    pub isp: Option<Seq<char>>,
}

/// What a reply of `source` tells of the public address, where the reply's
/// strings are `fields` and its trimmed text is `plain`.
pub open spec fn told(source: IpSource, fields: IpFields, plain: Seq<char>) -> Option<PublicIpView> {
    match source {
        IpSource::IpApi => if filled(fields.status) == Some("success"@) && filled(fields.query)
            is Some {
            Some(
                PublicIpView {
                    ip: fields.query->0,
                    country: filled(fields.country),
                    city: filled(fields.city),
                    isp: filled(fields.isp),
                },
            )
        } else {
            None
        },
        IpSource::IfconfigCo => if filled(fields.ip) is Some {
            Some(
                PublicIpView {
                    ip: fields.ip->0,
                    country: filled(fields.country),
                    city: filled(fields.city),
                    isp: None,
                },
            )
        } else {
            None
        },
        IpSource::Icanhazip => if plain.len() > 0 {
            Some(PublicIpView { ip: plain, country: None, city: None, isp: None })
        } else {
            None
        },
    }
}

/// The strings of a JSON reply.
pub open spec fn fields_of(body: Seq<u8>) -> IpFields {
    IpFields {
        status: json_text(body, "status"@),
        query: json_text(body, "query"@),
        ip: json_text(body, "ip"@),
        country: json_text(body, "country"@),
        city: json_text(body, "city"@),
        isp: json_text(body, "isp"@),
    }
}

/// The view of an optional description.
pub open spec fn opt_info(o: Option<PublicIpInfo>) -> Option<PublicIpView> {
    match o {
        Some(info) => Some(info@),
        None => None,
    }
}

/// What a reply of the first service tells, given the strings that it holds.
pub fn told_by_ip_api(
    status: Option<String>,
    query: Option<String>,
    country: Option<String>,
    city: Option<String>,
    isp: Option<String>,
) -> (r: Option<PublicIpInfo>)
    ensures
        opt_info(r) == (if opt_text(status) == Some("success"@) && query is Some {
            Some(
                PublicIpView {
                    ip: query->0@,
                    country: opt_text(country),
                    city: opt_text(city),
                    isp: opt_text(isp),
                },
            )
        } else {
            None
        }),
{
    let success = match &status {
        Some(text) => same(text.as_str(), "success"),
        None => false,
    };
    match query {
        Some(ip) => if success {
            Some(PublicIpInfo { ip, country, city, isp })
        } else {
            None
        },
        None => None,
    }
}

/// What a reply of `source` tells of the public address.
pub fn read_reply(source: IpSource, body: &[u8]) -> (r: Option<PublicIpInfo>)
    ensures
        opt_info(r) == told(source, fields_of(body@), trimmed(lossy_text(body@))),
{
    match source {
        IpSource::IpApi => told_by_ip_api(
            json_str(body, "status"),
            json_str(body, "query"),
            json_str(body, "country"),
            json_str(body, "city"),
            json_str(body, "isp"),
        ),
        IpSource::IfconfigCo => match json_str(body, "ip") {
            Some(ip) => Some(
                PublicIpInfo {
                    ip,
                    country: json_str(body, "country"),
                    city: json_str(body, "city"),
                    isp: None,
                },
            ),
            None => None,
        },
        IpSource::Icanhazip => {
            let text = from_utf8_lossy(body);
            let plain = trim(text.as_str());
            if plain.is_empty() {
                None
            } else {
                Some(PublicIpInfo { ip: plain.to_owned(), country: None, city: None, isp: None })
            }
        },
    }
}

/// What to do after a service was asked.
#[derive(Debug, Clone, PartialEq, Eq)]
pub enum LookupStep {
    /// The address is known.
    Found(PublicIpInfo),
    /// Ask the next service.
    Ask(IpSource),
    /// No service told the address.
    GiveUp,
}

/// The service that is asked after `source`.
pub open spec fn next_source(source: IpSource) -> Option<IpSource> {
    match source {
        IpSource::IpApi => Some(IpSource::IfconfigCo),
        IpSource::IfconfigCo => Some(IpSource::Icanhazip),
        IpSource::Icanhazip => None,
    }
}

/// What to do after `source` was asked and `told` is what its reply told: the
/// first service that tells an address decides.
pub fn lookup_step(source: IpSource, told: Option<PublicIpInfo>) -> (r: LookupStep)
    ensures
        r == (match told {
            Some(info) => LookupStep::Found(info),
            None => match next_source(source) {
                Some(next) => LookupStep::Ask(next),
                None => LookupStep::GiveUp,
            },
        }),
{
    match told {
        Some(info) => LookupStep::Found(info),
        None => match source {
            IpSource::IpApi => LookupStep::Ask(IpSource::IfconfigCo),
            IpSource::IfconfigCo => LookupStep::Ask(IpSource::Icanhazip),
            IpSource::Icanhazip => LookupStep::GiveUp,
        },
    }
}

// ---------------------------------------------------------------------------
// Interface statistics
// ---------------------------------------------------------------------------

/// The name and the counters of an interface row; other rows have no colon.
pub open spec fn row_of(line: Seq<char>) -> Option<(Seq<char>, Seq<char>)> {
    match cut(line, ':') {
        Some((name, stats)) => Some((trimmed(name), stats)),
        None => None,
    }
}

/// The counters of the first row of `name` at or after line `i`.
pub open spec fn stats_of(rows: Seq<Seq<char>>, name: Seq<char>, i: int) -> Option<Seq<char>>
    decreases rows.len() - i,
{
    if i < 0 || i >= rows.len() {
        None
    } else {
        match row_of(rows[i]) {
            Some((n, stats)) => if n == name {
                Some(stats)
            } else {
                stats_of(rows, name, i + 1)
            },
            None => stats_of(rows, name, i + 1),
        }
    }
}

/// A number, where a text is one.
pub open spec fn number_or_none(t: Seq<char>) -> Option<nat> {
    match number_value(t, u64::MAX as nat) {
        Ok(n) => Some(n),
        Err(_) => None,
    }
}

/// A number, or zero where a text is none.
pub open spec fn number_or_zero(t: Seq<char>) -> nat {
    match number_value(t, u64::MAX as nat) {
        Ok(n) => n,
        Err(_) => 0,
    }
}

/// The receive counter of `name` in interface statistics, whose first two lines
/// are headings.
pub open spec fn interface_receive_bytes_in(content: Seq<char>, name: Seq<char>) -> Option<nat> {
    match stats_of(lines_of(content), name, 2) {
        Some(stats) => if words_of(stats).len() > 0 {
            number_or_none(words_of(stats)[0])
        } else {
            None
        },
        None => None,
    }
}

/// The counters of the first row of `name`, after the headings.
fn find_stats<'a>(rows: &Vec<&'a str>, name: &str) -> (r: Option<&'a str>)
    ensures
        crate::text::opt_view(r) == stats_of(rows.deep_view(), name@, 2),
{
    let mut i: usize = 2;
    while i < rows.len()
        invariant
            2 <= i,
            stats_of(rows.deep_view(), name@, 2) == stats_of(rows.deep_view(), name@, i as int),
        decreases rows.len() - i,
    {
        assert(rows.deep_view()[i as int] == rows[i as int]@);
        match split_once(rows[i], ':') {
            Some((iface, stats)) => {
                if same(trim(iface), name) {
                    return Some(stats);
                }
            },
            None => {},
        }
        i += 1;
    }
    None
}

/// The receive counter of an interface, or nothing where there is no such
/// interface: an interface that is absent and one that received nothing differ.
pub fn parse_interface_receive_bytes(content: &str, iface_name: &str) -> (r: Option<u64>)
    ensures
        match r {
            Some(n) => interface_receive_bytes_in(content@, iface_name@) == Some(n as nat),
            None => interface_receive_bytes_in(content@, iface_name@) is None,
        },
{
    let rows = lines(content);
    match find_stats(&rows, iface_name) {
        Some(stats) => {
            let words = split_whitespace(stats);
            if words.len() == 0 {
                return None;
            }
            assert(words.deep_view()[0] == words[0]@);
            match parse_number(words[0], u64::MAX) {
                Ok(n) => Some(n),
                Err(_) => None,
            }
        },
        None => None,
    }
}

/// The receive and the transmit counter of a row.
pub open spec fn counters_of(stats: Seq<char>) -> Option<(nat, nat)> {
    let words = words_of(stats);
    if words.len() < 9 {
        None
    } else {
        Some((number_or_zero(words[0]), number_or_zero(words[8])))
    }
}

/// Whether a row counts towards the totals: the tunnels, or all but the loopback
/// interface.
pub open spec fn counted(name: Seq<char>, tunnels: bool) -> bool {
    if tunnels {
        has_prefix(name, "wg"@)
    } else {
        name != "lo"@
    }
}

/// The counters that one line adds to the totals.
pub open spec fn line_counters(line: Seq<char>, tunnels: bool) -> Option<(nat, nat)> {
    match row_of(line) {
        Some((name, stats)) => if counted(name, tunnels) {
            counters_of(stats)
        } else {
            None
        },
        None => None,
    }
}

/// The totals of lines, and whether any line counted.
pub open spec fn totals(rows: Seq<Seq<char>>, tunnels: bool) -> (nat, nat, bool)
    decreases rows.len(),
{
    if rows.len() == 0 {
        (0, 0, false)
    } else {
        let (rx, tx, any) = totals(rows.drop_last(), tunnels);
        match line_counters(rows.last(), tunnels) {
            Some((r, t)) => (rx + r, tx + t, true),
            None => (rx, tx, any),
        }
    }
}

/// A sum as a counter of 64 bits holds it.
pub open spec fn wrapped(n: nat) -> nat {
    n % 0x1_0000_0000_0000_0000
}

/// The receive and the transmit counter of one interface, or the totals over the
/// tunnels, or the totals over all interfaces but the loopback one where there is
/// no tunnel.
pub open spec fn interface_bytes_in(content: Seq<char>, name: Option<Seq<char>>) -> (nat, nat) {
    let all = lines_of(content);
    match name {
        Some(n) => match stats_of(all, n, 2) {
            Some(stats) => match counters_of(stats) {
                Some(c) => c,
                None => (0, 0),
            },
            None => (0, 0),
        },
        None => {
            let rows = if all.len() >= 2 {
                all.skip(2)
            } else {
                Seq::empty()
            };
            let (rx, tx, any) = totals(rows, true);
            if any {
                (wrapped(rx), wrapped(tx))
            } else {
                let (rx, tx, _) = totals(rows, false);
                (wrapped(rx), wrapped(tx))
            }
        },
    }
}

/// A number, or zero where a text is none.
fn number(t: &str) -> (r: u64)
    ensures
        r == number_or_zero(t@),
{
    match parse_number(t, u64::MAX) {
        Ok(n) => n,
        Err(_) => 0,
    }
}

/// The receive and the transmit counter of a row.
fn counters(stats: &str) -> (r: Option<(u64, u64)>)
    ensures
        match r {
            Some((rx, tx)) => counters_of(stats@) == Some((rx as nat, tx as nat)),
            None => counters_of(stats@) is None,
        },
{
    let words = split_whitespace(stats);
    if words.len() < 9 {
        return None;
    }
    assert(words.deep_view()[0] == words[0]@);
    assert(words.deep_view()[8] == words[8]@);
    Some((number(words[0]), number(words[8])))
}

/// One more addend of a wrapped sum.
proof fn lemma_wrapped_add(sum: nat, more: u64)
    ensures
        ({
            let s = wrapped(sum) as u64;
            vstd::wrapping::u64_specs::wrapping_add(s, more) == wrapped(sum + more as nat)
        }),
{
}

/// The totals of the lines after the headings, and whether any line counted.
fn sum_rows(rows: &Vec<&str>, tunnels: bool) -> (r: (u64, u64, bool))
    ensures
        ({
            let body = if rows.deep_view().len() >= 2 {
                rows.deep_view().skip(2)
            } else {
                Seq::empty()
            };
            let (rx, tx, any) = totals(body, tunnels);
            r.0 == wrapped(rx) && r.1 == wrapped(tx) && r.2 == any
        }),
{
    let ghost body = if rows.deep_view().len() >= 2 {
        rows.deep_view().skip(2)
    } else {
        Seq::empty()
    };
    assert(rows.deep_view().len() == rows@.len());
    let mut rx: u64 = 0;
    let mut tx: u64 = 0;
    let mut any = false;
    let mut i: usize = 2;
    while i < rows.len()
        invariant
            2 <= i,
            rows.len() >= 2 ==> i <= rows.len() && body == rows.deep_view().skip(2),
            rows.len() < 2 ==> i == 2 && body.len() == 0,
            ({
                let (r, t, a) = totals(body.take(i - 2), tunnels);
                rx == wrapped(r) && tx == wrapped(t) && any == a
            }),
        decreases rows.len() - i,
    {
        let ghost sofar = totals(body.take(i - 2), tunnels);
        proof {
            assert(body.take(i - 1).drop_last() =~= body.take(i - 2));
            assert(body.take(i - 1).last() == rows[i as int]@);
        }
        match split_once(rows[i], ':') {
            Some((iface, stats)) => {
                let name = trim(iface);
                let count = if tunnels { starts_with(name, "wg") } else { !same(name, "lo") };
                if count {
                    match counters(stats) {
                        Some((r, t)) => {
                            proof {
                                lemma_wrapped_add(sofar.0, r);
                                lemma_wrapped_add(sofar.1, t);
                            }
                            rx = rx.wrapping_add(r);
                            tx = tx.wrapping_add(t);
                            any = true;
                        },
                        None => {},
                    }
                }
            },
            None => {},
        }
        i += 1;
    }
    proof {
        if rows@.len() >= 2 {
            assert(body.take(i - 2) =~= body);
        } else {
            assert(body.take(0) =~= body);
        }
    }
    (rx, tx, any)
}

/// The receive and the transmit counter of one interface, or the totals.
pub fn parse_interface_bytes(content: &str, iface_name: Option<&str>) -> (r: (u64, u64))
    ensures
        (r.0 as nat, r.1 as nat) == interface_bytes_in(content@, crate::text::opt_view(iface_name)),
{
    let rows = lines(content);
    match iface_name {
        Some(target) => match find_stats(&rows, target) {
            Some(stats) => match counters(stats) {
                Some(c) => c,
                None => (0, 0),
            },
            None => (0, 0),
        },
        None => {
            let (rx, tx, any) = sum_rows(&rows, true);
            if any {
                (rx, tx)
            } else {
                let (rx, tx, _) = sum_rows(&rows, false);
                (rx, tx)
            }
        },
    }
}

// ---------------------------------------------------------------------------
// Rates and latency
// ---------------------------------------------------------------------------

/// The integer nearest to `n / d`, the even one of two.
pub open spec fn nearest(n: nat, d: nat) -> nat {
    let q = n / d;
    let r = n % d;
    if 2 * r > d || (2 * r == d && q % 2 == 1) {
        q + 1
    } else {
        q
    }
}

/// The distance between neighbouring numbers of 53 significant bits around `n`.
pub open spec fn double_step(n: nat) -> nat
    decreases n,
{
    if n < 0x20_0000_0000_0000 {
        1
    } else {
        2 * double_step(n / 2)
    }
}

/// `n` rounded to 53 significant bits.
pub open spec fn as_double(n: nat) -> nat {
    nearest(n, double_step(n)) * double_step(n)
}

/// `n / d` with one digit after the point.
pub open spec fn one_decimal(n: nat, d: nat) -> Seq<char> {
    let tenths = nearest(n * 10, d);
    decimal(tenths / 10) + "."@ + decimal(tenths % 10)
}

/// A rate in bytes per second, as it is shown.
pub open spec fn speed_text(n: nat) -> Seq<char> {
    if n < 1024 {
        decimal(n) + " B/s"@
    } else if n < 1024 * 1024 {
        one_decimal(n, 1024) + " KB/s"@
    } else {
        one_decimal(as_double(n), 1024 * 1024) + " MB/s"@
    }
}

/// The integer nearest to `n / d`, the even one of two.
pub fn round_div(n: u128, d: u128) -> (r: u128)
    requires
        0 < d <= 0x1_0000_0000_0000_0000,
        n <= 0x1_0000_0000_0000_0000_0000_0000,
    ensures
        r == nearest(n as nat, d as nat),
        r <= n + 1,
{
    let q = n / d;
    let m = n % d;
    assert(q <= n) by (nonlinear_arith)
        requires
            q == n / d,
            d > 0,
    ;
    if 2 * m > d || (2 * m == d && q % 2 == 1) {
        q + 1
    } else {
        q
    }
}

/// The distance between neighbouring numbers of 53 significant bits around `n`.
fn step_of(n: u64) -> (r: u128)
    ensures
        r == double_step(n as nat),
        0 < r <= n + 1,
        r <= 2048,
        n < 0x20_0000_0000_0000 ==> r == 1,
        r == 1 || r * 0x10_0000_0000_0000 <= n,
    decreases n,
{
    proof {
        lemma_double_step_is(n as nat);
    }
    if n < 0x20_0000_0000_0000 {
        1
    } else {
        2 * step_of(n / 2)
    }
}

/// `n` rounded to 53 significant bits, the even one of two neighbours.
pub fn to_double(n: u64) -> (r: u128)
    ensures
        r == as_double(n as nat),
        r <= 0x1_0000_0000_0000_0000,
{
    let step = step_of(n);
    let q = round_div(n as u128, step);
    proof {
        lemma_double_bound(n as nat, step as nat);
    }
    q * step
}

/// A rounded number stays below the next power of two.
proof fn lemma_double_bound(n: nat, step: nat)
    requires
        n <= u64::MAX,
        step == double_step(n),
        0 < step <= 2048,
        step == 1 || step * 0x10_0000_0000_0000 <= n,
    ensures
        nearest(n, step) * step <= 0x1_0000_0000_0000_0000,
{
    lemma_double_step_is(n);
    let top: int = 0x1_0000_0000_0000_0000;
    let q = n / step;
    assert(n == step * q + n % step) by (nonlinear_arith)
        requires
            step > 0,
            q == n / step,
    ;
    let k = top / step as int;
    assert(q < k) by (nonlinear_arith)
        requires
            step * q <= n,
            n < top,
            top == step * k,
            step > 0,
    ;
    assert((q + 1) * step <= top) by (nonlinear_arith)
        requires
            q + 1 <= k,
            top == step * k,
            step > 0,
    ;
    assert(q * step <= (q + 1) * step) by (nonlinear_arith)
        requires
            step > 0,
    ;
}

/// The step is a power of two of at most 2048.
proof fn lemma_double_step_is(n: nat)
    requires
        n <= u64::MAX,
    ensures
        ({
            let s = double_step(n);
            s == 1 || s == 2 || s == 4 || s == 8 || s == 16 || s == 32 || s == 64 || s == 128 || s
                == 256 || s == 512 || s == 1024 || s == 2048
        }),
{
    reveal_with_fuel(double_step, 13);
}

/// Append `n / d` with one digit after the point.
fn push_one_decimal(out: &mut String, n: u128, d: u128)
    requires
        0 < d <= 0x1_0000_0000_0000_0000,
        n <= 0x1_0000_0000_0000_0000,
    ensures
        final(out)@ == old(out)@ + one_decimal(n as nat, d as nat),
{
    let ghost before = out@;
    let tenths = round_div(n * 10, d);
    push_decimal(out, tenths / 10);
    out.append(".");
    push_decimal(out, tenths % 10);
    assert(out@ =~= before + one_decimal(n as nat, d as nat));
}

/// A rate in bytes per second, as it is shown.
pub fn format_speed(bytes_per_sec: u64) -> (r: String)
    ensures
        r@ == speed_text(bytes_per_sec as nat),
{
    let mut r = String::new();
    if bytes_per_sec < 1024 {
        push_decimal(&mut r, bytes_per_sec as u128);
        r.append(" B/s");
    } else if bytes_per_sec < 1024 * 1024 {
        push_one_decimal(&mut r, bytes_per_sec as u128, 1024);
        r.append(" KB/s");
    } else {
        let value = to_double(bytes_per_sec);
        push_one_decimal(&mut r, value, 1024 * 1024);
        r.append(" MB/s");
    }
    assert(r@ =~= speed_text(bytes_per_sec as nat));
    r
}

/// The times that the output of `ping` gives, in order, without their unit.
pub open spec fn ping_times_in(words: Seq<Seq<char>>) -> Seq<Seq<char>>
    decreases words.len(),
{
    if words.len() == 0 {
        Seq::empty()
    } else {
        let before = ping_times_in(words.drop_last());
        match crate::text::after_prefix(words.last(), "time="@) {
            Some(time) => before.push(trimmed_end_part(time, "ms"@)),
            None => before,
        }
    }
}

/// The times that the output of `ping` gives, in order, without their unit.
pub fn ping_times(stdout: &str) -> (r: Vec<String>)
    ensures
        r.deep_view() == ping_times_in(words_of(stdout@)),
{
    let words = split_whitespace(stdout);
    let mut r: Vec<String> = Vec::new();
    let mut i: usize = 0;
    assert(r.deep_view() =~= Seq::<Seq<char>>::empty());
    while i < words.len()
        invariant
            i <= words.len(),
            r.deep_view() == ping_times_in(words.deep_view().take(i as int)),
        decreases words.len() - i,
    {
        proof {
            let next = words.deep_view().take(i as int + 1);
            assert(next.drop_last() =~= words.deep_view().take(i as int));
            assert(next.last() == words[i as int]@);
        }
        match crate::text::strip_prefix(words[i], "time=") {
            Some(time) => {
                let ghost before = r.deep_view();
                let value = crate::text::trim_end_part(time, "ms");
                r.push(value.to_owned());
                assert(r.deep_view() =~= before.push(value@));
            },
            None => {},
        }
        i += 1;
    }
    assert(words.deep_view().take(i as int) =~= words.deep_view());
    r
}

/// The nearest integer is at most half a step away.
pub proof fn lemma_nearest(n: nat, d: nat)
    requires
        d > 0,
    ensures
        2 * nearest(n, d) * d <= 2 * n + d,
        2 * n <= 2 * nearest(n, d) * d + d,
{
    let q = n / d;
    let r = n % d;
    assert(n == q * d + r && r < d) by (nonlinear_arith)
        requires
            q == n / d,
            r == n % d,
            d > 0,
    ;
    assert(2 * (q + 1) * d == 2 * (q * d) + 2 * d && 2 * q * d == 2 * (q * d)) by (nonlinear_arith);
}

/// The counters of an interface are the first and the ninth of its numbers: what it
/// received, and what it sent.
pub proof fn law_counters(words: Seq<Seq<char>>, received: nat, sent: nat)
    requires
        words.len() >= 9,
        forall|i: int| 0 <= i < words.len() ==> is_word(#[trigger] words[i]),
        words[0] == decimal(received),
        words[8] == decimal(sent),
        received <= u64::MAX,
        sent <= u64::MAX,
    ensures
        counters_of(joined(words, " "@)) == Some((received, sent)),
{
    lemma_words_of_joined(words);
    lemma_decimal_value(received, u64::MAX as nat);
    lemma_decimal_value(sent, u64::MAX as nat);
}

/// Whether a text shows a number of tenths.
pub open spec fn shows_tenths(text: Seq<char>, tenths: nat) -> bool {
    text == decimal(tenths / 10) + seq!['.'] + decimal(tenths % 10)
}

/// A rate below a kilobyte per second is told as it is, and below a megabyte in
/// kilobytes, to the nearest tenth.
pub proof fn law_rates(n: nat)
    ensures
        n < 1024 ==> speed_text(n) == decimal(n) + " B/s"@,
        1024 <= n < 1024 * 1024 ==> exists|text: Seq<char>, tenths: nat| #[trigger]
            shows_tenths(text, tenths) && speed_text(n) == text + " KB/s"@ && 2 * tenths * 1024 <= 2
                * 10 * n + 1024 && 2 * 10 * n <= 2 * tenths * 1024 + 1024,
        n >= 1024 * 1024 ==> crate::text::has_suffix(speed_text(n), " MB/s"@),
{
    reveal_strlit(".");
    assert("."@ =~= seq!['.']);
    if 1024 <= n < 1024 * 1024 {
        lemma_nearest(n * 10, 1024);
        let tenths = nearest(n * 10, 1024);
        let text = one_decimal(n, 1024);
        assert(shows_tenths(text, tenths));
        assert(speed_text(n) == text + " KB/s"@);
        let (m, d): (nat, nat) = (n * 10, 1024);
        assert(2 * tenths * 1024 <= 2 * 10 * n + 1024 && 2 * 10 * n <= 2 * tenths * 1024 + 1024)
            by (nonlinear_arith)
            requires
                2 * tenths * d <= 2 * m + d,
                2 * m <= 2 * tenths * d + d,
                m == n * 10,
                d == 1024,
        ;
    } else if n >= 1024 * 1024 {
        let text = one_decimal(as_double(n), 1024 * 1024);
        assert(speed_text(n).skip(text.len() as int) =~= " MB/s"@);
    }
}

/// The public address is the one that a source tells: `ip-api.com` where it tells
/// of a success, the next where it tells an address, and the last where it tells
/// anything at all. Each source has at most one that is asked after it, and all are
/// asked in turn.
pub proof fn law_public_address(fields: IpFields, plain: Seq<char>)
    ensures
        match told(IpSource::IpApi, fields, plain) {
            Some(info) => fields.status == Some("success"@) && fields.query == Some(info.ip)
                && info.ip.len() > 0,
            None => fields.status != Some("success"@) || fields.query is None
                || fields.query->0.len() == 0,
        },
        match told(IpSource::IfconfigCo, fields, plain) {
            Some(info) => fields.ip == Some(info.ip) && info.ip.len() > 0,
            None => fields.ip is None || fields.ip->0.len() == 0,
        },
        match told(IpSource::Icanhazip, fields, plain) {
            Some(info) => info.ip == plain && plain.len() > 0,
            None => plain.len() == 0,
        },
        next_source(IpSource::IpApi) == Some(IpSource::IfconfigCo),
        next_source(IpSource::IfconfigCo) == Some(IpSource::Icanhazip),
        next_source(IpSource::Icanhazip) is None,
{
    reveal_strlit("success");
    assert("success"@.len() == 7);
}

/// Whether the row of an interface tells counters.
pub open spec fn tells_counters(
    line: Seq<char>,
    name: Seq<char>,
    received: nat,
    sent: nat,
) -> bool {
    exists|stats: Seq<char>|
        row_of(line) == Some((name, stats)) && #[trigger] counters_of(stats) == Some(
            (received, sent),
        )
}

/// What all interfaces transferred counts the tunnels, which are those whose names
/// start with `wg`, or, without them, everything but the loopback: one more row adds
/// what it tells where it counts, and nothing where it does not.
pub proof fn law_totals(
    rows: Seq<Seq<char>>,
    line: Seq<char>,
    name: Seq<char>,
    received: nat,
    sent: nat,
    tunnels: bool,
)
    requires
        tells_counters(line, name, received, sent),
    ensures
        ({
            let counts = if tunnels {
                name.len() >= 2 && name[0] == 'w' && name[1] == 'g'
            } else {
                name != "lo"@
            };
            let before = totals(rows, tunnels);
            let after = totals(rows.push(line), tunnels);
            if counts {
                after == (before.0 + received, before.1 + sent, true)
            } else {
                after == before
            }
        }),
{
    let all = rows.push(line);
    assert(all.drop_last() =~= rows);
    assert(all.last() == line);
    reveal_strlit("wg");
    if name.len() >= 2 {
        assert(name.take(2) =~= seq![name[0], name[1]]);
        assert("wg"@ =~= seq!['w', 'g']);
        if name[0] == 'w' && name[1] == 'g' {
            assert(name.take(2) =~= "wg"@);
        } else if name.take(2) == "wg"@ {
            assert(name.take(2)[0] == name[0] && name.take(2)[1] == name[1]);
        }
    }
}

/// The row of an interface is what stands before and after the first colon.
pub proof fn law_interface_rows(
    before: Seq<char>,
    name: Seq<char>,
    after: Seq<char>,
    stats: Seq<char>,
)
    requires
        crate::text::is_blank(before),
        crate::text::is_blank(after),
        name.len() > 0,
        !crate::text::is_space(name[0]) && !crate::text::is_space(name.last()),
        !name.contains(':'),
    ensures
        row_of(before + name + after + seq![':'] + stats) == Some((name, stats)),
{
    let head = before + name + after;
    let line = head + seq![':'] + stats;
    crate::text::law_trimming(before, name, after);
    assert(!before.contains(':') && !after.contains(':'));
    crate::ip::lemma_concat_plain(before, name, ':');
    crate::ip::lemma_concat_plain(before + name, after, ':');
    let n = head.len() as int;
    assert forall|k: int| 0 <= k < n implies line[k] != ':' by {
        assert(line[k] == head[k]);
        assert(head.contains(head[k]));
    }
    crate::text::lemma_first_at_is(line, ':', n);
    assert(line.take(n) =~= head);
    assert(line.skip(n + 1) =~= stats);
}

/// The times that `ping` reports are those behind `time=`, without their unit and in
/// order; other words give none.
pub proof fn law_ping_times(words: Seq<Seq<char>>, word: Seq<char>, time: Seq<char>)
    requires
        time.len() > 0,
        time.last() != 's',
    ensures
        ping_times_in(words.push("time="@ + time + "ms"@)) == ping_times_in(words).push(time),
        ping_times_in(words.push("time="@ + time)) == ping_times_in(words).push(time),
        !has_prefix(word, "time="@) ==> ping_times_in(words.push(word)) == ping_times_in(words),
        ping_times_in(Seq::empty()) == Seq::<Seq<char>>::empty(),
{
    reveal_strlit("time=");
    reveal_strlit("ms");
    let (full, bare) = ("time="@ + time + "ms"@, "time="@ + time);
    assert(words.push(full).drop_last() =~= words);
    assert(words.push(bare).drop_last() =~= words);
    assert(words.push(word).drop_last() =~= words);
    assert(full.take(5) =~= "time="@);
    assert(bare.take(5) =~= "time="@);
    assert(full.skip(5) =~= time + "ms"@);
    assert(bare.skip(5) =~= time);
    let with = time + "ms"@;
    let n = with.len() as int;
    assert(with.skip(n - 2) =~= "ms"@);
    assert(with.take(n - 2) =~= time);
    if time.len() >= 2 {
        assert(time.skip(time.len() - 2)[1] == time.last());
        assert("ms"@[1] == 's');
    }
    reveal_with_fuel(crate::text::trimmed_end_part, 2);
    assert(trimmed_end_part(time, "ms"@) == time);
    assert(trimmed_end_part(with, "ms"@) == time);
}

/// Whether a line is a row of the interface `name`.
pub open spec fn is_row_of(line: Seq<char>, name: Seq<char>) -> bool {
    row_of(line) matches Some((n, _)) && n == name
}

proof fn lemma_first_row(rows: Seq<Seq<char>>, name: Seq<char>, from: int, i: int)
    requires
        0 <= from <= i < rows.len(),
        is_row_of(rows[i], name),
        forall|j: int| from <= j < i ==> !is_row_of(#[trigger] rows[j], name),
    ensures
        stats_of(rows, name, from) == Some((row_of(rows[i])->0).1),
    decreases i - from,
{
    if from < i {
        let row = rows[from];
        lemma_first_row(rows, name, from + 1, i);
    }
}

/// The counters of an interface are those of its first row behind the two headings.
pub proof fn law_interface_counters(
    content: Seq<char>,
    name: Seq<char>,
    i: int,
    words: Seq<Seq<char>>,
)
    requires
        ({
            let rows = lines_of(content);
            &&& 2 <= i < rows.len()
            &&& is_row_of(rows[i], name)
            &&& words_of((row_of(rows[i])->0).1) == words
            &&& words.len() >= 9
            &&& forall|j: int| 2 <= j < i ==> !is_row_of(#[trigger] rows[j], name)
        }),
    ensures
        interface_bytes_in(content, Some(name)) == (
            number_or_zero(words[0]),
            number_or_zero(words[8]),
        ),
        interface_receive_bytes_in(content, name) == number_or_none(words[0]),
{
    lemma_first_row(lines_of(content), name, 2, i);
}

/// Sums that a counter holds are shown as they are; they are those over the tunnels
/// where there are any, and else those over the other interfaces.
pub proof fn law_summed_counters(content: Seq<char>)
    requires
        lines_of(content).len() >= 2,
    ensures
        ({
            let rows = lines_of(content).skip(2);
            let (tunnels, others) = (totals(rows, true), totals(rows, false));
            let of = if tunnels.2 {
                tunnels
            } else {
                others
            };
            of.0 <= u64::MAX && of.1 <= u64::MAX ==> interface_bytes_in(content, None) == (
                of.0,
                of.1,
            )
        }),
{
}

} // verus!
