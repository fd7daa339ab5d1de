//! Handing the forwarded port to qBittorrent, by its Web API.
//!
//! Requests are written as configurations of `curl`, which reads them from its
//! standard input: credentials never become arguments of a process, and no value
//! can become an option.

use vstd::prelude::*;
use vstd::string::*;

use crate::collections::text_before;
use crate::config::{is_local_host, url_host_port, QBittorrentConfig};
use crate::error::{AppError, AppResult};
use crate::record::{lemma_part, lemma_parts, lemma_since_none, lemma_since_one, since, Recorder};
use crate::text::{after_prefix, chars_of, contains, cut, decimal, decimal_string, has_part, has_prefix, joined, lemma_joined_cut, lemma_split_parts_join, lines, lines_of, lowercased, number_value, opt_text, opt_view, parse_number, same, split, split_by, split_on, split_once, split_parts, split_whitespace, starts_with, strip_prefix, to_lowercase, trim, trim_end_matches, trim_start_matches, trimmed, trimmed_end_of, trimmed_start_of, words_of};

verus! {

/// How long a request may take, in milliseconds.
pub const DEFAULT_TIMEOUT_MS: u32 = 5000;

/// What is read of the preferences of qBittorrent.
#[derive(Debug, Clone, PartialEq, Eq)]
pub struct QBittorrentPreferences {
    pub listen_port: u16,
    pub current_network_interface: Option<String>,
}

/// A reply of the Web API.
#[derive(Debug, Clone, PartialEq, Eq)]
pub struct HttpResponse {
    pub status: u16,
    pub headers: Vec<(String, String)>,
    pub body: String,
}

/// What a synchronization did.
#[derive(Debug, Clone, PartialEq, Eq)]
pub struct QBittorrentSyncReport {
    pub previous_port: Option<u16>,
    pub new_port: u16,
    pub bound_interface: Option<String>,
    pub app_version: Option<String>,
}

// ---------------------------------------------------------------------------
// Quoting for curl
// ---------------------------------------------------------------------------

/// A character inside a quoted value of a configuration.
pub open spec fn curl_char(c: char) -> Seq<char> {
    if c == '\\' {
        seq!['\\', '\\']
    } else if c == '"' {
        seq!['\\', '"']
    } else if c == '\r' {
        seq!['\\', 'r']
    } else if c == '\n' {
        seq!['\\', 'n']
    } else if c == '\t' {
        seq!['\\', 't']
    } else if c == '\u{b}' {
        seq!['\\', 'v']
    } else {
        seq![c]
    }
}

/// The characters of a quoted value.
pub open spec fn curl_escaped(s: Seq<char>) -> Seq<char>
    decreases s.len(),
{
    if s.len() == 0 {
        Seq::empty()
    } else {
        curl_escaped(s.drop_last()) + curl_char(s.last())
    }
}

/// A quoted value of a configuration.
pub open spec fn curl_quoted(s: Seq<char>) -> Seq<char> {
    seq!['"'] + curl_escaped(s) + seq!['"']
}

/// Quote a value for a configuration.
pub fn curl_quote(value: &str) -> (r: String)
    ensures
        r@ == curl_quoted(value@),
{
    let cs = chars_of(value);
    let mut r = String::new();
    r.push('"');
    let mut i: usize = 0;
    assert(r@ =~= seq!['"'] + curl_escaped(cs@.take(0)));
    while i < cs.len()
        invariant
            i <= cs.len(),
            r@ == seq!['"'] + curl_escaped(cs@.take(i as int)),
        decreases cs.len() - i,
    {
        let ghost before = r@;
        let c = cs[i];
        proof {
            let next = cs@.take(i as int + 1);
            assert(next.drop_last() =~= cs@.take(i as int));
            assert(next.last() == c);
        }
        if c == '\\' || c == '"' {
            r.push('\\');
            r.push(c);
        } else if c == '\r' {
            r.push('\\');
            r.push('r');
        } else if c == '\n' {
            r.push('\\');
            r.push('n');
        } else if c == '\t' {
            r.push('\\');
            r.push('t');
        } else if c == '\u{b}' {
            r.push('\\');
            r.push('v');
        } else {
            r.push(c);
        }
        assert(r@ =~= before + curl_char(c));
        i += 1;
        assert(r@ =~= seq!['"'] + curl_escaped(cs@.take(i as int)));
    }
    assert(cs@.take(i as int) =~= cs@);
    r.push('"');
    assert(r@ =~= curl_quoted(value@));
    r
}

/// What a value that stands between quotes reads as: an escape stands for the
/// character that it names.
pub open spec fn curl_read(s: Seq<char>) -> Seq<char>
    decreases s.len(),
{
    if s.len() == 0 {
        Seq::empty()
    } else if s[0] == '\\' && s.len() > 1 {
        let c = s[1];
        seq![
            if c == 'r' {
                '\r'
            } else if c == 'n' {
                '\n'
            } else if c == 't' {
                '\t'
            } else if c == 'v' {
                '\u{b}'
            } else {
                c
            },
        ] + curl_read(s.skip(2))
    } else {
        seq![s[0]] + curl_read(s.skip(1))
    }
}

/// The escaped text of a text that starts with a character.
proof fn lemma_escaped_front(s: Seq<char>)
    requires
        s.len() > 0,
    ensures
        curl_escaped(s) == curl_char(s[0]) + curl_escaped(s.skip(1)),
    decreases s.len(),
{
    if s.len() == 1 {
        assert(s.drop_last() =~= Seq::<char>::empty());
        assert(s.skip(1) =~= Seq::<char>::empty());
        assert(curl_escaped(s) =~= curl_char(s[0]) + curl_escaped(s.skip(1)));
    } else {
        let less = s.drop_last();
        lemma_escaped_front(less);
        assert(less.skip(1) =~= s.skip(1).drop_last());
        assert(s.skip(1).last() == s.last());
        assert(curl_escaped(s) =~= curl_char(s[0]) + curl_escaped(s.skip(1)));
    }
}

/// A quoted value reads back as itself, and stays on its line: it cannot end the
/// option that it belongs to, nor start another one.
pub proof fn law_curl_quoting(s: Seq<char>)
    ensures
        curl_read(curl_escaped(s)) == s,
        !curl_quoted(s).contains('\n'),
        !curl_quoted(s).contains('\r'),
    decreases s.len(),
{
    if s.len() == 0 {
        assert(curl_read(curl_escaped(s)) =~= s);
        assert(curl_quoted(s) =~= seq!['"', '"']);
    } else {
        let rest = s.skip(1);
        law_curl_quoting(rest);
        lemma_escaped_front(s);
        let e = curl_escaped(s);
        let f = curl_char(s[0]);
        assert(e.skip(f.len() as int) =~= curl_escaped(rest));
        assert(e[0] == f[0]);
        if f.len() == 2 {
            assert(e[1] == f[1]);
        }
        assert(curl_read(e) =~= seq![s[0]] + rest);
        assert(seq![s[0]] + rest =~= s);
        let old_quoted = curl_quoted(rest);
        let q = curl_quoted(s);
        assert forall|k: int| 0 <= k < q.len() implies #[trigger] q[k] != '\n' && q[k] != '\r' by {
            if 1 <= k < 1 + f.len() {
                assert(q[k] == f[k - 1]);
            } else if k >= 1 + f.len() {
                assert(q[k] == old_quoted[k - f.len()]);
                assert(old_quoted.contains(old_quoted[k - f.len()]));
            }
        }
    }
}

// ---------------------------------------------------------------------------
// Requests
// ---------------------------------------------------------------------------

/// Three decimal digits.
pub open spec fn three_digits(n: nat) -> Seq<char> {
    decimal(n / 100) + decimal(n / 10 % 10) + decimal(n % 10)
}

/// A time limit in seconds, without trailing zeros. No limit at all is written as
/// the shortest one: curl takes zero as no limit.
pub open spec fn curl_timeout(ms: nat) -> Seq<char> {
    if ms == 0 {
        "0.001"@
    } else if ms % 1000 == 0 {
        decimal(ms / 1000)
    } else {
        decimal(ms / 1000) + "."@ + trimmed_end_of(three_digits(ms % 1000), '0')
    }
}

/// A time limit in seconds, from one in milliseconds.
pub fn format_curl_timeout(timeout_ms: u32) -> (r: String)
    ensures
        r@ == curl_timeout(timeout_ms as nat),
{
    if timeout_ms == 0 {
        return "0.001".to_owned();
    }
    let whole = decimal_string((timeout_ms / 1000) as u128);
    let rest: u32 = timeout_ms % 1000;
    if rest == 0 {
        return whole;
    }
    let a = decimal_string((rest / 100) as u128);
    let b = decimal_string((rest / 10 % 10) as u128);
    let c = decimal_string((rest % 10) as u128);
    let digits = a.concat(b.as_str()).concat(c.as_str());
    whole.concat(".").concat(trim_end_matches(digits.as_str(), '0'))
}

/// Whether a character is a control character.
pub open spec fn is_control(c: char) -> bool {
    (c as u32) < 0x20 || 0x7f <= (c as u32) <= 0x9f
}

/// Whether a text holds a control character.
pub open spec fn has_control(s: Seq<char>) -> bool {
    exists|i: int| 0 <= i < s.len() && is_control(#[trigger] s[i])
}

/// Whether a text holds a control character.
fn holds_control(s: &str) -> (r: bool)
    ensures
        r == has_control(s@),
{
    let cs = chars_of(s);
    let mut i: usize = 0;
    while i < cs.len()
        invariant
            i <= cs.len(),
            cs@ == s@,
            forall|k: int| 0 <= k < i ==> !is_control(#[trigger] s@[k]),
        decreases cs.len() - i,
    {
        let u = cs[i] as u32;
        assert(cs[i as int] == s@[i as int]);
        if u < 0x20 || (0x7f <= u && u <= 0x9f) {
            assert(is_control(s@[i as int]));
            return true;
        }
        i += 1;
    }
    false
}

/// A field of a form.
pub open spec fn field_line(key: Seq<char>, value: Seq<char>) -> Seq<char> {
    "data-urlencode = "@ + curl_quoted(key + "="@ + value) + "\n"@
}

/// The fields of a form.
pub open spec fn form_lines(form: Seq<(Seq<char>, Seq<char>)>) -> Seq<char>
    decreases form.len(),
{
    if form.len() == 0 {
        Seq::empty()
    } else {
        form_lines(form.drop_last()) + field_line(form.last().0, form.last().1)
    }
}

/// A form, as texts.
pub open spec fn form_view(form: Seq<(&str, &str)>) -> Seq<(Seq<char>, Seq<char>)> {
    form.map_values(|p: (&str, &str)| (p.0@, p.1@))
}

/// A form that may be there, as texts.
pub open spec fn opt_form(form: Option<&[(&str, &str)]>) -> Option<Seq<(Seq<char>, Seq<char>)>> {
    match form {
        Some(f) => Some(form_view(f@)),
        None => None,
    }
}

/// The configuration of a request: a time limit, the URL, the form of a request
/// that sends one, and the cookie of the session.
pub open spec fn request_text(
    timeout_ms: u32,
    url: Seq<char>,
    form: Option<Seq<(Seq<char>, Seq<char>)>>,
    cookie: Option<Seq<char>>,
) -> Seq<char> {
    "silent\ninclude\nmax-time = "@ + curl_timeout(timeout_ms as nat) + "\nurl = "@ + curl_quoted(
        url,
    ) + "\n"@ + (match form {
        Some(f) => "request = POST\n"@ + form_lines(f),
        None => Seq::empty(),
    }) + (match cookie {
        Some(c) => "header = "@ + curl_quoted("Cookie: SID="@ + c) + "\n"@,
        None => Seq::empty(),
    })
}

/// The fields of a form.
fn form_text(form: &[(&str, &str)]) -> (r: String)
    ensures
        r@ == form_lines(form_view(form@)),
{
    let ghost view = form_view(form@);
    let mut r = String::new();
    let mut i: usize = 0;
    assert(r@ =~= form_lines(view.take(0)));
    while i < form.len()
        invariant
            i <= form.len(),
            view == form_view(form@),
            r@ == form_lines(view.take(i as int)),
        decreases form.len() - i,
    {
        proof {
            let next = view.take(i as int + 1);
            assert(next.drop_last() =~= view.take(i as int));
            assert(next.last() == (form[i as int].0@, form[i as int].1@));
        }
        let ghost before = r@;
        let pair = form[i].0.to_owned().concat("=").concat(form[i].1);
        let value = curl_quote(pair.as_str());
        r.append("data-urlencode = ");
        r.append(value.as_str());
        r.append("\n");
        assert(r@ =~= before + field_line(form[i as int].0@, form[i as int].1@));
        i += 1;
    }
    assert(view.take(i as int) =~= view);
    r
}

/// Whether a result is the configuration of a request: a cookie with control
/// characters is refused.
pub open spec fn configured(
    r: AppResult<String>,
    timeout_ms: u32,
    url: Seq<char>,
    form: Option<Seq<(Seq<char>, Seq<char>)>>,
    cookie: Option<Seq<char>>,
) -> bool {
    match r {
        Ok(text) => !(cookie is Some && has_control(cookie->0)) && text@ == request_text(
            timeout_ms,
            url,
            form,
            cookie,
        ),
        Err(e) => cookie is Some && has_control(cookie->0) && bad_cookie(e),
    }
}

/// What is said of a cookie that no request can carry.
pub open spec fn bad_cookie(e: AppError) -> bool {
    e matches AppError::QBittorrent(m) && m@ == "invalid session cookie"@
}

/// The configuration of a request.
pub fn request_config(
    timeout_ms: u32,
    url: &str,
    form_data: Option<&[(&str, &str)]>,
    cookie: Option<&str>,
) -> (r: AppResult<String>)
    ensures
        configured(r, timeout_ms, url@, opt_form(form_data), opt_view(cookie)),
{
    let limit = format_curl_timeout(timeout_ms);
    let target = curl_quote(url);
    let mut config = "silent\ninclude\nmax-time = ".to_owned().concat(limit.as_str()).concat(
        "\nurl = ",
    ).concat(target.as_str()).concat("\n");
    match form_data {
        Some(form) => {
            let fields = form_text(form);
            config.append("request = POST\n");
            config.append(fields.as_str());
        },
        None => {},
    }
    let ghost so_far = config@;
    match cookie {
        Some(c) => {
            if holds_control(c) {
                return Err(AppError::QBittorrent("invalid session cookie".to_owned()));
            }
            let header = "Cookie: SID=".to_owned().concat(c);
            let value = curl_quote(header.as_str());
            config.append("header = ");
            config.append(value.as_str());
            config.append("\n");
        },
        None => {},
    }
    assert(config@ =~= request_text(timeout_ms, url@, opt_form(form_data), opt_view(cookie)));
    Ok(config)
}

/// The arguments of `curl`: its own settings are left out, since they could trace
/// credentials, and the request comes from its standard input.
pub fn curl_args() -> (r: Vec<&'static str>)
    ensures
        r.deep_view() == seq!["-q"@, "--config"@, "-"@],
{
    let r = vec!["-q", "--config", "-"];
    assert(r.deep_view() =~= seq!["-q"@, "--config"@, "-"@]);
    r
}

// ---------------------------------------------------------------------------
// Replies
// ---------------------------------------------------------------------------

/// The headers, as texts.
pub open spec fn header_views(headers: Seq<(String, String)>) -> Seq<(Seq<char>, Seq<char>)> {
    headers.map_values(|h: (String, String)| (h.0@, h.1@))
}

/// Whether a part of a raw reply starts a response.
pub open spec fn starts_response(part: Seq<char>) -> bool {
    has_prefix(part, "HTTP/1."@) || has_prefix(part, "HTTP/2"@)
}

/// The part that holds the headers: the last one that starts a response, since an
/// interim response may come first; the first part where none does.
pub open spec fn header_index(parts: Seq<Seq<char>>) -> int
    decreases parts.len(),
{
    if parts.len() == 0 {
        0
    } else if starts_response(parts.last()) {
        parts.len() - 1
    } else {
        header_index(parts.drop_last())
    }
}

/// What separates the headers from the body.
pub open spec fn delimiter(raw: Seq<char>) -> Seq<char> {
    if has_part(raw, "\r\n\r\n"@) {
        "\r\n\r\n"@
    } else {
        "\n\n"@
    }
}

/// The headers that lines hold: names in lower case, without white space around
/// names and values. A line without a colon is left out.
pub open spec fn headers_of(rows: Seq<Seq<char>>) -> Seq<(Seq<char>, Seq<char>)>
    decreases rows.len(),
{
    if rows.len() == 0 {
        Seq::empty()
    } else {
        let before = headers_of(rows.drop_last());
        match cut(rows.last(), ':') {
            Some((name, value)) => before.push((lowercased(trimmed(name)), trimmed(value))),
            None => before,
        }
    }
}

/// The status of a response, or what is wrong with its first line.
pub open spec fn status_of(line: Seq<char>) -> Result<nat, Seq<char>> {
    let words = words_of(line);
    if words.len() < 2 {
        Err("invalid status line: "@ + line)
    } else {
        match number_value(words[1], u16::MAX as nat) {
            Ok(n) => Ok(n),
            Err(_) => Err("invalid status code: "@ + words[1]),
        }
    }
}

/// The status of a response.
pub fn parse_status_code(status_line: &str) -> (r: AppResult<u16>)
    ensures
        match r {
            Ok(n) => status_of(status_line@) == Ok::<nat, Seq<char>>(n as nat),
            Err(e) => e matches AppError::QBittorrent(m) && status_of(status_line@) == Err::<
                nat,
                Seq<char>,
            >(m@),
        },
{
    let words = split_whitespace(status_line);
    if words.len() < 2 {
        return Err(AppError::QBittorrent("invalid status line: ".to_owned().concat(status_line)));
    }
    let code = words[1];
    assert(words.deep_view()[1] == code@);
    match parse_number(code, u16::MAX as u64) {
        Ok(n) => Ok(n as u16),
        Err(_) => Err(AppError::QBittorrent("invalid status code: ".to_owned().concat(code))),
    }
}

/// What a raw reply comes to: its status, its headers and its body.
pub open spec fn reply_parts(raw: Seq<char>) -> Result<
    (nat, Seq<(Seq<char>, Seq<char>)>, Seq<char>),
    Seq<char>,
> {
    let parts = split_parts(raw, delimiter(raw));
    let at = header_index(parts);
    let rows = lines_of(parts[at]);
    if raw.len() == 0 {
        Err("empty response from WebUI"@)
    } else if rows.len() == 0 {
        Err("missing HTTP status line"@)
    } else {
        match status_of(rows[0]) {
            Ok(status) => Ok(
                (status, headers_of(rows.skip(1)), joined(parts.skip(at + 1), delimiter(raw))),
            ),
            Err(m) => Err(m),
        }
    }
}

/// The headers that lines hold, from the second line on.
fn headers_after_first(rows: &Vec<&str>) -> (r: Vec<(String, String)>)
    requires
        rows.len() > 0,
    ensures
        header_views(r@) == headers_of(rows.deep_view().skip(1)),
{
    let ghost all = rows.deep_view().skip(1);
    let mut r: Vec<(String, String)> = Vec::new();
    let mut i: usize = 1;
    assert(header_views(r@) =~= headers_of(all.take(0)));
    while i < rows.len()
        invariant
            1 <= i <= rows.len(),
            all == rows.deep_view().skip(1),
            header_views(r@) == headers_of(all.take(i as int - 1)),
        decreases rows.len() - i,
    {
        proof {
            let next = all.take(i as int);
            assert(next.drop_last() =~= all.take(i as int - 1));
            assert(next.last() == rows[i as int]@);
        }
        match split_once(rows[i], ':') {
            Some((name, value)) => {
                let ghost before = header_views(r@);
                let key = to_lowercase(trim(name));
                let text = trim(value).to_owned();
                let ghost entry = (key@, text@);
                r.push((key, text));
                assert(header_views(r@) =~= before.push(entry));
            },
            None => {},
        }
        i += 1;
    }
    assert(all.take(i as int - 1) =~= all);
    r
}

/// The index of the part that holds the headers.
fn find_header(parts: &Vec<&str>) -> (r: usize)
    requires
        parts.len() > 0,
    ensures
        r < parts.len(),
        r == header_index(parts.deep_view()),
{
    let ghost all = parts.deep_view();
    let mut at: usize = 0;
    let mut i: usize = 0;
    while i < parts.len()
        invariant
            i <= parts.len(),
            parts.len() > 0,
            at < parts.len(),
            all == parts.deep_view(),
            at == header_index(all.take(i as int)),
        decreases parts.len() - i,
    {
        proof {
            let next = all.take(i as int + 1);
            assert(next.drop_last() =~= all.take(i as int));
            assert(next.last() == parts[i as int]@);
        }
        if starts_with(parts[i], "HTTP/1.") || starts_with(parts[i], "HTTP/2") {
            at = i;
        }
        i += 1;
    }
    assert(all.take(i as int) =~= all);
    at
}

/// Put the parts from an index on together again.
fn rejoin(parts: &Vec<&str>, from: usize, sep: &str) -> (r: String)
    requires
        from <= parts.len(),
    ensures
        r@ == joined(parts.deep_view().skip(from as int), sep@),
{
    let ghost all = parts.deep_view().skip(from as int);
    let mut tail: Vec<String> = Vec::new();
    let mut i: usize = from;
    while i < parts.len()
        invariant
            from <= i <= parts.len(),
            all == parts.deep_view().skip(from as int),
            tail.deep_view() == all.take(i - from),
        decreases parts.len() - i,
    {
        let ghost before = tail.deep_view();
        tail.push(parts[i].to_owned());
        assert(tail.deep_view() =~= before.push(all[i - from]));
        i += 1;
    }
    assert(all.take(i - from) =~= all);
    let list = tail.as_slice();
    assert(list.deep_view() =~= tail.deep_view());
    crate::text::join(list, sep)
}

/// Whether a result says what a raw reply comes to.
pub open spec fn reads_reply(r: AppResult<HttpResponse>, raw: Seq<char>) -> bool {
    match r {
        Ok(resp) => reply_parts(raw) == Ok::<
            (nat, Seq<(Seq<char>, Seq<char>)>, Seq<char>),
            Seq<char>,
        >((resp.status as nat, header_views(resp.headers@), resp.body@)),
        Err(e) => e matches AppError::QBittorrent(m) && reply_parts(raw) == Err::<
            (nat, Seq<(Seq<char>, Seq<char>)>, Seq<char>),
            Seq<char>,
        >(m@),
    }
}

/// Read a raw reply, with its headers, as `curl` prints it.
pub fn parse_http_response(raw: &str) -> (r: AppResult<HttpResponse>)
    ensures
        reads_reply(r, raw@),
{
    if raw.is_empty() {
        return Err(AppError::QBittorrent("empty response from WebUI".to_owned()));
    }
    proof {
        reveal_strlit("\r\n\r\n");
        reveal_strlit("\n\n");
    }
    let sep = if contains(raw, "\r\n\r\n") { "\r\n\r\n" } else { "\n\n" };
    let parts = split_by(raw, sep);
    proof {
        lemma_split_parts_join(raw@, sep@);
    }
    let at = find_header(&parts);
    let rows = lines(parts[at]);
    assert(parts.deep_view()[at as int] == parts[at as int]@);
    if rows.len() == 0 {
        return Err(AppError::QBittorrent("missing HTTP status line".to_owned()));
    }
    assert(rows.deep_view()[0] == rows[0]@);
    let status = match parse_status_code(rows[0]) {
        Ok(status) => status,
        Err(e) => {
            return Err(e);
        },
    };
    let headers = headers_after_first(&rows);
    let body = rejoin(&parts, at + 1, sep);
    Ok(HttpResponse { status, headers, body })
}

/// The value of the first item with a prefix, from an index on.
pub open spec fn item_value(items: Seq<Seq<char>>, prefix: Seq<char>, i: int) -> Option<Seq<char>>
    decreases items.len() - i,
{
    if i < 0 || i >= items.len() {
        None
    } else {
        match after_prefix(trimmed(items[i]), prefix) {
            Some(value) => Some(value),
            None => item_value(items, prefix, i + 1),
        }
    }
}

/// The value of a cookie that the headers from an index on set.
pub open spec fn cookie_value(
    headers: Seq<(Seq<char>, Seq<char>)>,
    prefix: Seq<char>,
    i: int,
) -> Option<Seq<char>>
    decreases headers.len() - i,
{
    if i < 0 || i >= headers.len() {
        None
    } else {
        let here = if headers[i].0 == "set-cookie"@ {
            item_value(split_on(headers[i].1, ';'), prefix, 0)
        } else {
            None
        };
        match here {
            Some(value) => Some(value),
            None => cookie_value(headers, prefix, i + 1),
        }
    }
}

/// The value of the first item with a prefix.
fn find_item(text: &str, prefix: &str) -> (r: Option<String>)
    ensures
        opt_text(r) == item_value(split_on(text@, ';'), prefix@, 0),
{
    let items = split(text, ';');
    let ghost all = items.deep_view();
    let mut i: usize = 0;
    while i < items.len()
        invariant
            i <= items.len(),
            all == items.deep_view(),
            all == split_on(text@, ';'),
            item_value(all, prefix@, 0) == item_value(all, prefix@, i as int),
        decreases items.len() - i,
    {
        assert(all[i as int] == items[i as int]@);
        match strip_prefix(trim(items[i]), prefix) {
            Some(value) => {
                return Some(value.to_owned());
            },
            None => {},
        }
        i += 1;
    }
    None
}

/// The value of a cookie that the headers set.
pub fn extract_cookie(headers: &[(String, String)], cookie_name: &str) -> (r: Option<String>)
    ensures
        opt_text(r) == cookie_value(header_views(headers@), cookie_name@ + "="@, 0),
{
    let prefix = cookie_name.to_owned().concat("=");
    let ghost all = header_views(headers@);
    let mut i: usize = 0;
    while i < headers.len()
        invariant
            i <= headers.len(),
            all == header_views(headers@),
            prefix@ == cookie_name@ + "="@,
            cookie_value(all, prefix@, 0) == cookie_value(all, prefix@, i as int),
        decreases headers.len() - i,
    {
        assert(all[i as int] == (headers[i as int].0@, headers[i as int].1@));
        if same(headers[i].0.as_str(), "set-cookie") {
            match find_item(headers[i].1.as_str(), prefix.as_str()) {
                Some(value) => {
                    return Some(value);
                },
                None => {},
            }
        }
        i += 1;
    }
    None
}

/// The body of a reply is everything after its headers, to the last character.
pub proof fn law_body_is_kept(raw: Seq<char>)
    requires
        reply_parts(raw) is Ok,
    ensures
        ({
            let parts = split_parts(raw, delimiter(raw));
            let at = header_index(parts);
            let body = reply_parts(raw)->Ok_0.2;
            let head = joined(parts.take(at + 1), delimiter(raw));
            if at + 1 < parts.len() {
                raw == head + delimiter(raw) + body
            } else {
                raw == head && body.len() == 0
            }
        }),
{
    reveal_strlit("\r\n\r\n");
    reveal_strlit("\n\n");
    let d = delimiter(raw);
    let parts = split_parts(raw, d);
    lemma_split_parts_join(raw, d);
    lemma_header_index(parts);
    let at = header_index(parts);
    if at + 1 < parts.len() {
        lemma_joined_cut(parts, d, at + 1);
    } else {
        assert(parts.take(at + 1) =~= parts);
        assert(parts.skip(at + 1) =~= Seq::<Seq<char>>::empty());
    }
}

/// The headers stand in one of the parts.
proof fn lemma_header_index(parts: Seq<Seq<char>>)
    ensures
        0 <= header_index(parts),
        parts.len() > 0 ==> header_index(parts) < parts.len(),
    decreases parts.len(),
{
    if parts.len() > 0 {
        lemma_header_index(parts.drop_last());
    }
}

// ---------------------------------------------------------------------------
// JSON
// ---------------------------------------------------------------------------

/// What JSON text holds under two keys, a number under the one and a text under
/// the other; or what is wrong with the text.
pub uninterp spec fn json_fields(
    body: Seq<char>,
    number_key: Seq<char>,
    text_key: Seq<char>,
) -> Result<(Option<u64>, Option<Seq<char>>), Seq<char>>;

/// What was read of JSON text, as texts.
pub open spec fn fields_view(r: Result<(Option<u64>, Option<String>), String>) -> Result<
    (Option<u64>, Option<Seq<char>>),
    Seq<char>,
> {
    match r {
        Ok((number, text)) => Ok((number, opt_text(text))),
        Err(m) => Err(m@),
    }
}

/// Calls `serde_json::from_str`, then `Value::get` with `Value::as_u64` and with
/// `Value::as_str`. The result is named: what stands under the keys, nothing for
/// a key that is missing or holds something else, or the text of the error.
#[verifier::external_body]
fn read_json_fields(body: &str, number_key: &str, text_key: &str) -> (r: Result<
    (Option<u64>, Option<String>),
    String,
>)
    ensures
        fields_view(r) == json_fields(body@, number_key@, text_key@),
{
    let value: serde_json::Value = serde_json::from_str(body).map_err(|e| e.to_string())?;
    let number = value.get(number_key).and_then(|v| v.as_u64());
    let text = value.get(text_key).and_then(|v| v.as_str()).map(String::from);
    Ok((number, text))
}

/// Whether JSON writes a text as it is.
pub open spec fn is_json_plain(s: Seq<char>) -> bool {
    forall|i: int|
        0 <= i < s.len() ==> ' ' <= #[trigger] s[i] && s[i] != '"' && s[i] != '\\'
}

/// The JSON object with a number under one key and, where there is one, a text
/// under another.
pub uninterp spec fn json_object(
    number_key: Seq<char>,
    number: u16,
    text_key: Seq<char>,
    text: Option<Seq<char>>,
) -> Seq<char>;

/// Calls `serde_json::Map::insert` and `extend` for the values, and the
/// `to_string` of `serde_json::Value`. The result is named. Where no text has a character that JSON
/// escapes, it is written out: the keys stand in ascending order, and nothing
/// stands between the parts.
#[verifier::external_body]
fn write_json_object(number_key: &str, number: u16, text_key: &str, text: Option<&str>) -> (r:
    String)
    ensures
        r@ == json_object(number_key@, number, text_key@, opt_view(text)),
        is_json_plain(number_key@) && text is None ==> r@ == "{\""@ + number_key@ + "\":"@
            + decimal(number as nat) + "}"@,
        is_json_plain(number_key@) && is_json_plain(text_key@) && text is Some && is_json_plain(
            text->0@,
        ) && text_before(text_key@, number_key@) ==> r@ == "{\""@ + text_key@ + "\":\""@ + text->0@
            + "\",\""@ + number_key@ + "\":"@ + decimal(number as nat) + "}"@,
{
    let mut map = serde_json::Map::new();
    map.insert(number_key.to_string(), serde_json::Value::from(number));
    map.extend(text.map(|text| (text_key.to_string(), serde_json::Value::from(text))));
    serde_json::Value::Object(map).to_string()
}

/// The preferences that fields of JSON hold: a port that is missing counts as
/// zero and a large one keeps its lower sixteen bits; an empty interface counts as
/// none.
pub open spec fn preferences_of(number: Option<u64>, text: Option<Seq<char>>) -> (
    int,
    Option<Seq<char>>,
) {
    (
        match number {
            Some(n) => (n % 65536) as int,
            None => 0,
        },
        match text {
            Some(t) => if t.len() > 0 {
                Some(t)
            } else {
                None
            },
            None => None,
        },
    )
}

/// The preferences that fields of JSON hold.
pub fn preferences_from(number: Option<u64>, text: Option<String>) -> (r: QBittorrentPreferences)
    ensures
        (r.listen_port as int, opt_text(r.current_network_interface)) == preferences_of(
            number,
            opt_text(text),
        ),
{
    let listen_port = match number {
        Some(n) => (n % 65536) as u16,
        None => 0,
    };
    let current_network_interface = match text {
        Some(t) => if t.as_str().is_empty() {
            None
        } else {
            Some(t)
        },
        None => None,
    };
    QBittorrentPreferences { listen_port, current_network_interface }
}

/// Whether a result is what a body says of the preferences.
pub open spec fn reads_preferences(r: AppResult<QBittorrentPreferences>, body: Seq<char>) -> bool {
    match json_fields(body, "listen_port"@, "current_network_interface"@) {
        Ok((number, text)) => r matches Ok(p) && (
            p.listen_port as int,
            opt_text(p.current_network_interface),
        ) == preferences_of(number, text),
        Err(why) => r matches Err(AppError::QBittorrent(m)) && m@
            == "invalid JSON from qBittorrent preferences: "@ + why,
    }
}

/// Read the preferences from the body of a reply.
pub fn parse_preferences(body: &str) -> (r: AppResult<QBittorrentPreferences>)
    ensures
        reads_preferences(r, body@),
{
    match read_json_fields(body, "listen_port", "current_network_interface") {
        Ok((number, text)) => Ok(preferences_from(number, text)),
        Err(why) => Err(
            AppError::QBittorrent(
                "invalid JSON from qBittorrent preferences: ".to_owned().concat(why.as_str()),
            ),
        ),
    }
}

/// The preferences that set the port and, where one is given, the interface.
pub open spec fn port_payload_of(port: u16, interface: Option<Seq<char>>) -> Seq<char> {
    json_object("listen_port"@, port, "current_network_interface"@, interface)
}

/// The preferences that set the port and, where one is given, the interface.
pub fn port_payload(port: u16, interface: Option<&str>) -> (r: String)
    ensures
        r@ == port_payload_of(port, opt_view(interface)),
        interface is None ==> r@ == "{\"listen_port\":"@ + decimal(port as nat) + "}"@,
        interface is Some && is_json_plain(interface->0@) ==> r@
            == "{\"current_network_interface\":\""@ + interface->0@ + "\",\"listen_port\":"@
            + decimal(port as nat) + "}"@,
{
    let r = write_json_object("listen_port", port, "current_network_interface", interface);
    proof {
        reveal_strlit("listen_port");
        reveal_strlit("current_network_interface");
        reveal_strlit("{\"");
        reveal_strlit("\":");
        reveal_strlit("\":\"");
        reveal_strlit("\",\"");
        reveal_strlit("{\"listen_port\":");
        reveal_strlit("{\"current_network_interface\":\"");
        reveal_strlit("\",\"listen_port\":");
        assert("{\""@ + "listen_port"@ + "\":"@ =~= "{\"listen_port\":"@);
        assert("{\""@ + "current_network_interface"@ + "\":\""@
            =~= "{\"current_network_interface\":\""@);
        assert("\",\""@ + "listen_port"@ + "\":"@ =~= "\",\"listen_port\":"@);
        assert(text_before("current_network_interface"@, "listen_port"@));
        if interface is Some && is_json_plain(interface->0@) {
            assert(r@ =~= "{\"current_network_interface\":\""@ + interface->0@
                + "\",\"listen_port\":"@ + decimal(port as nat) + "}"@);
        }
    }
    r
}

// ---------------------------------------------------------------------------
// The client
// ---------------------------------------------------------------------------

/// A session with the Web API.
#[derive(Debug)]
pub struct QBittorrentClient {
    pub base_url: String,
    pub username: Option<String>,
    pub password: Option<String>,
    pub bind_interface: bool,
    pub cookie: Option<String>,
    pub timeout_ms: u32,
}

/// A session, as texts.
#[verifier::ext_equal]
pub struct ClientView {
    pub base_url: Seq<char>,
    pub username: Option<Seq<char>>,
    pub password: Option<Seq<char>>,
    pub bind_interface: bool,
    pub cookie: Option<Seq<char>>,
    pub timeout_ms: u32,
}

impl View for QBittorrentClient {
    type V = ClientView;

    open spec fn view(&self) -> ClientView {
        ClientView {
            base_url: self.base_url@,
            username: opt_text(self.username),
            password: opt_text(self.password),
            bind_interface: self.bind_interface,
            cookie: opt_text(self.cookie),
            timeout_ms: self.timeout_ms,
        }
    }
}

impl ClientView {
    /// The URL of a path of the API.
    pub open spec fn url(self, path: Seq<char>) -> Seq<char> {
        self.base_url + "/"@ + trimmed_start_of(path, '/')
    }

    /// The interface that qBittorrent is told to listen on: that of the tunnel,
    /// where it has a name and qBittorrent runs on this machine.
    pub open spec fn target(self, interface: Option<Seq<char>>) -> Option<Seq<char>> {
        match interface {
            Some(name) => if self.bind_interface && trimmed(name).len() > 0 {
                Some(trimmed(name))
            } else {
                None
            },
            None => None,
        }
    }
}

/// A session that is not open yet. A user name of white space counts as none, and
/// so does an empty password.
pub open spec fn fresh_client(config: QBittorrentConfig) -> ClientView {
    ClientView {
        base_url: trimmed_end_of(config.url@, '/'),
        username: match config.username {
            Some(u) => if trimmed(u@).len() > 0 {
                Some(u@)
            } else {
                None
            },
            None => None,
        },
        password: match config.password {
            Some(p) => if p@.len() > 0 {
                Some(p@)
            } else {
                None
            },
            None => None,
        },
        bind_interface: config.bind_interface || is_local_host(url_host_port(config.url@).0),
        cookie: None,
        timeout_ms: DEFAULT_TIMEOUT_MS,
    }
}

/// The path that opens a session.
pub const LOGIN_PATH: &'static str = "api/v2/auth/login";

/// The path that tells the version.
pub const VERSION_PATH: &'static str = "api/v2/app/version";

/// The path that tells the preferences.
pub const PREFERENCES_PATH: &'static str = "api/v2/app/preferences";

/// The path that changes the preferences.
pub const SET_PREFERENCES_PATH: &'static str = "api/v2/app/setPreferences";

/// The form of a login.
pub open spec fn login_form(username: Seq<char>, password: Seq<char>) -> Seq<
    (Seq<char>, Seq<char>),
> {
    seq![("username"@, username), ("password"@, password)]
}

/// The form of a change of the preferences.
pub open spec fn json_form(payload: Seq<char>) -> Seq<(Seq<char>, Seq<char>)> {
    seq![("json"@, payload)]
}

/// A request that was sent, with its reply.
pub type Exchange = (Seq<char>, AppResult<HttpResponse>);

/// Whether the exchanges ask for a path and give `reply`. A request that cannot be
/// written is not sent.
pub open spec fn asked(
    t: Seq<Exchange>,
    c: ClientView,
    path: Seq<char>,
    form: Option<Seq<(Seq<char>, Seq<char>)>>,
    reply: AppResult<HttpResponse>,
) -> bool {
    if c.cookie is Some && has_control(c.cookie->0) {
        t.len() == 0 && (reply matches Err(e) && bad_cookie(e))
    } else {
        t == seq![(request_text(c.timeout_ms, c.url(path), form, c.cookie), reply)]
    }
}

/// What a reply to a login makes of the session.
pub open spec fn login_outcome(
    a: ClientView,
    reply: AppResult<HttpResponse>,
    b: ClientView,
    r: AppResult<()>,
) -> bool {
    match reply {
        Err(e) => b == a && r == Err::<(), AppError>(e),
        Ok(resp) => if resp.status == 403 || trimmed(resp.body@) == "Fails."@ {
            b == a && (r matches Err(AppError::QBittorrent(m)) && m@
                == "invalid qBittorrent WebUI credentials"@)
        } else {
            r is Ok && b == match cookie_value(header_views(resp.headers@), "SID"@ + "="@, 0) {
                Some(cookie) => ClientView { cookie: Some(cookie), ..a },
                None => a,
            }
        },
    }
}

/// Whether a login with the exchanges turns the session `a` into `b`. Without
/// credentials nothing is sent.
pub open spec fn logged_in(
    t: Seq<Exchange>,
    a: ClientView,
    b: ClientView,
    r: AppResult<()>,
) -> bool {
    match (a.username, a.password) {
        (Some(u), Some(p)) => exists|reply: AppResult<HttpResponse>| #[trigger]
            asked(t, a, LOGIN_PATH@, Some(login_form(u, p)), reply) && login_outcome(
                a,
                reply,
                b,
                r,
            ),
        _ => t.len() == 0 && b == a && r is Ok,
    }
}

/// Whether the exchanges open the session where it is not open yet, and only then.
pub open spec fn authenticated(
    t: Seq<Exchange>,
    a: ClientView,
    b: ClientView,
    r: AppResult<()>,
) -> bool {
    if a.cookie is None && a.username is Some {
        logged_in(t, a, b, r)
    } else {
        t.len() == 0 && b == a && r is Ok
    }
}

/// What a reply says of the version.
pub open spec fn version_read(reply: AppResult<HttpResponse>, r: AppResult<String>) -> bool {
    match reply {
        Err(e) => r == Err::<String, AppError>(e),
        Ok(resp) => if resp.status != 200 {
            r matches Err(AppError::QBittorrent(m)) && m@
                == "failed to query qBittorrent version"@ + " (HTTP "@ + decimal(
                resp.status as nat,
            ) + ")"@
        } else {
            r matches Ok(version) && version@ == trimmed(resp.body@)
        },
    }
}

/// Whether the exchanges ask for the version and come to `r`.
pub open spec fn version_told(t: Seq<Exchange>, c: ClientView, r: AppResult<String>) -> bool {
    exists|reply: AppResult<HttpResponse>| #[trigger]
        asked(t, c, VERSION_PATH@, None, reply) && version_read(reply, r)
}

/// Whether the exchanges follow the first reply to the question for the version: a
/// session that has run out is opened once more, and the version is asked for once
/// more; otherwise nothing more is sent.
pub open spec fn version_outcome(
    t: Seq<Exchange>,
    c: ClientView,
    reply: AppResult<HttpResponse>,
    b: ClientView,
    r: AppResult<String>,
) -> bool {
    if reply is Ok && reply->Ok_0.status == 403 {
        exists|n: int, opened: AppResult<()>|
            0 <= n <= t.len() && #[trigger] logged_in(
                t.take(n),
                ClientView { cookie: None, ..c },
                b,
                opened,
            ) && match opened {
                Err(e) => t.len() == n && r == Err::<String, AppError>(e),
                Ok(_) => version_told(t.skip(n), b, r),
            }
    } else {
        t.len() == 0 && b == c && version_read(reply, r)
    }
}

/// Whether the exchanges ask an open session `c` for the version and turn it into
/// `b`.
pub open spec fn version_asked(
    t: Seq<Exchange>,
    c: ClientView,
    b: ClientView,
    r: AppResult<String>,
) -> bool {
    exists|n: int, reply: AppResult<HttpResponse>|
        0 <= n <= t.len() && #[trigger] asked(t.take(n), c, VERSION_PATH@, None, reply)
            && version_outcome(t.skip(n), c, reply, b, r)
}

/// Whether asking for the version with the exchanges turns the session `a` into
/// `b`.
pub open spec fn version_run(
    t: Seq<Exchange>,
    a: ClientView,
    b: ClientView,
    r: AppResult<String>,
) -> bool {
    exists|n: int, c: ClientView, opened: AppResult<()>|
        0 <= n <= t.len() && #[trigger] authenticated(t.take(n), a, c, opened) && match opened {
            Err(e) => t.len() == n && b == c && r == Err::<String, AppError>(e),
            Ok(_) => version_asked(t.skip(n), c, b, r),
        }
}

/// What a reply says of the preferences.
pub open spec fn preferences_read(
    reply: AppResult<HttpResponse>,
    r: AppResult<QBittorrentPreferences>,
) -> bool {
    match reply {
        Err(e) => r == Err::<QBittorrentPreferences, AppError>(e),
        Ok(resp) => if resp.status != 200 {
            r matches Err(AppError::QBittorrent(m)) && m@
                == "failed to read qBittorrent preferences"@ + " (HTTP "@ + decimal(
                resp.status as nat,
            ) + ")"@
        } else {
            reads_preferences(r, resp.body@)
        },
    }
}

/// Whether the exchanges ask for the preferences and come to `r`.
pub open spec fn preferences_told(
    t: Seq<Exchange>,
    c: ClientView,
    r: AppResult<QBittorrentPreferences>,
) -> bool {
    exists|reply: AppResult<HttpResponse>| #[trigger]
        asked(t, c, PREFERENCES_PATH@, None, reply) && preferences_read(reply, r)
}

/// Whether asking for the preferences with the exchanges turns the session `a` into
/// `b`.
pub open spec fn preferences_run(
    t: Seq<Exchange>,
    a: ClientView,
    b: ClientView,
    r: AppResult<QBittorrentPreferences>,
) -> bool {
    exists|n: int, opened: AppResult<()>|
        0 <= n <= t.len() && #[trigger] authenticated(t.take(n), a, b, opened) && match opened {
            Err(e) => t.len() == n && r == Err::<QBittorrentPreferences, AppError>(e),
            Ok(_) => preferences_told(t.skip(n), b, r),
        }
}

/// What a reply says of the change of the port.
pub open spec fn port_set(port: u16, reply: AppResult<HttpResponse>, r: AppResult<()>) -> bool {
    match reply {
        Err(e) => r == Err::<(), AppError>(e),
        Ok(resp) => if resp.status != 200 {
            r matches Err(AppError::QBittorrent(m)) && m@
                == "failed to update qBittorrent port to "@ + decimal(port as nat) + " (HTTP "@
                + decimal(resp.status as nat) + ")"@
        } else {
            r is Ok
        },
    }
}

/// Whether the exchanges change the port and come to `r`.
pub open spec fn port_told(
    t: Seq<Exchange>,
    c: ClientView,
    port: u16,
    interface: Option<Seq<char>>,
    r: AppResult<()>,
) -> bool {
    exists|reply: AppResult<HttpResponse>| #[trigger]
        asked(
            t,
            c,
            SET_PREFERENCES_PATH@,
            Some(json_form(port_payload_of(port, c.target(interface)))),
            reply,
        ) && port_set(port, reply, r)
}

/// Whether changing the port with the exchanges turns the session `a` into `b`.
pub open spec fn port_run(
    t: Seq<Exchange>,
    a: ClientView,
    b: ClientView,
    port: u16,
    interface: Option<Seq<char>>,
    r: AppResult<()>,
) -> bool {
    exists|n: int, opened: AppResult<()>|
        0 <= n <= t.len() && #[trigger] authenticated(t.take(n), a, b, opened) && match opened {
            Err(e) => t.len() == n && r == Err::<(), AppError>(e),
            Ok(_) => port_told(t.skip(n), b, port, interface, r),
        }
}

/// What a synchronization reports: the version and the previous port as far as
/// they could be read, the new port, and the interface that was named.
pub open spec fn synced(
    version: AppResult<String>,
    preferences: AppResult<QBittorrentPreferences>,
    port: u16,
    target: Option<Seq<char>>,
    report: QBittorrentSyncReport,
) -> bool {
    &&& report.new_port == port
    &&& report.previous_port == match preferences {
        Ok(p) => Some(p.listen_port),
        Err(_) => None,
    }
    &&& opt_text(report.app_version) == match version {
        Ok(v) => Some(v@),
        Err(_) => None,
    }
    &&& opt_text(report.bound_interface) == target
}

/// Whether a synchronization with the exchanges turns the session `a` into `b`:
/// the version is asked for, then the preferences, and then the port is changed;
/// only the last can fail.
pub open spec fn sync_run(
    t: Seq<Exchange>,
    a: ClientView,
    b: ClientView,
    port: u16,
    interface: Option<Seq<char>>,
    r: AppResult<QBittorrentSyncReport>,
) -> bool {
    exists|
        n: int,
        m: int,
        c: ClientView,
        d: ClientView,
        version: AppResult<String>,
        preferences: AppResult<QBittorrentPreferences>,
        changed: AppResult<()>,
    |
        0 <= n <= m <= t.len() && #[trigger] version_run(t.take(n), a, c, version)
            && #[trigger] preferences_run(t.subrange(n, m), c, d, preferences)
            && #[trigger] port_run(t.skip(m), d, b, port, interface, changed) && match changed {
            Err(e) => r == Err::<QBittorrentSyncReport, AppError>(e),
            Ok(_) => r matches Ok(report) && synced(
                version,
                preferences,
                port,
                b.target(interface),
                report,
            ),
        }
}

/// A view of a text that may be there.
fn borrowed<'a>(o: &'a Option<String>) -> (r: Option<&'a str>)
    ensures
        opt_view(r) == opt_text(*o),
{
    match o {
        Some(t) => Some(t.as_str()),
        None => None,
    }
}

/// What is said of a reply with another status than success.
fn status_error(what: &str, status: u16) -> (r: AppError)
    ensures
        r matches AppError::QBittorrent(m) && m@ == what@ + " (HTTP "@ + decimal(status as nat)
            + ")"@,
{
    let n = decimal_string(status as u128);
    AppError::QBittorrent(what.to_owned().concat(" (HTTP ").concat(n.as_str()).concat(")"))
}

/// What a reply says of the version.
fn read_version(reply: AppResult<HttpResponse>) -> (r: AppResult<String>)
    ensures
        version_read(reply, r),
{
    match reply {
        Ok(resp) => if resp.status != 200 {
            Err(status_error("failed to query qBittorrent version", resp.status))
        } else {
            Ok(trim(resp.body.as_str()).to_owned())
        },
        Err(e) => Err(e),
    }
}

impl QBittorrentClient {
    /// A session that is not open yet.
    pub fn new(config: &QBittorrentConfig) -> (r: QBittorrentClient)
        ensures
            r@ == fresh_client(*config),
    {
        let username = match &config.username {
            Some(u) => if trim(u.as_str()).is_empty() {
                None
            } else {
                Some(u.clone())
            },
            None => None,
        };
        let password = match &config.password {
            Some(p) => if p.as_str().is_empty() {
                None
            } else {
                Some(p.clone())
            },
            None => None,
        };
        QBittorrentClient {
            base_url: trim_end_matches(config.url.as_str(), '/').to_owned(),
            username,
            password,
            bind_interface: config.binds_tunnel_interface(),
            cookie: None,
            timeout_ms: DEFAULT_TIMEOUT_MS,
        }
    }

    /// The session with another time limit, in milliseconds.
    pub fn with_timeout(self, timeout_ms: u32) -> (r: QBittorrentClient)
        ensures
            r@ == (ClientView { timeout_ms, ..self@ }),
    {
        QBittorrentClient {
            base_url: self.base_url,
            username: self.username,
            password: self.password,
            bind_interface: self.bind_interface,
            cookie: self.cookie,
            timeout_ms,
        }
    }

    /// The URL of a path of the API.
    pub fn endpoint_url(&self, path: &str) -> (r: String)
        ensures
            r@ == self@.url(path@),
    {
        self.base_url.clone().concat("/").concat(trim_start_matches(path, '/'))
    }

    /// The interface that qBittorrent is told to listen on.
    pub fn bind_target<'a>(&self, interface_name: Option<&'a str>) -> (r: Option<&'a str>)
        ensures
            opt_view(r) == self@.target(opt_view(interface_name)),
    {
        if !self.bind_interface {
            return None;
        }
        match interface_name {
            Some(name) => {
                let name = trim(name);
                if name.is_empty() {
                    None
                } else {
                    Some(name)
                }
            },
            None => None,
        }
    }

    /// Ask for a path, where `send` sends a request and reads the reply.
    fn ask<H: Fn(&str) -> AppResult<HttpResponse>>(
        &self,
        send: &mut Recorder<str, AppResult<HttpResponse>, H>,
        path: &str,
        form: Option<&[(&str, &str)]>,
    ) -> (r: AppResult<HttpResponse>)
        ensures
            final(send).follows(*old(send)),
            asked(since(old(send).calls(), final(send).calls()), self@, path@, opt_form(form), r),
    {
        let url = self.endpoint_url(path);
        match request_config(self.timeout_ms, url.as_str(), form, borrowed(&self.cookie)) {
            Ok(config) => {
                let reply = send.ask(config.as_str());
                proof {
                    lemma_since_one(old(send).calls(), (config@, reply));
                }
                reply
            },
            Err(e) => {
                proof {
                    lemma_since_none(send.calls());
                }
                Err(e)
            },
        }
    }

    /// Open the session where there are credentials.
    pub fn login<H: Fn(&str) -> AppResult<HttpResponse>>(&mut self, send: &mut Recorder<str, AppResult<HttpResponse>, H>) -> (r: AppResult<()>)
        ensures
            final(send).follows(*old(send)),
            logged_in(since(old(send).calls(), final(send).calls()), old(self)@, final(self)@, r),
    {
        let ghost a = self@;
        let ghost start = send.calls();
        proof {
            lemma_since_none(start);
        }
        let (username, password) = match (&self.username, &self.password) {
            (Some(u), Some(p)) => (u.as_str(), p.as_str()),
            _ => {
                return Ok(());
            },
        };
        let fields = [("username", username), ("password", password)];
        let form: &[(&str, &str)] = &fields;
        assert(form_view(form@) =~= login_form(username@, password@));
        let reply = self.ask(send, LOGIN_PATH, Some(form));
        assert(asked(
            since(start, send.calls()),
            a,
            LOGIN_PATH@,
            Some(login_form(a.username->0, a.password->0)),
            reply,
        ));
        let resp = match reply {
            Ok(resp) => resp,
            Err(e) => {
                return Err(e);
            },
        };
        if resp.status == 403 || same(trim(resp.body.as_str()), "Fails.") {
            return Err(
                AppError::QBittorrent("invalid qBittorrent WebUI credentials".to_owned()),
            );
        }
        match extract_cookie(resp.headers.as_slice(), "SID") {
            Some(cookie) => {
                self.cookie = Some(cookie);
            },
            None => {},
        }
        Ok(())
    }

    /// Open the session where it is not open and there is a user name.
    fn ensure_authenticated<H: Fn(&str) -> AppResult<HttpResponse>>(&mut self, send: &mut Recorder<str, AppResult<HttpResponse>, H>) -> (r:
        AppResult<()>)
        ensures
            final(send).follows(*old(send)),
            authenticated(since(old(send).calls(), final(send).calls()), old(self)@, final(self)@, r),
    {
        if self.cookie.is_none() && self.username.is_some() {
            self.login(send)
        } else {
            proof {
                lemma_since_none(send.calls());
            }
            Ok(())
        }
    }

    /// Whether the Web API tells its version. That it does not is no failure of a
    /// synchronization.
    pub fn reachable<H: Fn(&str) -> AppResult<HttpResponse>>(&mut self, send: &mut Recorder<str, AppResult<HttpResponse>, H>) -> (r: bool)
        ensures
            final(send).follows(*old(send)),
            exists|version: AppResult<String>| #[trigger]
                version_run(since(old(send).calls(), final(send).calls()), old(self)@, final(self)@, version) && r == version is Ok,
    {
        let version = self.app_version(send);
        version.is_ok()
    }

    /// Ask for the version. A session that has run out is opened once more.
    pub fn app_version<H: Fn(&str) -> AppResult<HttpResponse>>(&mut self, send: &mut Recorder<str, AppResult<HttpResponse>, H>) -> (r:
        AppResult<String>)
        ensures
            final(send).follows(*old(send)),
            version_run(since(old(send).calls(), final(send).calls()), old(self)@, final(self)@, r),
    {
        let ghost a = self@;
        let ghost start = send.calls();
        let opened = self.ensure_authenticated(send);
        let ghost c = self@;
        let ghost first = send.calls();
        proof {
            lemma_part(start, first);
            lemma_since_none(first);
        }
        let r = match opened {
            Ok(_) => self.ask_version(send),
            Err(e) => Err(e),
        };
        proof {
            lemma_parts(start, first, send.calls());
            let t = since(start, send.calls());
            assert(authenticated(t.take(since(start, first).len() as int), a, c, opened));
        }
        r
    }

    /// Ask an open session for the version, and once more where it has run out.
    fn ask_version<H: Fn(&str) -> AppResult<HttpResponse>>(
        &mut self,
        send: &mut Recorder<str, AppResult<HttpResponse>, H>,
    ) -> (r: AppResult<String>)
        ensures
            final(send).follows(*old(send)),
            version_asked(
                since(old(send).calls(), final(send).calls()),
                old(self)@,
                final(self)@,
                r,
            ),
    {
        let ghost c = self@;
        let ghost start = send.calls();
        let reply = self.ask(send, VERSION_PATH, None);
        let ghost given = reply;
        let ghost first = send.calls();
        proof {
            lemma_part(start, first);
            lemma_since_none(first);
        }
        let r = match reply {
            Ok(resp) => if resp.status == 403 {
                self.cookie = None;
                assert(self@ =~= (ClientView { cookie: None, ..c }));
                self.ask_version_again(send)
            } else {
                read_version(Ok(resp))
            },
            Err(e) => Err(e),
        };
        proof {
            assert(version_outcome(since(first, send.calls()), c, given, self@, r));
            lemma_parts(start, first, send.calls());
            let t = since(start, send.calls());
            assert(asked(
                t.take(since(start, first).len() as int),
                c,
                VERSION_PATH@,
                None,
                given,
            ));
        }
        r
    }

    /// Open a session that has run out, and ask for the version.
    fn ask_version_again<H: Fn(&str) -> AppResult<HttpResponse>>(
        &mut self,
        send: &mut Recorder<str, AppResult<HttpResponse>, H>,
    ) -> (r: AppResult<String>)
        ensures
            final(send).follows(*old(send)),
            ({
                let t = since(old(send).calls(), final(send).calls());
                exists|n: int, opened: AppResult<()>|
                    0 <= n <= t.len() && #[trigger] logged_in(
                        t.take(n),
                        old(self)@,
                        final(self)@,
                        opened,
                    ) && match opened {
                        Err(e) => t.len() == n && r == Err::<String, AppError>(e),
                        Ok(_) => version_told(t.skip(n), final(self)@, r),
                    }
            }),
    {
        let ghost a = self@;
        let ghost start = send.calls();
        let opened = self.login(send);
        let ghost first = send.calls();
        proof {
            lemma_part(start, first);
            lemma_since_none(first);
        }
        let r = match opened {
            Ok(_) => {
                let reply = self.ask(send, VERSION_PATH, None);
                let ghost given = reply;
                let r = read_version(reply);
                assert(asked(since(first, send.calls()), self@, VERSION_PATH@, None, given));
                r
            },
            Err(e) => Err(e),
        };
        proof {
            lemma_parts(start, first, send.calls());
            let t = since(start, send.calls());
            assert(logged_in(t.take(since(start, first).len() as int), a, self@, opened));
        }
        r
    }

    /// Ask for the preferences.
    pub fn get_preferences<H: Fn(&str) -> AppResult<HttpResponse>>(&mut self, send: &mut Recorder<str, AppResult<HttpResponse>, H>) -> (r:
        AppResult<QBittorrentPreferences>)
        ensures
            final(send).follows(*old(send)),
            preferences_run(since(old(send).calls(), final(send).calls()), old(self)@, final(self)@, r),
    {
        let ghost a = self@;
        let ghost start = send.calls();
        let opened = self.ensure_authenticated(send);
        let ghost first = send.calls();
        proof {
            lemma_part(start, first);
            lemma_since_none(first);
        }
        let r = match opened {
            Ok(_) => {
                let reply = self.ask(send, PREFERENCES_PATH, None);
                let ghost given = reply;
                let r = match reply {
                    Ok(resp) => if resp.status != 200 {
                        Err(status_error("failed to read qBittorrent preferences", resp.status))
                    } else {
                        parse_preferences(resp.body.as_str())
                    },
                    Err(e) => Err(e),
                };
                assert(asked(since(first, send.calls()), self@, PREFERENCES_PATH@, None, given));
                r
            },
            Err(e) => Err(e),
        };
        proof {
            lemma_parts(start, first, send.calls());
            let t = since(start, send.calls());
            assert(authenticated(t.take(since(start, first).len() as int), a, self@, opened));
        }
        r
    }

    /// Change the port and, where qBittorrent runs on this machine and the tunnel
    /// has a name, the interface. Without one the binding is left alone: naming
    /// an interface that does not exist would keep qBittorrent from listening.
    pub fn set_listen_port<H: Fn(&str) -> AppResult<HttpResponse>>(
        &mut self,
        port: u16,
        interface_name: Option<&str>,
        send: &mut Recorder<str, AppResult<HttpResponse>, H>,
    ) -> (r: AppResult<()>)
        ensures
            final(send).follows(*old(send)),
            port_run(since(old(send).calls(), final(send).calls()), old(self)@, final(self)@, port, opt_view(interface_name), r),
    {
        let ghost a = self@;
        let ghost start = send.calls();
        let opened = self.ensure_authenticated(send);
        let ghost first = send.calls();
        proof {
            lemma_part(start, first);
            lemma_since_none(first);
        }
        let r = match opened {
            Ok(_) => {
                let payload = port_payload(port, self.bind_target(interface_name));
                let fields = [("json", payload.as_str())];
                let form: &[(&str, &str)] = &fields;
                assert(form_view(form@) =~= json_form(payload@));
                let reply = self.ask(send, SET_PREFERENCES_PATH, Some(form));
                let ghost given = reply;
                let r = match reply {
                    Ok(resp) => if resp.status != 200 {
                        let n = decimal_string(port as u128);
                        let what = "failed to update qBittorrent port to ".to_owned().concat(
                            n.as_str(),
                        );
                        Err(status_error(what.as_str(), resp.status))
                    } else {
                        Ok(())
                    },
                    Err(e) => Err(e),
                };
                assert(asked(
                    since(first, send.calls()),
                    self@,
                    SET_PREFERENCES_PATH@,
                    Some(json_form(port_payload_of(port, self@.target(opt_view(interface_name))))),
                    given,
                ));
                r
            },
            Err(e) => Err(e),
        };
        proof {
            lemma_parts(start, first, send.calls());
            let t = since(start, send.calls());
            assert(authenticated(t.take(since(start, first).len() as int), a, self@, opened));
        }
        r
    }

    /// Hand the port to qBittorrent.
    pub fn sync_port<H: Fn(&str) -> AppResult<HttpResponse>>(
        &mut self,
        port: u16,
        interface_name: Option<&str>,
        send: &mut Recorder<str, AppResult<HttpResponse>, H>,
    ) -> (r: AppResult<QBittorrentSyncReport>)
        ensures
            final(send).follows(*old(send)),
            sync_run(since(old(send).calls(), final(send).calls()), old(self)@, final(self)@, port, opt_view(interface_name), r),
    {
        let ghost a = self@;
        let ghost start = send.calls();
        let version = self.app_version(send);
        let ghost c = self@;
        let ghost first = send.calls();
        let preferences = self.get_preferences(send);
        let ghost d = self@;
        let ghost second = send.calls();
        let changed = self.set_listen_port(port, interface_name, send);
        proof {
            let end = send.calls();
            lemma_parts(start, first, second);
            lemma_parts(start, second, end);
            let t = since(start, end);
            let n = since(start, first).len() as int;
            let m = since(start, second).len() as int;
            assert(t.take(n) =~= t.take(m).take(n));
            assert(t.subrange(n, m) =~= t.take(m).skip(n));
            assert(version_run(t.take(n), a, c, version));
            assert(preferences_run(t.subrange(n, m), c, d, preferences));
            assert(port_run(t.skip(m), d, self@, port, opt_view(interface_name), changed));
        }
        match changed {
            Ok(_) => {},
            Err(e) => {
                return Err(e);
            },
        }
        let previous_port = match &preferences {
            Ok(p) => Some(p.listen_port),
            Err(_) => None,
        };
        let app_version = match &version {
            Ok(v) => Some(v.clone()),
            Err(_) => None,
        };
        let bound_interface = match self.bind_target(interface_name) {
            Some(name) => Some(name.to_owned()),
            None => None,
        };
        let report = QBittorrentSyncReport {
            previous_port,
            new_port: port,
            bound_interface,
            app_version,
        };
        assert(synced(version, preferences, port, self@.target(opt_view(interface_name)), report));
        Ok(report)
    }
}

/// A number of milliseconds that is no whole number of seconds.
proof fn lemma_part_of_a_second(s: nat, x: nat)
    requires
        0 < x < 1000,
    ensures
        curl_timeout(1000 * s + x) == decimal(s) + "."@ + trimmed_end_of(three_digits(x), '0'),
{
    let ms = 1000 * s + x;
    assert(ms / 1000 == s && ms % 1000 == x);
}

/// Three digits, each by itself.
proof fn lemma_three_digits(t: nat, h: nat, m: nat)
    requires
        t < 10,
        h < 10,
        m < 10,
    ensures
        three_digits(100 * t + 10 * h + m) == decimal(t) + decimal(h) + decimal(m),
{
    let n = 100 * t + 10 * h + m;
    assert(n / 100 == t && n / 10 % 10 == h && n % 10 == m);
}

/// The digit of a number below ten, which is a zero only for none.
proof fn lemma_digit(n: nat)
    requires
        n < 10,
    ensures
        decimal(n).len() == 1,
        decimal(n)[0] == '0' <==> n == 0,
{
}

/// Zeros at the end go, and what they stood behind stays.
proof fn lemma_without_zeros(digits: Seq<char>, zeros: nat)
    requires
        digits.len() > 0,
        digits.last() != '0',
    ensures
        trimmed_end_of(digits + Seq::new(zeros, |i: int| '0'), '0') == digits,
    decreases zeros,
{
    let all = digits + Seq::new(zeros, |i: int| '0');
    if zeros > 0 {
        lemma_without_zeros(digits, (zeros - 1) as nat);
        assert(all.drop_last() =~= digits + Seq::new((zeros - 1) as nat, |i: int| '0'));
        assert(all.last() == '0');
    } else {
        assert(all =~= digits);
    }
}

/// A time limit is written in seconds: whole ones as a number, and otherwise with up
/// to three decimals of which the last is not zero.
pub proof fn law_time_limits(s: nat, t: nat, h: nat, m: nat)
    requires
        t < 10,
        h < 10,
        m < 10,
    ensures
        s > 0 ==> curl_timeout(1000 * s) == decimal(s),
        t > 0 ==> curl_timeout(1000 * s + 100 * t) == decimal(s) + "."@ + decimal(t),
        h > 0 ==> curl_timeout(1000 * s + (100 * t + 10 * h)) == decimal(s) + "."@ + (decimal(t)
            + decimal(h)),
        m > 0 ==> curl_timeout(1000 * s + (100 * t + 10 * h + m)) == decimal(s) + "."@ + (decimal(t)
            + decimal(h) + decimal(m)),
{
    let (a, b, c) = (decimal(t), decimal(h), decimal(m));
    lemma_digit(t);
    lemma_digit(h);
    lemma_digit(m);
    lemma_digit(0);
    if s > 0 {
        assert((1000 * s) / 1000 == s && (1000 * s) % 1000 == 0);
    }
    if t > 0 {
        lemma_part_of_a_second(s, 100 * t);
        lemma_three_digits(t, 0, 0);
        lemma_without_zeros(a, 2);
        assert(a + decimal(0) + decimal(0) =~= a + Seq::new(2, |i: int| '0'));
    }
    if h > 0 {
        lemma_part_of_a_second(s, 100 * t + 10 * h);
        lemma_three_digits(t, h, 0);
        lemma_without_zeros(a + b, 1);
        assert(a + b + decimal(0) =~= a + b + Seq::new(1, |i: int| '0'));
    }
    if m > 0 {
        lemma_part_of_a_second(s, 100 * t + 10 * h + m);
        lemma_three_digits(t, h, m);
        lemma_without_zeros(a + b + c, 0);
        assert(a + b + c =~= a + b + c + Seq::new(0, |i: int| '0'));
    }
}

/// A listening port is taken as it is reported, and an interface that is reported as
/// an empty text is none.
pub proof fn law_reported_preferences(port: u16, number: Option<u64>, text: Seq<char>)
    ensures
        preferences_of(Some(port as u64), None) == (port as int, None::<Seq<char>>),
        preferences_of(None, None) == (0int, None::<Seq<char>>),
        text.len() > 0 ==> preferences_of(number, Some(text)).1 == Some(text),
        text.len() == 0 ==> preferences_of(number, Some(text)).1 is None,
{
}

/// A response starts with the version of the protocol, which is the first or the second.
pub proof fn law_responses(rest: Seq<char>, part: Seq<char>)
    ensures
        starts_response("HTTP/1."@ + rest),
        starts_response("HTTP/2"@ + rest),
        starts_response(part) ==> has_prefix(part, "HTTP/"@),
{
    reveal_strlit("HTTP/1.");
    reveal_strlit("HTTP/2");
    reveal_strlit("HTTP/");
    assert(("HTTP/1."@ + rest).take(7) =~= "HTTP/1."@);
    assert(("HTTP/2"@ + rest).take(6) =~= "HTTP/2"@);
    if has_prefix(part, "HTTP/1."@) {
        assert(part.take(5) =~= part.take(7).take(5));
        assert("HTTP/1."@.take(5) =~= "HTTP/"@);
    }
    if has_prefix(part, "HTTP/2"@) {
        assert(part.take(5) =~= part.take(6).take(5));
        assert("HTTP/2"@.take(5) =~= "HTTP/"@);
    }
}

} // verus!
