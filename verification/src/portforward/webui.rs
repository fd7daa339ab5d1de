//! What synchronizing qBittorrent comes to, in terms of the requests that its
//! WebUI gets.

use vstd::prelude::*;
use vstd::string::*;

use crate::config::{is_local_host, url_host_port, QBittorrentConfig};
use crate::error::AppResult;
use crate::portforward::qbittorrent::{asked, authenticated, cookie_value, curl_quoted, field_line, form_lines, fresh_client, item_value, json_form, json_object, logged_in, login_form, port_run, port_told, preferences_run, request_text, sync_run, version_asked, version_outcome, version_run, ClientView, Exchange, HttpResponse, QBittorrentPreferences, QBittorrentSyncReport, LOGIN_PATH, SET_PREFERENCES_PATH};
use crate::text::{has_part, has_prefix, is_space, opt_text, split_on, trimmed, trimmed_end_of, trimmed_start_of};

verus! {

/// Whether `base` is a URL without the slashes that it ends with.
pub open spec fn is_base_of(base: Seq<char>, url: Seq<char>) -> bool {
    &&& base.len() <= url.len()
    &&& url.take(base.len() as int) == base
    &&& forall|i: int| base.len() <= i < url.len() ==> #[trigger] url[i] == '/'
    &&& base.len() > 0 ==> base.last() != '/'
}

/// Whether a request posts a field with a value to a URL.
pub open spec fn posts(
    request: Seq<char>,
    url: Seq<char>,
    field: Seq<char>,
    value: Seq<char>,
) -> bool {
    &&& has_part(request, "\nurl = "@ + curl_quoted(url) + "\n"@)
    &&& has_part(request, "request = POST\n"@)
    &&& has_part(request, "data-urlencode = "@ + curl_quoted(field + "="@ + value) + "\n"@)
}

/// The interface that is bound: that of the tunnel, where settings ask for it or
/// the WebUI is on this machine, and where the tunnel has one.
pub open spec fn bound_to(config: QBittorrentConfig, interface: Option<Seq<char>>) -> Option<
    Seq<char>,
> {
    match interface {
        Some(name) => if (config.bind_interface || is_local_host(url_host_port(config.url@).0))
            && trimmed(name).len() > 0 {
            Some(trimmed(name))
        } else {
            None
        },
        None => None,
    }
}

/// A part in the middle of a text.
proof fn lemma_part_of(s: Seq<char>, a: Seq<char>, part: Seq<char>, b: Seq<char>)
    requires
        s == a + part + b,
    ensures
        has_part(s, part),
{
    let i = a.len() as int;
    assert(s.skip(i) =~= part + b);
    assert(s.skip(i).take(part.len() as int) =~= part);
    assert(has_prefix(s.skip(i), part));
}

proof fn lemma_trimmed_base(url: Seq<char>)
    ensures
        is_base_of(trimmed_end_of(url, '/'), url),
    decreases url.len(),
{
    let base = trimmed_end_of(url, '/');
    if url.len() > 0 && url.last() == '/' {
        let less = url.drop_last();
        lemma_trimmed_base(less);
        assert(url.take(base.len() as int) =~= less.take(base.len() as int));
        assert forall|i: int| base.len() <= i < url.len() implies #[trigger] url[i] == '/' by {
            if i < less.len() {
                assert(less[i] == url[i]);
            }
        }
    } else {
        assert(url.take(url.len() as int) =~= url);
    }
}

/// A request with a form posts its fields.
proof fn lemma_posts(
    timeout_ms: u32,
    url: Seq<char>,
    form: Seq<(Seq<char>, Seq<char>)>,
    cookie: Option<Seq<char>>,
    i: int,
)
    requires
        0 <= i < form.len() <= 2,
    ensures
        posts(request_text(timeout_ms, url, Some(form), cookie), url, form[i].0, form[i].1),
{
    let request = request_text(timeout_ms, url, Some(form), cookie);
    let start = "silent\ninclude\nmax-time = "@ + crate::portforward::qbittorrent::curl_timeout(
        timeout_ms as nat,
    );
    let tail = match cookie {
        Some(c) => "header = "@ + curl_quoted("Cookie: SID="@ + c) + "\n"@,
        None => Seq::empty(),
    };
    let address = "\nurl = "@ + curl_quoted(url) + "\n"@;
    let post = "request = POST\n"@;
    let lines = form_lines(form);
    assert(request =~= start + address + (post + lines + tail));
    lemma_part_of(request, start, address, post + lines + tail);
    assert(request =~= (start + address) + post + (lines + tail));
    lemma_part_of(request, start + address, post, lines + tail);
    let line = field_line(form[i].0, form[i].1);
    let less = form.drop_last();
    if i == form.len() - 1 {
        assert(lines =~= form_lines(less) + line);
        assert(request =~= (start + address + post + form_lines(less)) + line + tail);
        lemma_part_of(request, start + address + post + form_lines(less), line, tail);
    } else {
        let none = Seq::<(Seq<char>, Seq<char>)>::empty();
        let second = field_line(form[1].0, form[1].1);
        assert(less.drop_last() =~= none);
        assert(less.last() == form[0]);
        assert(form_lines(none) =~= Seq::<char>::empty());
        assert(form_lines(less) =~= line);
        assert(lines =~= line + second);
        assert(request =~= (start + address + post) + line + (second + tail));
        lemma_part_of(request, start + address + post, line, second + tail);
    }
    assert(line =~= "data-urlencode = "@ + curl_quoted(form[i].0 + "="@ + form[i].1) + "\n"@);
}

/// Whether two clients differ in their sessions only.
spec fn same_client(a: ClientView, b: ClientView) -> bool {
    b == (ClientView { cookie: b.cookie, ..a })
}

proof fn lemma_version_keeps(
    t: Seq<Exchange>,
    a: ClientView,
    b: ClientView,
    r: AppResult<String>,
)
    requires
        version_run(t, a, b, r),
    ensures
        same_client(a, b),
{
    let (n, c, opened) = choose|n: int, c: ClientView, opened: AppResult<()>|
        0 <= n <= t.len() && #[trigger] authenticated(t.take(n), a, c, opened) && match opened {
            Err(e) => t.len() == n && b == c && r == Err::<String, crate::error::AppError>(e),
            Ok(_) => version_asked(t.skip(n), c, b, r),
        };
    assert(same_client(a, c));
    if opened is Ok {
        let u = t.skip(n);
        let (m, reply) = choose|m: int, reply: AppResult<HttpResponse>|
            0 <= m <= u.len() && #[trigger] asked(
                u.take(m),
                c,
                crate::portforward::qbittorrent::VERSION_PATH@,
                None,
                reply,
            ) && version_outcome(u.skip(m), c, reply, b, r);
        assert(same_client(c, b));
    }
}

/// The last exchange of a synchronization that succeeds posts the forwarded port,
/// and the interface of the tunnel where it is bound, to the preferences of the
/// WebUI, which took them; the report tells that port and that interface.
pub proof fn law_sync_sets_the_forwarded_port(
    t: Seq<Exchange>,
    config: QBittorrentConfig,
    after: ClientView,
    port: u16,
    interface: Option<Seq<char>>,
    report: QBittorrentSyncReport,
)
    requires
        sync_run(
            t,
            fresh_client(config),
            after,
            port,
            interface,
            Ok::<QBittorrentSyncReport, crate::error::AppError>(report),
        ),
    ensures
        exists|base: Seq<char>| #[trigger]
            is_base_of(base, config.url@) && t.len() > 0 && posts(
                t.last().0,
                base + "/api/v2/app/setPreferences"@,
                "json"@,
                json_object(
                    "listen_port"@,
                    port,
                    "current_network_interface"@,
                    bound_to(config, interface),
                ),
            ),
        t.last().1 matches Ok(reply) && reply.status == 200,
        report.new_port == port,
        opt_text(report.bound_interface) == bound_to(config, interface),
{
    let a = fresh_client(config);
    let r = Ok::<QBittorrentSyncReport, crate::error::AppError>(report);
    let (n, m, c, d, version, preferences, changed) = choose|
        n: int,
        m: int,
        c: ClientView,
        d: ClientView,
        version: AppResult<String>,
        preferences: AppResult<QBittorrentPreferences>,
        changed: AppResult<()>,
    |
        0 <= n <= m <= t.len() && #[trigger] version_run(t.take(n), a, c, version)
            && #[trigger] preferences_run(t.subrange(n, m), c, d, preferences)
            && #[trigger] port_run(t.skip(m), d, after, port, interface, changed) && match changed {
            Err(e) => r == Err::<QBittorrentSyncReport, crate::error::AppError>(e),
            Ok(_) => crate::portforward::qbittorrent::synced(
                version,
                preferences,
                port,
                after.target(interface),
                report,
            ),
        };
    lemma_version_keeps(t.take(n), a, c, version);
    assert(same_client(c, d));
    assert(same_client(d, after));
    assert(after.target(interface) == bound_to(config, interface));
    let u = t.skip(m);
    let (k, opened) = choose|k: int, opened: AppResult<()>|
        0 <= k <= u.len() && #[trigger] authenticated(u.take(k), d, after, opened) && match opened {
            Err(e) => u.len() == k && changed == Err::<(), crate::error::AppError>(e),
            Ok(_) => port_told(u.skip(k), after, port, interface, changed),
        };
    let v = u.skip(k);
    let payload = json_object(
        "listen_port"@,
        port,
        "current_network_interface"@,
        bound_to(config, interface),
    );
    let form = seq![("json"@, payload)];
    let reply = choose|reply: AppResult<HttpResponse>| #[trigger]
        asked(
            v,
            after,
            SET_PREFERENCES_PATH@,
            Some(
                json_form(
                    crate::portforward::qbittorrent::port_payload_of(port, after.target(interface)),
                ),
            ),
            reply,
        ) && crate::portforward::qbittorrent::port_set(port, reply, changed);
    assert(v.len() == 1);
    assert(v[0] == t.last());
    lemma_trimmed_base(config.url@);
    let base = trimmed_end_of(config.url@, '/');
    reveal_strlit("api/v2/app/setPreferences");
    reveal_strlit("/api/v2/app/setPreferences");
    reveal_strlit("/");
    assert(trimmed_start_of(SET_PREFERENCES_PATH@, '/') == SET_PREFERENCES_PATH@);
    assert(after.url(SET_PREFERENCES_PATH@) =~= base + "/api/v2/app/setPreferences"@);
    lemma_posts(after.timeout_ms, base + "/api/v2/app/setPreferences"@, form, after.cookie, 0);
    assert(is_base_of(base, config.url@));
}

/// Where settings have a user and a password, the first request of a
/// synchronization logs in with them.
pub proof fn law_sync_logs_in_first(
    t: Seq<Exchange>,
    config: QBittorrentConfig,
    after: ClientView,
    port: u16,
    interface: Option<Seq<char>>,
    r: AppResult<QBittorrentSyncReport>,
)
    requires
        sync_run(t, fresh_client(config), after, port, interface, r),
        config.username is Some,
        trimmed(config.username->0@).len() > 0,
        config.password is Some,
        config.password->0@.len() > 0,
    ensures
        exists|base: Seq<char>| #[trigger]
            is_base_of(base, config.url@) && t.len() > 0 && posts(
                t[0].0,
                base + "/api/v2/auth/login"@,
                "username"@,
                config.username->0@,
            ) && posts(t[0].0, base + "/api/v2/auth/login"@, "password"@, config.password->0@),
{
    let a = fresh_client(config);
    let (n, m, c, d, version, preferences, changed) = choose|
        n: int,
        m: int,
        c: ClientView,
        d: ClientView,
        version: AppResult<String>,
        preferences: AppResult<QBittorrentPreferences>,
        changed: AppResult<()>,
    |
        0 <= n <= m <= t.len() && #[trigger] version_run(t.take(n), a, c, version)
            && #[trigger] preferences_run(t.subrange(n, m), c, d, preferences)
            && #[trigger] port_run(t.skip(m), d, after, port, interface, changed) && match changed {
            Err(e) => r == Err::<QBittorrentSyncReport, crate::error::AppError>(e),
            Ok(_) => r matches Ok(report) && crate::portforward::qbittorrent::synced(
                version,
                preferences,
                port,
                after.target(interface),
                report,
            ),
        };
    let u = t.take(n);
    let (k, e, opened) = choose|k: int, e: ClientView, opened: AppResult<()>|
        0 <= k <= u.len() && #[trigger] authenticated(u.take(k), a, e, opened) && match opened {
            Err(x) => u.len() == k && c == e && version == Err::<String, crate::error::AppError>(x),
            Ok(_) => version_asked(u.skip(k), e, c, version),
        };
    assert(logged_in(u.take(k), a, e, opened));
    let form = login_form(config.username->0@, config.password->0@);
    let reply = choose|reply: AppResult<HttpResponse>| #[trigger]
        asked(u.take(k), a, LOGIN_PATH@, Some(form), reply)
            && crate::portforward::qbittorrent::login_outcome(a, reply, e, opened);
    assert(u.take(k).len() == 1);
    assert(u.take(k)[0] == t[0]);
    lemma_trimmed_base(config.url@);
    let base = trimmed_end_of(config.url@, '/');
    reveal_strlit("api/v2/auth/login");
    reveal_strlit("/api/v2/auth/login");
    reveal_strlit("/");
    assert(trimmed_start_of(LOGIN_PATH@, '/') == LOGIN_PATH@);
    assert(a.url(LOGIN_PATH@) =~= base + "/api/v2/auth/login"@);
    lemma_posts(a.timeout_ms, base + "/api/v2/auth/login"@, form, a.cookie, 0);
    lemma_posts(a.timeout_ms, base + "/api/v2/auth/login"@, form, a.cookie, 1);
    assert(is_base_of(base, config.url@));
}

// ---------------------------------------------------------------------------
// The session
// ---------------------------------------------------------------------------

/// A login is refused by the status or by the text that the WebUI refuses with, and
/// by nothing else; one that is not refused gives the session that its cookie names.
pub proof fn law_login(
    a: ClientView,
    reply: AppResult<HttpResponse>,
    b: ClientView,
    r: AppResult<()>,
)
    requires
        crate::portforward::qbittorrent::login_outcome(a, reply, b, r),
    ensures
        r is Ok <==> (reply matches Ok(resp) && resp.status != 403 && trimmed(resp.body@)
            != "Fails."@),
        r is Err ==> b == a,
        b.base_url == a.base_url && b.username == a.username && b.password == a.password
            && b.bind_interface == a.bind_interface && b.timeout_ms == a.timeout_ms,
{
}

/// The cookie of a session is the value behind `SID=` in the first cookie that the
/// WebUI sets, up to the semicolon that may follow.
pub proof fn law_session_cookie(
    headers: Seq<(Seq<char>, Seq<char>)>,
    value: Seq<char>,
    attributes: Seq<char>,
)
    requires
        headers.len() > 0,
        headers[0].0 == "set-cookie"@,
        headers[0].1 == seq!['S', 'I', 'D', '='] + value + attributes,
        value.len() > 0,
        !value.contains(';'),
        !is_space(value.last()),
        attributes.len() > 0 ==> attributes[0] == ';',
    ensures
        cookie_value(headers, "SID"@ + "="@, 0) == Some(value),
{
    let item = seq!['S', 'I', 'D', '='] + value;
    let all = item + attributes;
    reveal_strlit("SID");
    reveal_strlit("=");
    let prefix = "SID"@ + "="@;
    assert(prefix =~= seq!['S', 'I', 'D', '=']);
    assert(!seq!['S', 'I', 'D', '='].contains(';'));
    crate::ip::lemma_concat_plain(seq!['S', 'I', 'D', '='], value, ';');
    if attributes.len() > 0 {
        let more = attributes.skip(1);
        assert(all =~= item + seq![';'] + more);
        crate::ip::lemma_split_front(item, ';', more);
        assert((seq![item] + split_on(more, ';'))[0] == item);
    } else {
        assert(all =~= item);
        crate::ip::lemma_split_single(item, ';');
    }
    assert(item[0] == 'S' && item.last() == value.last());
    crate::text::lemma_trimmed_plain(item);
    assert(item.take(4) =~= prefix);
    assert(item.skip(4) =~= value);
    assert(split_on(headers[0].1, ';')[0] == item);
    assert(item_value(split_on(headers[0].1, ';'), prefix, 0) == Some(value));
}

/// Every request of a session carries its cookie, and none is sent with a cookie that
/// holds control characters.
pub proof fn law_requests_carry_the_session(
    t: Seq<Exchange>,
    c: ClientView,
    path: Seq<char>,
    form: Option<Seq<(Seq<char>, Seq<char>)>>,
    reply: AppResult<HttpResponse>,
)
    requires
        asked(t, c, path, form, reply),
        c.cookie is Some,
    ensures
        t.len() <= 1,
        t.len() == 1 ==> has_part(
            t[0].0,
            "header = "@ + curl_quoted("Cookie: SID="@ + c.cookie->0) + "\n"@,
        ) && t[0].1 == reply,
        t.len() == 0 ==> reply is Err,
{
    if t.len() == 1 {
        let line = "header = "@ + curl_quoted("Cookie: SID="@ + c.cookie->0) + "\n"@;
        let request = request_text(c.timeout_ms, c.url(path), form, c.cookie);
        let none = Seq::<char>::empty();
        let start = "silent\ninclude\nmax-time = "@ + crate::portforward::qbittorrent::curl_timeout(
            c.timeout_ms as nat,
        ) + "\nurl = "@ + curl_quoted(c.url(path)) + "\n"@ + (match form {
            Some(f) => "request = POST\n"@ + form_lines(f),
            None => Seq::empty(),
        });
        assert(request =~= start + line + none);
        lemma_part_of(request, start, line, none);
    }
}

} // verus!
