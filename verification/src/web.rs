//! The web layer: the status of the box, its landing page, and who may ask for
//! what.

use vstd::prelude::*;
use vstd::string::*;

use crate::auth;
use crate::camera;
use crate::numeral;
use crate::text;

verus! {

// ---------------------------------------------------------------------------
// API model
// ---------------------------------------------------------------------------

#[derive(Debug)]
pub struct StatusResponse {
    pub hostname: String,
    pub ip_address: String,
    /// Daemon uptime in seconds.
    pub uptime: u64,
    pub cameras: Vec<CameraStatus>,
}

#[derive(Debug)]
pub struct CameraStatus {
    pub slot: usize,
    pub device_path: String,
    pub name: Option<String>,
    pub stream_url: String,
    pub port: u16,
    pub running: bool,
    pub pid: Option<u32>,
}

/// The values of a [`CameraStatus`].
#[verifier::ext_equal]
pub struct CameraStatusView {
    pub slot: usize,
    pub device_path: Seq<char>,
    pub name: Option<Seq<char>>,
    pub stream_url: Seq<char>,
    pub port: u16,
    pub running: bool,
    pub pid: Option<u32>,
}

impl View for CameraStatus {
    type V = CameraStatusView;

    open spec fn view(&self) -> CameraStatusView {
        CameraStatusView {
            slot: self.slot,
            device_path: self.device_path@,
            name: text::opt_text(self.name),
            stream_url: self.stream_url@,
            port: self.port,
            running: self.running,
            pid: self.pid,
        }
    }
}

/// The values of a list of camera statuses.
pub open spec fn camera_views(v: Seq<CameraStatus>) -> Seq<CameraStatusView> {
    Seq::new(v.len(), |i: int| v[i]@)
}

/// The values of a [`StatusResponse`].
#[verifier::ext_equal]
pub struct StatusView {
    pub hostname: Seq<char>,
    pub ip_address: Seq<char>,
    pub uptime: u64,
    pub cameras: Seq<CameraStatusView>,
}

impl View for StatusResponse {
    type V = StatusView;

    open spec fn view(&self) -> StatusView {
        StatusView {
            hostname: self.hostname@,
            ip_address: self.ip_address@,
            uptime: self.uptime,
            cameras: camera_views(self.cameras@),
        }
    }
}

// ---------------------------------------------------------------------------
// Status
// ---------------------------------------------------------------------------

/// A `Host` header without its port.
pub open spec fn without_port(header: Seq<char>) -> Seq<char> {
    match text::rsplit_once(header, ':') {
        Some((host, port)) => if numeral::all_digits(port) {
            host
        } else {
            header
        },
        None => header,
    }
}

/// The address that the client connected with; `fallback` where its request does
/// not tell.
pub open spec fn address(header: Option<Seq<char>>, fallback: Seq<char>) -> Seq<char> {
    match header {
        Some(h) => if without_port(h).len() > 0 {
            without_port(h)
        } else {
            fallback
        },
        None => fallback,
    }
}

fn digits_only(s: &str) -> (r: bool)
    ensures
        r == numeral::all_digits(s@),
{
    let cs = text::chars_of(s);
    let mut i: usize = 0;
    while i < cs.len()
        invariant
            i <= cs@.len(),
            cs@ == s@,
            forall|j: int| 0 <= j < i ==> numeral::is_digit(#[trigger] s@[j]),
        decreases cs.len() - i,
    {
        let c = cs[i];
        if !('0' <= c && c <= '9') {
            assert(!numeral::is_digit(s@[i as int]));
            return false;
        }
        i += 1;
    }
    true
}

/// The host for URLs: what the request's `Host` header names, without a port; the
/// configured address where there is no such header.
pub fn host_for(header: Option<String>, fallback: &str) -> (r: String)
    ensures
        r@ == address(text::opt_text(header), fallback@),
{
    match header {
        Some(h) => {
            let host = match text::cut_last(h.as_str(), ':') {
                Some((host, port)) => if digits_only(port.as_str()) {
                    host
                } else {
                    h
                },
                None => h,
            };
            if host.as_str().is_empty() {
                fallback.to_string()
            } else {
                host
            }
        },
        None => fallback.to_string(),
    }
}

/// Where the stream on a port is found.
pub open spec fn url_of(host: Seq<char>, port: u16) -> Seq<char> {
    "http://"@ + host + ":"@ + numeral::decimal(port as nat) + "/stream"@
}

pub fn stream_url(host: &str, port: u16) -> (r: String)
    ensures
        r@ == url_of(host@, port),
{
    let mut u = "http://".to_string();
    u.append(host);
    u.append(":");
    numeral::push_decimal(&mut u, port as u64);
    u.append("/stream");
    u
}

/// The status of the camera in a slot.
pub open spec fn camera_status(
    index: int,
    slot: camera::SlotView,
    runtime: camera::StreamRuntime,
    host: Seq<char>,
) -> CameraStatusView {
    CameraStatusView {
        slot: index as usize,
        device_path: slot.device.path,
        name: slot.device.name,
        stream_url: url_of(host, slot.port),
        port: slot.port,
        running: runtime.running,
        pid: runtime.pid,
    }
}

/// The status of every occupied slot, in the order of the slots.
pub open spec fn camera_statuses(
    slots: Seq<Option<camera::SlotView>>,
    runtimes: Seq<camera::StreamRuntime>,
    host: Seq<char>,
) -> Seq<CameraStatusView>
    decreases slots.len(),
{
    if slots.len() == 0 {
        Seq::empty()
    } else {
        let rest = camera_statuses(slots.drop_last(), runtimes, host);
        let index = slots.len() - 1;
        match slots.last() {
            Some(slot) => rest.push(camera_status(index, slot, runtimes[index], host)),
            None => rest,
        }
    }
}

fn copy_name(name: &Option<String>) -> (r: Option<String>)
    ensures
        text::opt_text(r) == text::opt_text(*name),
{
    match name {
        Some(n) => Some(n.clone()),
        None => None,
    }
}

/// Snapshot the shared state into a status response: `runtimes` are those of the
/// streams in the slots, `host` is the `Host` header of the request.
pub fn build_status(
    state: &camera::AppState,
    runtimes: &Vec<camera::StreamRuntime>,
    uptime: u64,
    host: Option<String>,
) -> (r: StatusResponse)
    requires
        runtimes@.len() == state.slots@.len(),
    ensures
        r@ == (StatusView {
            hostname: state@.hostname,
            ip_address: address(text::opt_text(host), state.config.device_ip@),
            uptime,
            cameras: camera_statuses(
                state@.slots,
                runtimes@,
                address(text::opt_text(host), state.config.device_ip@),
            ),
        }),
{
    let host = host_for(host, state.config.device_ip.as_str());
    let mut cameras: Vec<CameraStatus> = Vec::new();
    let mut i: usize = 0;
    let ghost slots = state@.slots;
    assert(camera_views(cameras@) =~= camera_statuses(slots.take(0), runtimes@, host@));
    while i < state.slots.len()
        invariant
            i <= state.slots@.len(),
            runtimes@.len() == state.slots@.len(),
            slots == state@.slots,
            camera_views(cameras@) == camera_statuses(slots.take(i as int), runtimes@, host@),
        decreases state.slots.len() - i,
    {
        assert(slots.take(i + 1).drop_last() =~= slots.take(i as int));
        if let Some(s) = &state.slots[i] {
            let runtime = runtimes[i];
            let c = CameraStatus {
                slot: i,
                device_path: s.device.path.clone(),
                name: copy_name(&s.device.name),
                stream_url: stream_url(host.as_str(), s.port),
                port: s.port,
                running: runtime.running,
                pid: runtime.pid,
            };
            let ghost before = cameras@;
            assert(c@ =~= camera_status(i as int, s@, runtime, host@));
            cameras.push(c);
            assert(camera_views(cameras@) =~= camera_views(before).push(c@));
        }
        i += 1;
    }
    assert(slots.take(i as int) =~= slots);
    StatusResponse { hostname: state.hostname.clone(), ip_address: host, uptime, cameras }
}

// ---------------------------------------------------------------------------
// Sessions
// ---------------------------------------------------------------------------

/// May a request be made without a session? Only what it takes to log in.
pub open spec fn is_public(method: Seq<char>, path: Seq<char>) -> bool {
    (method == "GET"@ && path == "/login"@) || (method == "POST"@ && path == "/api/login"@)
}

/// The first of the cookies that is the session's: its token.
pub open spec fn token_among(cookies: Seq<Seq<char>>) -> Option<Seq<char>>
    decreases cookies.len(),
{
    if cookies.len() == 0 {
        None
    } else {
        match text::strip_prefix(text::trim(cookies[0]), "session="@) {
            Some(token) => Some(token),
            None => token_among(cookies.drop_first()),
        }
    }
}

/// The session token in a `Cookie` header.
pub fn session_token(header: &str) -> (r: Option<String>)
    ensures
        text::opt_text(r) == token_among(text::split(header@, ";"@)),
{
    let list = text::pieces(header, ";");
    let ghost all = text::split(header@, ";"@);
    let mut i: usize = 0;
    assert(all.skip(0) =~= all);
    while i < list.len()
        invariant
            i <= list@.len(),
            text::texts(list@) == all,
            all == text::split(header@, ";"@),
            token_among(all) == token_among(all.skip(i as int)),
        decreases list.len() - i,
    {
        assert(all[i as int] == list@[i as int]@);
        assert(all.skip(i as int)[0] == all[i as int]);
        let cookie = text::trimmed(list[i].as_str());
        if let Some(token) = text::after_prefix(cookie.as_str(), "session=") {
            return Some(token);
        }
        assert(all.skip(i as int).drop_first() =~= all.skip(i + 1));
        i += 1;
    }
    None
}

/// The session token that a request carries.
pub open spec fn token_in(cookie: Option<Seq<char>>) -> Option<Seq<char>> {
    match cookie {
        Some(header) => token_among(text::split(header, ";"@)),
        None => None,
    }
}

/// Does a request with this cookie belong to a session that is open at `now`?
pub open spec fn in_session(
    sessions: Map<Seq<char>, u64>,
    cookie: Option<Seq<char>>,
    now: u64,
) -> bool {
    match token_in(cookie) {
        Some(token) => auth::live(sessions, now).contains_key(token),
        None => false,
    }
}

/// Is the request to be served? All routes require a session except those that it
/// takes to log in. `cookie` is the request's `Cookie` header.
pub fn admits(
    login: &mut auth::Auth,
    method: &str,
    path: &str,
    cookie: Option<String>,
    now: u64,
) -> (r: bool)
    ensures
        final(login)@.creds == old(login)@.creds,
        final(login)@.sessions == (if token_in(text::opt_text(cookie)) is Some {
            auth::live(old(login)@.sessions, now)
        } else {
            old(login)@.sessions
        }),
        r == (is_public(method@, path@) || in_session(
            old(login)@.sessions,
            text::opt_text(cookie),
            now,
        )),
{
    let token = match cookie {
        Some(header) => session_token(header.as_str()),
        None => None,
    };
    let session: bool = match token {
        Some(token) => login.validate(token.as_str(), now),
        None => false,
    };
    session || (text::same(method, "GET") && text::same(path, "/login")) || (text::same(
        method,
        "POST",
    ) && text::same(path, "/api/login"))
}

/// The `Set-Cookie` header that starts a session; scripts cannot read the cookie.
pub fn session_cookie(token: &str) -> (r: String)
    ensures
        r@ == "session="@ + token@ + "; HttpOnly; Path=/"@,
{
    let mut c = "session=".to_string();
    c.append(token);
    c.append("; HttpOnly; Path=/");
    c
}

// ---------------------------------------------------------------------------
// Minimal server-rendered HTML (no frontend framework, auto-refreshing)
// ---------------------------------------------------------------------------

/// What stands for a character in HTML.
pub open spec fn escaped(c: char) -> Seq<char> {
    if c == '&' {
        "&amp;"@
    } else if c == '<' {
        "&lt;"@
    } else if c == '>' {
        "&gt;"@
    } else if c == '"' {
        "&quot;"@
    } else {
        seq![c]
    }
}

/// A text as it stands in HTML.
pub open spec fn escape(s: Seq<char>) -> Seq<char>
    decreases s.len(),
{
    if s.len() == 0 {
        Seq::empty()
    } else {
        escape(s.drop_last()) + escaped(s.last())
    }
}

pub fn html_escape(s: &str) -> (r: String)
    ensures
        r@ == escape(s@),
{
    let cs = text::chars_of(s);
    let mut r = String::new();
    let mut i: usize = 0;
    while i < cs.len()
        invariant
            i <= cs@.len(),
            cs@ == s@,
            r@ == escape(s@.take(i as int)),
        decreases cs.len() - i,
    {
        let c = cs[i];
        assert(s@.take(i + 1).drop_last() =~= s@.take(i as int));
        if c == '&' {
            r.append("&amp;");
        } else if c == '<' {
            r.append("&lt;");
        } else if c == '>' {
            r.append("&gt;");
        } else if c == '"' {
            r.append("&quot;");
        } else {
            let ghost before = r@;
            r.push(c);
            assert(r@ =~= before + seq![c]);
        }
        i += 1;
    }
    assert(s@.take(i as int) =~= s@);
    r
}

/// A time in days, hours, minutes and seconds.
pub open spec fn time_parts(secs: nat) -> (nat, nat, nat, nat) {
    (secs / 86_400, (secs % 86_400) / 3_600, (secs % 3_600) / 60, secs % 60)
}

/// A time as text: the three greatest of its parts that say something.
pub open spec fn uptime_text(secs: nat) -> Seq<char> {
    let (days, hours, mins, s) = time_parts(secs);
    if days > 0 {
        numeral::decimal(days) + "d "@ + numeral::decimal(hours) + "h "@ + numeral::decimal(mins)
            + "m"@
    } else if hours > 0 {
        numeral::decimal(hours) + "h "@ + numeral::decimal(mins) + "m "@ + numeral::decimal(s)
            + "s"@
    } else {
        numeral::decimal(mins) + "m "@ + numeral::decimal(s) + "s"@
    }
}

pub fn format_uptime(secs: u64) -> (r: String)
    ensures
        r@ == uptime_text(secs as nat),
{
    let days: u64 = secs / 86_400;
    let hours: u64 = (secs % 86_400) / 3_600;
    let mins: u64 = (secs % 3_600) / 60;
    let s: u64 = secs % 60;
    if days > 0 {
        let mut r = numeral::decimal_of(days);
        r.append("d ");
        numeral::push_decimal(&mut r, hours);
        r.append("h ");
        numeral::push_decimal(&mut r, mins);
        r.append("m");
        r
    } else if hours > 0 {
        let mut r = numeral::decimal_of(hours);
        r.append("h ");
        numeral::push_decimal(&mut r, mins);
        r.append("m ");
        numeral::push_decimal(&mut r, s);
        r.append("s");
        r
    } else {
        let mut r = numeral::decimal_of(mins);
        r.append("m ");
        numeral::push_decimal(&mut r, s);
        r.append("s");
        r
    }
}

/// The head of the page: it is loaded again every five seconds.
pub const PAGE_HEAD: &'static str = "<!DOCTYPE html>
<html lang=\"en\">
<head>
<meta charset=\"utf-8\">
<meta name=\"viewport\" content=\"width=device-width, initial-scale=1\">
<meta http-equiv=\"refresh\" content=\"5\">
<title>camera-box</title>
";

/// How the page looks, and its beginning up to the line with the device.
pub const PAGE_STYLE: &'static str = "<style>
body{font-family:system-ui,Segoe UI,sans-serif;margin:0;background:#0f1115;color:#e6e6e6}
header{background:#171a21;padding:16px 20px;border-bottom:1px solid #2a2f3a}
h1{margin:0;font-size:18px;letter-spacing:.5px}
.meta{color:#9aa4b2;font-size:13px;margin-top:6px}
main{padding:20px}
table{border-collapse:collapse;width:100%;font-size:14px}
th,td{text-align:left;padding:9px 10px;border-bottom:1px solid #2a2f3a}
th{color:#9aa4b2;font-weight:600}
code{background:#1c2029;padding:2px 6px;border-radius:4px}
a{color:#5cb3ff;text-decoration:none}
a:hover{text-decoration:underline}
.ok{color:#46d369;font-weight:600}
.down{color:#ff5c5c;font-weight:600}
.empty{color:#9aa4b2;text-align:center;padding:26px}
footer{padding:12px 20px;color:#6b7280;font-size:12px;border-top:1px solid #2a2f3a}
</style>
</head>
<body>
<header>
<h1>camera-box</h1>
";

/// The head of the table.
pub const TABLE_HEAD: &'static str = "</header>\n<main>\n<table>\n<thead><tr><th>Slot</th><th>Name</th><th>Device</th><th>Stream URL</th><th>Stream</th><th>PID</th></tr></thead>\n<tbody>\n";

/// What follows the rows of the table.
pub const PAGE_FOOT: &'static str = "</tbody>\n</table>\n</main>\n<footer>Auto-refreshes every 5s &middot; <a href=\"/api/status\">/api/status</a> &middot; <a href=\"/api/version\">/api/version</a></footer>\n</body>\n</html>";

/// The row of the table where there are no cameras.
pub const EMPTY_ROW: &'static str = "<tr><td colspan=\"6\" class=\"empty\">No cameras connected</td></tr>";

/// How the state of a stream is shown.
pub open spec fn badge(running: bool) -> Seq<char> {
    if running {
        "<span class=\"ok\">running</span>"@
    } else {
        "<span class=\"down\">stopped</span>"@
    }
}

/// How a process is shown.
pub open spec fn pid_text(pid: Option<u32>) -> Seq<char> {
    match pid {
        Some(p) => numeral::decimal(p as nat),
        None => "-"@,
    }
}

/// How the name of a camera is shown.
pub open spec fn shown_name(name: Option<Seq<char>>) -> Seq<char> {
    match name {
        Some(n) => n,
        None => "Unknown"@,
    }
}

/// The row of a camera in the table.
pub open spec fn row(c: CameraStatusView) -> Seq<char> {
    "<tr><td>cam"@ + numeral::decimal(c.slot as nat) + "</td><td>"@ + escape(shown_name(c.name))
        + "</td><td><code>"@ + escape(c.device_path) + "</code></td><td><a href=\""@ + escape(
        c.stream_url,
    ) + "\">"@ + escape(c.stream_url) + "</a></td><td>"@ + badge(c.running) + "</td><td>"@
        + pid_text(c.pid) + "</td></tr>"@
}

/// The rows of the cameras, one after the other.
pub open spec fn rows(cameras: Seq<CameraStatusView>) -> Seq<char>
    decreases cameras.len(),
{
    if cameras.len() == 0 {
        Seq::empty()
    } else {
        rows(cameras.drop_last()) + row(cameras.last())
    }
}

/// The line with the device.
pub open spec fn meta(s: StatusView) -> Seq<char> {
    "<div class=\"meta\">Device <b>"@ + escape(s.hostname) + "</b> &middot; IP <b>"@ + escape(
        s.ip_address,
    ) + "</b> &middot; Uptime "@ + uptime_text(s.uptime as nat) + " &middot; "@
        + numeral::decimal(s.cameras.len()) + " camera(s)</div>\n"@
}

/// The landing page.
pub open spec fn page(s: StatusView) -> Seq<char> {
    PAGE_HEAD@ + PAGE_STYLE@ + meta(s) + TABLE_HEAD@ + (if s.cameras.len() == 0 {
        EMPTY_ROW@
    } else {
        rows(s.cameras)
    }) + PAGE_FOOT@
}

fn render_row(c: &CameraStatus) -> (r: String)
    ensures
        r@ == row(c@),
{
    let mut r = "<tr><td>cam".to_string();
    numeral::push_decimal(&mut r, c.slot as u64);
    r.append("</td><td>");
    match &c.name {
        Some(name) => r.append(html_escape(name.as_str()).as_str()),
        None => r.append(html_escape("Unknown").as_str()),
    }
    r.append("</td><td><code>");
    r.append(html_escape(c.device_path.as_str()).as_str());
    r.append("</code></td><td><a href=\"");
    let url = html_escape(c.stream_url.as_str());
    r.append(url.as_str());
    r.append("\">");
    r.append(url.as_str());
    r.append("</a></td><td>");
    if c.running {
        r.append("<span class=\"ok\">running</span>");
    } else {
        r.append("<span class=\"down\">stopped</span>");
    }
    r.append("</td><td>");
    match c.pid {
        Some(p) => numeral::push_decimal(&mut r, p as u64),
        None => r.append("-"),
    }
    r.append("</td></tr>");
    r
}

fn render_meta(s: &StatusResponse) -> (r: String)
    ensures
        r@ == meta(s@),
{
    let mut r = "<div class=\"meta\">Device <b>".to_string();
    r.append(html_escape(s.hostname.as_str()).as_str());
    r.append("</b> &middot; IP <b>");
    r.append(html_escape(s.ip_address.as_str()).as_str());
    r.append("</b> &middot; Uptime ");
    r.append(format_uptime(s.uptime).as_str());
    r.append(" &middot; ");
    numeral::push_decimal(&mut r, s.cameras.len() as u64);
    r.append(" camera(s)</div>\n");
    r
}

/// The landing page: the device and a table of its cameras.
pub fn render_index(s: &StatusResponse) -> (r: String)
    ensures
        r@ == page(s@),
{
    let mut table = String::new();
    let ghost cameras = s@.cameras;
    let mut i: usize = 0;
    while i < s.cameras.len()
        invariant
            i <= s.cameras@.len(),
            cameras == s@.cameras,
            table@ == rows(cameras.take(i as int)),
        decreases s.cameras.len() - i,
    {
        assert(cameras.take(i + 1).drop_last() =~= cameras.take(i as int));
        table.append(render_row(&s.cameras[i]).as_str());
        i += 1;
    }
    assert(cameras.take(i as int) =~= cameras);
    let mut r = PAGE_HEAD.to_string();
    r.append(PAGE_STYLE);
    r.append(render_meta(s).as_str());
    r.append(TABLE_HEAD);
    if s.cameras.len() == 0 {
        r.append(EMPTY_ROW);
    } else {
        r.append(table.as_str());
    }
    r.append(PAGE_FOOT);
    r
}

// ---------------------------------------------------------------------------
// Laws
// ---------------------------------------------------------------------------

/// Does an entity stand at `i`?
pub open spec fn entity_at(t: Seq<char>, i: int) -> bool {
    ||| "&amp;"@.is_prefix_of(t.skip(i))
    ||| "&lt;"@.is_prefix_of(t.skip(i))
    ||| "&gt;"@.is_prefix_of(t.skip(i))
    ||| "&quot;"@.is_prefix_of(t.skip(i))
}

proof fn lemma_entity_extends(t: Seq<char>, i: int, more: Seq<char>)
    requires
        0 <= i < t.len(),
        entity_at(t, i),
    ensures
        entity_at(t + more, i),
{
    assert((t + more).skip(i) =~= t.skip(i) + more);
}

/// An escaped text holds no markup: no angle bracket, no quote, and no ampersand
/// but at an entity.
pub proof fn an_escaped_text_holds_no_markup(s: Seq<char>, i: int)
    requires
        0 <= i < escape(s).len(),
    ensures
        escape(s)[i] != '<',
        escape(s)[i] != '>',
        escape(s)[i] != '"',
        escape(s)[i] == '&' ==> entity_at(escape(s), i),
    decreases s.len(),
{
    let front = escape(s.drop_last());
    let last = escaped(s.last());
    let t = escape(s);
    assert(t == front + last);
    if i < front.len() {
        an_escaped_text_holds_no_markup(s.drop_last(), i);
        if t[i] == '&' {
            lemma_entity_extends(front, i, last);
        }
    } else {
        reveal_strlit("&amp;");
        reveal_strlit("&lt;");
        reveal_strlit("&gt;");
        reveal_strlit("&quot;");
        assert(t[i] == last[i - front.len()]);
        if t[i] == '&' {
            assert(i == front.len());
            assert(t.skip(i) =~= last);
        }
    }
}

/// Escaping two texts one after the other is escaping the text that they make.
pub proof fn escaping_distributes_over_joining(a: Seq<char>, b: Seq<char>)
    ensures
        escape(a + b) == escape(a) + escape(b),
    decreases b.len(),
{
    if b.len() == 0 {
        assert(a + b =~= a);
    } else {
        escaping_distributes_over_joining(a, b.drop_last());
        assert((a + b).drop_last() =~= a + b.drop_last());
        assert(escape(a + b) =~= escape(a) + escape(b));
    }
}

/// The parts of a time add up to it, and each is less than the next greater unit.
#[verifier::spinoff_prover]
#[verifier::rlimit(50)]
pub proof fn the_parts_of_a_time_add_up(secs: nat)
    ensures
        ({
            let (days, hours, mins, s) = time_parts(secs);
            &&& days * 86_400 + hours * 3_600 + mins * 60 + s == secs
            &&& hours < 24
            &&& mins < 60
            &&& s < 60
        }),
{
    let n = secs as int;
    let (d, r) = (n / 86_400, n % 86_400);
    let (h, q) = (r / 3_600, r % 3_600);
    let (m, t) = (q / 60, q % 60);
    assert(n == 86_400 * d + r && r == 3_600 * h + q && q == 60 * m + t);
    vstd::arithmetic::div_mod::lemma_fundamental_div_mod_converse(n, 3_600, 24 * d + h, q);
    vstd::arithmetic::div_mod::lemma_fundamental_div_mod_converse(
        n,
        60,
        1_440 * d + 60 * h + m,
        t,
    );
}

/// The token of a session is read back from the cookie that the browser keeps of
/// it, alone or with others after it.
pub proof fn a_session_cookie_reads_back(bytes: Seq<u8>, others: Seq<char>)
    ensures
        token_among(text::split("session="@ + numeral::hex(bytes), ";"@)) == Some(
            numeral::hex(bytes),
        ),
        token_among(text::split("session="@ + numeral::hex(bytes) + ";"@ + others, ";"@)) == Some(
            numeral::hex(bytes),
        ),
{
    let token = numeral::hex(bytes);
    let name = "session="@;
    let seps = ";"@;
    reveal_strlit("session=");
    reveal_strlit(";");
    let cookie = name + token;
    assert forall|j: int| 0 <= j < cookie.len() implies !seps.contains(#[trigger] cookie[j])
        && !text::is_whitespace(cookie[j]) by {
        if j >= name.len() {
            assert(cookie[j] == token[j - name.len()]);
        } else {
            assert(cookie[j] == name[j]);
        }
    }
    text::lemma_find_unique(cookie, seps, cookie.len() as int);
    assert(text::split(cookie, seps)[0] == cookie);
    let header = cookie + ";"@ + others;
    assert(header[cookie.len() as int] == seps[0]);
    assert forall|j: int| 0 <= j < cookie.len() implies !seps.contains(#[trigger] header[j]) by {
        assert(header[j] == cookie[j]);
    }
    text::lemma_find_unique(header, seps, cookie.len() as int);
    assert(header.take(cookie.len() as int) =~= cookie);
    assert(text::split(header, seps)[0] == cookie);
    assert(!text::is_whitespace(cookie[0]));
    assert(!text::is_whitespace(cookie.last()));
    assert(text::trim(cookie) == cookie);
    assert(name.is_prefix_of(cookie));
    assert(cookie.skip(name.len() as int) =~= token);
}

/// From a login on, a request with its cookie belongs to a session for as long as
/// a session may last, and after the logout it does not.
pub proof fn a_login_opens_a_session(
    sessions: Map<Seq<char>, u64>,
    bytes: Seq<u8>,
    start: u64,
    now: u64,
)
    ensures
        ({
            let token = numeral::hex(bytes);
            let cookie = Some("session="@ + token);
            &&& in_session(sessions.insert(token, start), cookie, now) <==> auth::elapsed(
                start,
                now,
            ) < auth::SESSION_TTL
            &&& !in_session(sessions.remove(token), cookie, now)
        }),
{
    a_session_cookie_reads_back(bytes, Seq::empty());
}

/// Where no session is open, nothing is served but what it takes to log in,
/// whatever cookie a request carries.
pub proof fn without_a_session_only_the_login_is_served(
    method: Seq<char>,
    path: Seq<char>,
    cookie: Option<Seq<char>>,
    now: u64,
)
    ensures
        (is_public(method, path) || in_session(Map::empty(), cookie, now)) == ((method == "GET"@
            && path == "/login"@) || (method == "POST"@ && path == "/api/login"@)),
{
}

/// Every camera is listed once, with the slot that it holds: the listed slots are
/// the occupied ones, in ascending order.
pub proof fn the_status_lists_the_occupied_slots(
    slots: Seq<Option<camera::SlotView>>,
    runtimes: Seq<camera::StreamRuntime>,
    host: Seq<char>,
    i: int,
)
    requires
        slots.len() <= usize::MAX,
        0 <= i < slots.len(),
    ensures
        ({
            let list = camera_statuses(slots, runtimes, host);
            &&& slots[i] is Some == exists|k: int|
                0 <= k < list.len() && (#[trigger] list[k]).slot == i
            &&& forall|j: int, k: int|
                0 <= j < k < list.len() ==> (#[trigger] list[j]).slot < (#[trigger] list[k]).slot
            &&& forall|k: int| 0 <= k < list.len() ==> (#[trigger] list[k]).slot < slots.len()
        }),
    decreases slots.len(),
{
    let list = camera_statuses(slots, runtimes, host);
    let front = camera_statuses(slots.drop_last(), runtimes, host);
    if slots.len() > 1 {
        let before = if i < slots.len() - 1 {
            i
        } else {
            0
        };
        the_status_lists_the_occupied_slots(slots.drop_last(), runtimes, host, before);
    } else {
        assert(front.len() == 0);
    }
    assert forall|k: int| 0 <= k < front.len() implies list[k] == #[trigger] front[k] by {}
    if slots[i] is Some {
        if i < slots.len() - 1 {
            let k = choose|k: int| 0 <= k < front.len() && (#[trigger] front[k]).slot == i;
            assert(list[k].slot == i);
        } else {
            assert(list[list.len() - 1].slot == i);
        }
    }
}

/// The entry of an occupied slot says what is in it: the path, the name and the port of
/// its camera, where its stream is found, and whether its process runs and under which
/// id.
#[verifier::spinoff_prover]
#[verifier::rlimit(50)]
pub proof fn an_entry_is_that_of_its_camera(
    slots: Seq<Option<camera::SlotView>>,
    runtimes: Seq<camera::StreamRuntime>,
    host: Seq<char>,
    i: int,
    k: int,
)
    requires
        slots.len() <= usize::MAX,
        0 <= i < slots.len(),
        0 <= k < camera_statuses(slots, runtimes, host).len(),
        camera_statuses(slots, runtimes, host)[k].slot == i,
    ensures
        ({
            let entry = camera_statuses(slots, runtimes, host)[k];
            &&& slots[i] matches Some(s) && {
                &&& entry.device_path == s.device.path
                &&& entry.name == s.device.name
                &&& entry.port == s.port
                &&& entry.stream_url == "http://"@ + host + ":"@ + numeral::decimal(s.port as nat)
                    + "/stream"@
            }
            &&& entry.running == runtimes[i].running
            &&& entry.pid == runtimes[i].pid
        }),
    decreases slots.len(),
{
    let front = camera_statuses(slots.drop_last(), runtimes, host);
    let list = camera_statuses(slots, runtimes, host);
    if slots.len() > 1 && k < front.len() {
        assert(list[k] == front[k]);
        the_status_lists_the_occupied_slots(slots.drop_last(), runtimes, host, 0);
        assert(front[k].slot < slots.len() - 1);
        an_entry_is_that_of_its_camera(slots.drop_last(), runtimes, host, i, k);
        assert(slots.drop_last()[i] == slots[i]);
    } else {
        assert(k == list.len() - 1);
        assert(list[k].slot == slots.len() - 1);
    }
}

/// The host of a URL is the one that the client connected with: the `Host` header
/// without its port. A header of nothing but a port, or none at all, leaves the
/// configured address.
pub proof fn the_host_is_the_one_that_the_client_used(
    host: Seq<char>,
    port: nat,
    fallback: Seq<char>,
)
    requires
        host.len() > 0,
    ensures
        address(Some(host.push(':') + numeral::decimal(port)), fallback) == host,
        !host.contains(':') ==> address(Some(host), fallback) == host,
        host.last() == ']' ==> address(Some(host), fallback) == host,
        address(Some(seq![':'] + numeral::decimal(port)), fallback) == fallback,
        address(Some(Seq::<char>::empty()), fallback) == fallback,
        address(None, fallback) == fallback,
{
    let digits = numeral::decimal(port);
    numeral::decimal_reads_back(port);
    assert(!digits.contains(':')) by {
        if digits.contains(':') {
            let k = choose|k: int| 0 <= k < digits.len() && digits[k] == ':';
            assert(numeral::is_digit(digits[k]));
        }
    }
    let none = Seq::<char>::empty();
    text::the_last_separator_cuts(host, ':', digits);
    text::the_last_separator_cuts(none, ':', digits);
    assert(none.push(':') + digits =~= seq![':'] + digits);
    text::lemma_find_last(none, ':');
    if !host.contains(':') {
        text::the_last_separator_cuts(none, ':', host);
    }
    if host.last() == ']' {
        text::lemma_find_last(host, ':');
        let n = text::find_last(host, ':');
        if 0 <= n < host.len() {
            let behind = host.skip(n + 1);
            assert(host[n] == ':');
            assert(behind.last() == ']');
            assert(!numeral::is_digit(behind[behind.len() - 1]));
        }
    }
}

/// Escaping replaces the four characters that mean something in HTML by their entities
/// and leaves any other character as it is.
pub proof fn what_escaping_replaces(c: char)
    ensures
        c == '&' ==> escape(seq![c]) == "&amp;"@,
        c == '<' ==> escape(seq![c]) == "&lt;"@,
        c == '>' ==> escape(seq![c]) == "&gt;"@,
        c == '"' ==> escape(seq![c]) == "&quot;"@,
        c != '&' && c != '<' && c != '>' && c != '"' ==> escape(seq![c]) == seq![c],
        escape(Seq::<char>::empty()) == Seq::<char>::empty(),
{
    let one = seq![c];
    assert(one.drop_last() =~= Seq::<char>::empty());
    assert(one.last() == c);
    assert(escape(one.drop_last()) =~= Seq::<char>::empty());
    assert(escape(one) =~= escaped(c));
}

/// A time of less than an hour is shown in minutes and seconds, one of less than a day
/// with its hours before them, and a longer one in days, hours and minutes.
#[verifier::spinoff_prover]
#[verifier::rlimit(50)]
pub proof fn how_a_time_is_shown(days: nat, hours: nat, mins: nat, s: nat)
    requires
        hours < 24,
        mins < 60,
        s < 60,
    ensures
        ({
            let shown = uptime_text(days * 86_400 + hours * 3_600 + mins * 60 + s);
            let d = numeral::decimal(days);
            let h = numeral::decimal(hours);
            let m = numeral::decimal(mins);
            let t = numeral::decimal(s);
            &&& days == 0 && hours == 0 ==> shown == m + "m "@ + t + "s"@
            &&& days == 0 && hours > 0 ==> shown == h + "h "@ + m + "m "@ + t + "s"@
            &&& days > 0 ==> shown == d + "d "@ + h + "h "@ + m + "m"@
        }),
{
    let secs = days * 86_400 + hours * 3_600 + mins * 60 + s;
    let day = (hours * 3_600 + mins * 60 + s) as nat;
    let hour = (mins * 60 + s) as nat;
    vstd::arithmetic::div_mod::lemma_fundamental_div_mod_converse(
        secs as int,
        86_400,
        days as int,
        day as int,
    );
    vstd::arithmetic::div_mod::lemma_fundamental_div_mod_converse(
        day as int,
        3_600,
        hours as int,
        hour as int,
    );
    vstd::arithmetic::div_mod::lemma_fundamental_div_mod_converse(
        secs as int,
        3_600,
        (days * 24 + hours) as int,
        hour as int,
    );
    vstd::arithmetic::div_mod::lemma_fundamental_div_mod_converse(
        hour as int,
        60,
        mins as int,
        s as int,
    );
    vstd::arithmetic::div_mod::lemma_fundamental_div_mod_converse(
        secs as int,
        60,
        (days * 1_440 + hours * 60 + mins) as int,
        s as int,
    );
}

/// The session's cookie is found behind other cookies too.
#[verifier::spinoff_prover]
#[verifier::rlimit(50)]
pub proof fn a_session_cookie_is_found_among_others(
    other: Seq<char>,
    bytes: Seq<u8>,
    more: Seq<char>,
)
    requires
        !other.contains(';'),
        !"session="@.is_prefix_of(text::trim(other)),
    ensures
        token_among(text::split(other, ";"@)) is None,
        token_among(
            text::split(other.push(';') + (seq![' '] + ("session="@ + numeral::hex(bytes))), ";"@),
        ) == Some(numeral::hex(bytes)),
        token_in(None) is None,
        token_in(Some(other)) == token_among(text::split(other, ";"@)),
{
    let token = numeral::hex(bytes);
    let cookie = "session="@ + token;
    let spaced = seq![' '] + cookie;
    reveal_strlit(";");
    reveal_strlit("session=");
    assert(";"@ =~= seq![';']);
    assert(";"@[0] == ';');
    assert forall|i: int| 0 <= i < other.len() implies !";"@.contains(#[trigger] other[i]) by {
        assert(other.contains(other[i]));
    }
    assert forall|i: int| 0 <= i < spaced.len() implies !";"@.contains(#[trigger] spaced[i]) by {
        if i > 8 {
            assert(spaced[i] == token[i - 9]);
        } else if i > 0 {
            assert(spaced[i] == "session="@[i - 1]);
        }
    }
    text::splitting_cuts_at_every_separator(other, ';', spaced, ";"@);
    text::splitting_cuts_at_every_separator(spaced, ';', spaced, ";"@);
    let none = Seq::<char>::empty();
    assert(cookie[0] == 's');
    assert(!text::is_whitespace(cookie.last())) by {
        if token.len() > 0 {
            assert(cookie.last() == token.last());
        } else {
            assert(cookie.last() == "session="@[7]);
        }
    }
    assert(spaced =~= seq![' '] + cookie + none);
    text::trimming_takes_the_whitespace_at_both_ends(spaced, seq![' '], cookie, none);
    text::stripping_leaves_the_rest(cookie, "session="@, token);
    let list = text::split(other.push(';') + spaced, ";"@);
    assert(list =~= seq![other, spaced]);
    assert(list.drop_first() =~= seq![spaced]);
    assert(text::split(other, ";"@).drop_first() =~= Seq::<Seq<char>>::empty());
    reveal_with_fuel(token_among, 3);
}

#[verifier::spinoff_prover]
#[verifier::rlimit(50)]
proof fn lemma_inside(part: Seq<char>, s: Seq<char>, before: Seq<char>, behind: Seq<char>)
    requires
        text::occurs_in(part, s),
    ensures
        text::occurs_in(part, before + s + behind),
{
    text::what_it_is_to_occur(part, s, s, s);
    let i = choose|i: int|
        0 <= i <= s.len() - part.len() && #[trigger] s.subrange(i, i + part.len()) == part;
    let whole = before + s + behind;
    let a = before + s.take(i);
    let b = s.skip(i + part.len()) + behind;
    assert forall|k: int| 0 <= k < whole.len() implies #[trigger] whole[k] == (a + part + b)[k] by {
        let j = k - before.len();
        if i <= j < i + part.len() {
            assert(s.subrange(i, i + part.len())[j - i] == s[j]);
        }
    }
    assert(whole =~= a + part + b);
    text::what_it_is_to_occur(part, whole, a, b);
}

/// The first `n` of the parts, one after the other.
spec fn glued(parts: Seq<Seq<char>>, n: int) -> Seq<char>
    decreases n,
{
    if n <= 0 {
        Seq::empty()
    } else {
        glued(parts, n - 1) + parts[n - 1]
    }
}

proof fn lemma_glued_holds(part: Seq<char>, parts: Seq<Seq<char>>, m: int, n: int)
    requires
        0 <= m <= n,
        text::occurs_in(part, glued(parts, m)),
    ensures
        text::occurs_in(part, glued(parts, n)),
    decreases n,
{
    if m < n {
        lemma_glued_holds(part, parts, m, n - 1);
        let none = Seq::<char>::empty();
        let s = glued(parts, n - 1);
        lemma_inside(part, s, none, parts[n - 1]);
        assert(none + s + parts[n - 1] =~= s + parts[n - 1]);
    }
}

/// A part that begins in one of the parts, takes up the next, and ends in the one after
/// it.
proof fn lemma_spans_three(
    parts: Seq<Seq<char>>,
    m: int,
    n: int,
    open: Seq<char>,
    close: Seq<char>,
    lead: Seq<char>,
    rest: Seq<char>,
)
    requires
        1 <= m,
        m + 2 <= n,
        parts[m - 1] == lead + open,
        parts[m + 1] == close + rest,
    ensures
        text::occurs_in(open + parts[m] + close, glued(parts, n)),
{
    reveal_with_fuel(glued, 4);
    let q = glued(parts, m - 1);
    let x = parts[m];
    let whole = glued(parts, m + 2);
    assert(whole =~= (q + lead) + (open + x + close) + rest);
    text::what_it_is_to_occur(open + x + close, whole, q + lead, rest);
    lemma_glued_holds(open + x + close, parts, m + 2, n);
}

/// A whole part occurs in what the parts make.
proof fn lemma_holds_its_part(parts: Seq<Seq<char>>, m: int, n: int)
    requires
        0 <= m < n,
    ensures
        text::occurs_in(parts[m], glued(parts, n)),
{
    let q = glued(parts, m);
    let none = Seq::<char>::empty();
    assert(glued(parts, m + 1) =~= q + parts[m] + none);
    text::what_it_is_to_occur(parts[m], glued(parts, m + 1), q, none);
    lemma_glued_holds(parts[m], parts, m + 1, n);
}

/// The row of a camera shows its slot, its name, its device, where its stream is found
/// and that as a link, whether it runs, and under which id.
#[verifier::spinoff_prover]
#[verifier::rlimit(50)]
pub proof fn a_row_shows_its_camera(c: CameraStatusView)
    ensures
        ({
            let url = escape(c.stream_url);
            let name = match c.name {
                Some(n) => n,
                None => "Unknown"@,
            };
            &&& text::occurs_in("<td>cam"@ + numeral::decimal(c.slot as nat) + "</td>"@, row(c))
            &&& text::occurs_in("<td>"@ + escape(name) + "</td>"@, row(c))
            &&& text::occurs_in("<code>"@ + escape(c.device_path) + "</code>"@, row(c))
            &&& text::occurs_in("<a href=\""@ + url + "\">"@, row(c))
            &&& text::occurs_in("\">"@ + url + "</a>"@, row(c))
            &&& c.running ==> text::occurs_in("<span class=\"ok\">running</span>"@, row(c))
            &&& !c.running ==> text::occurs_in("<span class=\"down\">stopped</span>"@, row(c))
            &&& c.pid matches Some(p) ==> text::occurs_in(
                "<td>"@ + numeral::decimal(p as nat) + "</td>"@,
                row(c),
            )
            &&& c.pid is None ==> text::occurs_in("<td>"@ + "-"@ + "</td>"@, row(c))
        }),
{
    reveal_strlit("<tr><td>cam");
    reveal_strlit("<td>cam");
    reveal_strlit("</td><td>");
    reveal_strlit("<td>");
    reveal_strlit("</td>");
    reveal_strlit("</td><td><code>");
    reveal_strlit("<code>");
    reveal_strlit("</code>");
    reveal_strlit("</code></td><td><a href=\"");
    reveal_strlit("<a href=\"");
    reveal_strlit("\">");
    reveal_strlit("</a></td><td>");
    reveal_strlit("</a>");
    reveal_strlit("</td></tr>");
    let url = escape(c.stream_url);
    let parts = seq![
        "<tr><td>cam"@,
        numeral::decimal(c.slot as nat),
        "</td><td>"@,
        escape(shown_name(c.name)),
        "</td><td><code>"@,
        escape(c.device_path),
        "</code></td><td><a href=\""@,
        url,
        "\">"@,
        url,
        "</a></td><td>"@,
        badge(c.running),
        "</td><td>"@,
        pid_text(c.pid),
        "</td></tr>"@,
    ];
    assert(row(c) == glued(parts, 15)) by {
        reveal_with_fuel(glued, 16);
        assert(Seq::<char>::empty() + "<tr><td>cam"@ =~= "<tr><td>cam"@);
    }
    let none = Seq::<char>::empty();
    let (s0, s2, s4, s6, s8, s10, s12, s14) = (
        parts[0],
        parts[2],
        parts[4],
        parts[6],
        parts[8],
        parts[10],
        parts[12],
        parts[14],
    );
    assert(s0 =~= s0.take(4) + "<td>cam"@);
    assert(s2 =~= "</td>"@ + s2.skip(5));
    lemma_spans_three(parts, 1, 15, "<td>cam"@, "</td>"@, s0.take(4), s2.skip(5));
    assert(s2 =~= s2.take(5) + "<td>"@);
    assert(s4 =~= "</td>"@ + s4.skip(5));
    lemma_spans_three(parts, 3, 15, "<td>"@, "</td>"@, s2.take(5), s4.skip(5));
    assert(s4 =~= s4.take(9) + "<code>"@);
    assert(s6 =~= "</code>"@ + s6.skip(7));
    lemma_spans_three(parts, 5, 15, "<code>"@, "</code>"@, s4.take(9), s6.skip(7));
    assert(s6 =~= s6.take(16) + "<a href=\""@);
    assert(s8 =~= "\">"@ + none);
    lemma_spans_three(parts, 7, 15, "<a href=\""@, "\">"@, s6.take(16), none);
    assert(s8 =~= none + "\">"@);
    assert(s10 =~= "</a>"@ + s10.skip(4));
    lemma_spans_three(parts, 9, 15, "\">"@, "</a>"@, none, s10.skip(4));
    lemma_holds_its_part(parts, 11, 15);
    assert(s12 =~= s12.take(5) + "<td>"@);
    assert(s14 =~= "</td>"@ + s14.skip(5));
    lemma_spans_three(parts, 13, 15, "<td>"@, "</td>"@, s12.take(5), s14.skip(5));
}

proof fn lemma_rows_hold_each(cameras: Seq<CameraStatusView>, k: int)
    requires
        0 <= k < cameras.len(),
    ensures
        text::occurs_in(row(cameras[k]), rows(cameras)),
    decreases cameras.len(),
{
    let front = cameras.drop_last();
    let none = Seq::<char>::empty();
    let last = row(cameras.last());
    if k == cameras.len() - 1 {
        assert(rows(cameras) =~= rows(front) + last + none);
        text::what_it_is_to_occur(last, rows(cameras), rows(front), none);
    } else {
        lemma_rows_hold_each(front, k);
        assert(front[k] == cameras[k]);
        lemma_inside(row(cameras[k]), rows(front), none, last);
        assert(none + rows(front) + last =~= rows(cameras));
    }
}

/// The page shows the host name, the address, the uptime and how many cameras there are,
/// and the row of every camera; where there are none it says so.
#[verifier::spinoff_prover]
#[verifier::rlimit(50)]
pub proof fn the_page_shows_the_status(s: StatusView, k: int)
    ensures
        text::occurs_in("Device <b>"@ + escape(s.hostname) + "</b>"@, page(s)),
        text::occurs_in("IP <b>"@ + escape(s.ip_address) + "</b>"@, page(s)),
        text::occurs_in("Uptime "@ + uptime_text(s.uptime as nat) + " "@, page(s)),
        text::occurs_in(" "@ + numeral::decimal(s.cameras.len()) + " camera(s)"@, page(s)),
        0 <= k < s.cameras.len() ==> text::occurs_in(row(s.cameras[k]), page(s)),
        s.cameras.len() == 0 ==> text::occurs_in("No cameras connected"@, page(s)),
{
    reveal_strlit("<div class=\"meta\">Device <b>");
    reveal_strlit("Device <b>");
    reveal_strlit("</b> &middot; IP <b>");
    reveal_strlit("</b>");
    reveal_strlit("IP <b>");
    reveal_strlit("</b> &middot; Uptime ");
    reveal_strlit("Uptime ");
    reveal_strlit(" &middot; ");
    reveal_strlit(" ");
    reveal_strlit(" camera(s)</div>\n");
    reveal_strlit(" camera(s)");
    let parts = seq![
        "<div class=\"meta\">Device <b>"@,
        escape(s.hostname),
        "</b> &middot; IP <b>"@,
        escape(s.ip_address),
        "</b> &middot; Uptime "@,
        uptime_text(s.uptime as nat),
        " &middot; "@,
        numeral::decimal(s.cameras.len()),
        " camera(s)</div>\n"@,
    ];
    assert(meta(s) == glued(parts, 9)) by {
        reveal_with_fuel(glued, 10);
        assert(Seq::<char>::empty() + parts[0] =~= parts[0]);
    }
    let (s0, s2, s4, s6, s8) = (parts[0], parts[2], parts[4], parts[6], parts[8]);
    assert(s0 =~= s0.take(18) + "Device <b>"@);
    assert(s2 =~= "</b>"@ + s2.skip(4));
    lemma_spans_three(parts, 1, 9, "Device <b>"@, "</b>"@, s0.take(18), s2.skip(4));
    assert(s2 =~= s2.take(14) + "IP <b>"@);
    assert(s4 =~= "</b>"@ + s4.skip(4));
    lemma_spans_three(parts, 3, 9, "IP <b>"@, "</b>"@, s2.take(14), s4.skip(4));
    assert(s4 =~= s4.take(14) + "Uptime "@);
    assert(s6 =~= " "@ + s6.skip(1));
    lemma_spans_three(parts, 5, 9, "Uptime "@, " "@, s4.take(14), s6.skip(1));
    assert(s6 =~= s6.take(9) + " "@);
    assert(s8 =~= " camera(s)"@ + s8.skip(10));
    lemma_spans_three(parts, 7, 9, " "@, " camera(s)"@, s6.take(9), s8.skip(10));
    let table = if s.cameras.len() == 0 {
        EMPTY_ROW@
    } else {
        rows(s.cameras)
    };
    let m = meta(s);
    let head = PAGE_HEAD@ + PAGE_STYLE@;
    let tail = TABLE_HEAD@ + table + PAGE_FOOT@;
    assert(page(s) =~= head + m + tail);
    lemma_inside("Device <b>"@ + escape(s.hostname) + "</b>"@, m, head, tail);
    lemma_inside("IP <b>"@ + escape(s.ip_address) + "</b>"@, m, head, tail);
    lemma_inside("Uptime "@ + uptime_text(s.uptime as nat) + " "@, m, head, tail);
    lemma_inside(" "@ + numeral::decimal(s.cameras.len()) + " camera(s)"@, m, head, tail);
    let lead = head + m + TABLE_HEAD@;
    assert(page(s) =~= lead + table + PAGE_FOOT@);
    if 0 <= k < s.cameras.len() {
        lemma_rows_hold_each(s.cameras, k);
        lemma_inside(row(s.cameras[k]), table, lead, PAGE_FOOT@);
    }
    if s.cameras.len() == 0 {
        lemma_empty_row();
        lemma_inside("No cameras connected"@, table, lead, PAGE_FOOT@);
    }
}

proof fn lemma_empty_row()
    ensures
        text::occurs_in("No cameras connected"@, EMPTY_ROW@),
{
    reveal_strlit("No cameras connected");
    reveal_strlit("<tr><td colspan=\"6\" class=\"empty\">No cameras connected</td></tr>");
    let e = EMPTY_ROW@;
    assert(e =~= e.take(34) + "No cameras connected"@ + e.skip(54));
    text::what_it_is_to_occur("No cameras connected"@, e, e.take(34), e.skip(54));
}

/// A request belongs to a session exactly where its cookie has the token of one that
/// started less than twelve hours ago.
pub proof fn which_requests_belong_to_a_session(
    sessions: Map<Seq<char>, u64>,
    cookie: Option<Seq<char>>,
    now: u64,
)
    ensures
        in_session(sessions, cookie, now) <==> (token_in(cookie) matches Some(token)
            && sessions.contains_key(token) && (now < sessions[token] || now - sessions[token] < 12
            * 3600 * 1_000_000_000)),
{
}

/// The page is titled with the program's name and asks the browser to load it again every
/// five seconds.
#[verifier::spinoff_prover]
#[verifier::rlimit(50)]
pub proof fn the_page_refreshes_itself(s: StatusView)
    ensures
        text::occurs_in("<meta http-equiv=\"refresh\" content=\"5\">\n<title>camera-box</title>"@, page(s)),
{
    let part = "<meta http-equiv=\"refresh\" content=\"5\">\n<title>camera-box</title>"@;
    reveal_strlit("<meta http-equiv=\"refresh\" content=\"5\">\n<title>camera-box</title>");
    reveal_strlit("<!DOCTYPE html>
<html lang=\"en\">
<head>
<meta charset=\"utf-8\">
<meta name=\"viewport\" content=\"width=device-width, initial-scale=1\">
<meta http-equiv=\"refresh\" content=\"5\">
<title>camera-box</title>
");
    let head = PAGE_HEAD@;
    assert(head =~= head.take(132) + part + head.skip(197));
    text::what_it_is_to_occur(part, head, head.take(132), head.skip(197));
    let table = if s.cameras.len() == 0 {
        EMPTY_ROW@
    } else {
        rows(s.cameras)
    };
    let none = Seq::<char>::empty();
    let tail = PAGE_STYLE@ + meta(s) + TABLE_HEAD@ + table + PAGE_FOOT@;
    assert(page(s) =~= none + head + tail);
    lemma_inside(part, head, none, tail);
}

} // verus!
