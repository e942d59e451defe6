use camera_box::auth::{Auth, SESSION_TTL};
use camera_box::camera::{AppState, CameraDevice, StreamRuntime};
use camera_box::config::Config;
use camera_box::web::{self, CameraStatus, StatusResponse};

fn app() -> AppState {
    let mut s = AppState::new(Config::default(), Some("box".to_string()));
    s.handle_add(CameraDevice { path: "/dev/video0".to_string(), name: None, mjpeg: true });
    s.handle_add(CameraDevice {
        path: "/dev/video2".to_string(),
        name: Some("<Cam> & \"Co\"".to_string()),
        mjpeg: false,
    });
    s.handle_remove("/dev/video0");
    s
}

fn runtimes() -> Vec<StreamRuntime> {
    vec![
        StreamRuntime { running: false, pid: None, restarts: 0 },
        StreamRuntime { running: true, pid: Some(77), restarts: 1 },
    ]
}

#[test]
fn the_status_lists_the_cameras() {
    let s = web::build_status(&app(), &runtimes(), 61, None);
    assert_eq!(s.hostname, "box");
    assert_eq!(s.ip_address, "192.168.4.1");
    assert_eq!(s.uptime, 61);
    assert_eq!(s.cameras.len(), 1);
    let c = &s.cameras[0];
    assert_eq!(c.slot, 1);
    assert_eq!(c.device_path, "/dev/video2");
    assert_eq!(c.stream_url, "http://192.168.4.1:8081/stream");
    assert_eq!(c.port, 8081);
    assert!(c.running);
    assert_eq!(c.pid, Some(77));
}

#[test]
fn urls_use_the_address_of_the_client() {
    let s = web::build_status(&app(), &runtimes(), 0, Some("camera-box.local".to_string()));
    assert_eq!(s.ip_address, "camera-box.local");
    assert_eq!(s.cameras[0].stream_url, "http://camera-box.local:8081/stream");
    let host = |h: &str| web::host_for(Some(h.to_string()), "fallback");
    assert_eq!(host("10.0.0.1:80"), "10.0.0.1");
    assert_eq!(host("[fe80::1]:8080"), "[fe80::1]");
    assert_eq!(host("[fe80::1]"), "[fe80::1]");
    assert_eq!(host(""), "fallback");
    assert_eq!(host(":80"), "fallback");
    assert_eq!(web::host_for(None, "fallback"), "fallback");
}

#[test]
fn markup_is_escaped() {
    assert_eq!(web::html_escape("<a href=\"x\">&amp;'"), "&lt;a href=&quot;x&quot;&gt;&amp;amp;'");
    assert_eq!(web::html_escape(""), "");
    let joined = web::html_escape("a<&b");
    assert_eq!(joined, web::html_escape("a<") + &web::html_escape("&b"));
}

#[test]
fn times_as_text() {
    assert_eq!(web::format_uptime(0), "0m 0s");
    assert_eq!(web::format_uptime(61), "1m 1s");
    assert_eq!(web::format_uptime(3_600), "1h 0m 0s");
    assert_eq!(web::format_uptime(86_399), "23h 59m 59s");
    assert_eq!(web::format_uptime(90_061), "1d 1h 1m");
}

#[test]
fn the_page_without_cameras() {
    let s = StatusResponse {
        hostname: "a&b".to_string(),
        ip_address: "10.0.0.1".to_string(),
        uptime: 5,
        cameras: Vec::new(),
    };
    let page = web::render_index(&s);
    assert!(page.starts_with("<!DOCTYPE html>\n<html lang=\"en\">\n<head>\n"));
    assert!(page.contains("<header>\n<h1>camera-box</h1>\n<div class=\"meta\">Device <b>a&amp;b</b> &middot; IP <b>10.0.0.1</b> &middot; Uptime 0m 5s &middot; 0 camera(s)</div>\n</header>\n<main>\n<table>\n<thead><tr><th>Slot</th><th>Name</th><th>Device</th><th>Stream URL</th><th>Stream</th><th>PID</th></tr></thead>\n<tbody>\n<tr><td colspan=\"6\" class=\"empty\">No cameras connected</td></tr></tbody>\n</table>\n</main>\n<footer>Auto-refreshes every 5s &middot; <a href=\"/api/status\">/api/status</a> &middot; <a href=\"/api/version\">/api/version</a></footer>\n</body>\n</html>"));
}

#[test]
fn the_rows_of_the_page() {
    let camera = |running: bool, pid: Option<u32>, name: Option<&str>| CameraStatus {
        slot: 1,
        device_path: "/dev/video2".to_string(),
        name: name.map(|s| s.to_string()),
        stream_url: "http://h:8081/stream".to_string(),
        port: 8081,
        running,
        pid,
    };
    let s = StatusResponse {
        hostname: "h".to_string(),
        ip_address: "i".to_string(),
        uptime: 0,
        cameras: vec![camera(true, Some(7), Some("<x>")), camera(false, None, None)],
    };
    let page = web::render_index(&s);
    assert!(page.contains("2 camera(s)"));
    assert!(page.contains("<tbody>\n<tr><td>cam1</td><td>&lt;x&gt;</td><td><code>/dev/video2</code></td><td><a href=\"http://h:8081/stream\">http://h:8081/stream</a></td><td><span class=\"ok\">running</span></td><td>7</td></tr><tr><td>cam1</td><td>Unknown</td><td><code>/dev/video2</code></td><td><a href=\"http://h:8081/stream\">http://h:8081/stream</a></td><td><span class=\"down\">stopped</span></td><td>-</td></tr></tbody>"));
}

#[test]
fn only_the_login_needs_no_session() {
    let (mut login, _) = Auth::load(None, &[1; 16]);
    let token = login.login("admin", "password", &[0xab; 16], 0).unwrap();
    let cookie = format!("session={token}");
    assert!(web::admits(&mut login, "GET", "/login", None, 0));
    assert!(web::admits(&mut login, "POST", "/api/login", None, 0));
    for (method, path) in [
        ("GET", "/"),
        ("GET", "/api/status"),
        ("POST", "/api/update"),
        ("POST", "/login"),
        ("GET", "/api/login"),
        ("GET", "/login/"),
    ] {
        assert!(!web::admits(&mut login, method, path, None, 0));
        assert!(!web::admits(&mut login, method, path, Some("session=00".to_string()), 0));
        assert!(web::admits(&mut login, method, path, Some(cookie.clone()), 0));
    }
    login.logout(&token);
    assert!(!web::admits(&mut login, "GET", "/", Some(cookie), 0));
}

#[test]
fn a_session_ends_after_its_time() {
    let (mut login, _) = Auth::load(None, &[1; 16]);
    login.login("admin", "password", &[0xab; 16], 0);
    let cookie = || Some(format!("session={}", "ab".repeat(16)));
    assert!(web::admits(&mut login, "GET", "/", cookie(), SESSION_TTL - 1));
    assert!(!web::admits(&mut login, "GET", "/", cookie(), SESSION_TTL));
    assert!(!web::admits(&mut login, "GET", "/", cookie(), 0));
}

#[test]
fn session_cookies_read_back() {
    let cookie = web::session_cookie("00ff");
    assert_eq!(cookie, "session=00ff; HttpOnly; Path=/");
    assert_eq!(web::session_token("session=00ff"), Some("00ff".to_string()));
    assert_eq!(web::session_token("a=b; session=00ff; c=d"), Some("00ff".to_string()));
    assert_eq!(web::session_token("sessions=1"), None);
    assert_eq!(web::session_token(""), None);
}
