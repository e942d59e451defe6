use camera_box::cli::{self, Invocation};
use camera_box::logs::{self, LineVisitor, CAPACITY};
use camera_box::steps::Step;
use camera_box::sys::{self, CounterFiles};

#[test]
fn the_model_of_the_board() {
    assert_eq!(sys::model(Some("Raspberry Pi Zero W\0".to_string())), "Raspberry Pi Zero W");
    assert_eq!(sys::model(Some(" \0".to_string())), "Unknown");
    assert_eq!(sys::model(None), "Unknown");
}

#[test]
fn the_uptime_field() {
    assert_eq!(sys::uptime_field(Some("12.5 3.2\n".to_string())), Some("12.5".to_string()));
    assert_eq!(sys::uptime_field(Some("".to_string())), None);
    assert_eq!(sys::uptime_field(None), None);
}

#[test]
fn memory_is_read_in_kilobytes() {
    let info = "MemTotal:         1000 kB\nMemFree: 1 kB\nMemAvailable:  400 kB\nMemTotal: 7 kB\n";
    assert!(!sys::mem_overflows(info));
    assert_eq!(sys::mem(info), (1_024_000, 614_400));
    assert_eq!(sys::mem("MemTotal: x\n"), (0, 0));
    assert_eq!(sys::mem("MemTotal: 1 kB\nMemAvailable: 2 kB"), (1024, 0));
    assert_eq!(sys::mem(""), (0, 0));
    assert!(sys::mem_overflows("MemTotal: 18446744073709551615 kB"));
}

#[test]
fn disk_space() {
    assert_eq!(sys::disk(100, 25, 4096), (409_600, 307_200));
    assert_eq!(sys::disk(1, 2, 10), (10, 0));
    assert!(sys::disk_overflows(u64::MAX, 1, 2));
    assert!(!sys::disk_overflows(100, 25, 4096));
}

#[test]
fn processor_times() {
    let stat = "cpu  10 20 30 40 5 x 6\ncpu0 1 1 1 1\n";
    let times = sys::cpu_line(Some(stat.to_string()));
    assert_eq!(times, [10, 20, 30, 40, 5, 6]);
    assert!(!sys::cpu_overflows(&times));
    assert_eq!(sys::cpu_times(&times), (45, 111));
    assert_eq!(sys::cpu_times(&vec![1, 2, 3, 4]), (4, 10));
    assert_eq!(sys::cpu_times(&sys::cpu_line(None)), (0, 0));
    assert_eq!(sys::cpu_line(Some("\n".to_string())).len(), 0);
    assert!(sys::cpu_overflows(&vec![u64::MAX, 1]));
    assert_eq!(sys::cpu_growth((40, 100), (45, 111)), (5, 11));
    assert_eq!(sys::cpu_growth((45, 111), (40, 100)), (0, 0));
}

fn files(iface: &str, rx: Option<&str>, tx: Option<&str>) -> CounterFiles {
    CounterFiles {
        iface: iface.to_string(),
        rx_bytes: rx.map(|s| s.to_string()),
        tx_bytes: tx.map(|s| s.to_string()),
    }
}

#[test]
fn the_loopback_is_not_counted() {
    let list = sys::net_counters(vec![
        files("wlan0", Some("12\n"), Some("34\n")),
        files("lo", Some("1"), Some("1")),
        files("eth0", Some("x"), None),
    ]);
    let seen: Vec<(String, u64, u64)> =
        list.into_iter().map(|c| (c.iface, c.rx_bytes, c.tx_bytes)).collect();
    assert_eq!(seen, [("eth0".to_string(), 0, 0), ("wlan0".to_string(), 12, 34)]);
}

#[test]
fn log_lines() {
    let mut layer = logs::init();
    assert_eq!(logs::snapshot(&layer).len(), 0);
    let mut v = LineVisitor::default();
    v.record_str("port", "8080");
    v.record_debug("message", "camera connected");
    v.record_debug("pid", "Some(7)");
    layer.on_event("12:00:00", "INFO", &v);
    assert_eq!(
        logs::snapshot(&layer),
        ["12:00:00  INFO camera connected port=8080 pid=Some(7)"]
    );
}

#[test]
fn the_log_buffer_keeps_the_latest_lines() {
    let mut layer = logs::init();
    for i in 0..CAPACITY + 3 {
        let mut v = LineVisitor::default();
        v.record_str("message", &format!("{i}"));
        layer.on_event("t", "ERROR", &v);
    }
    let lines = logs::snapshot(&layer);
    assert_eq!(lines.len(), 500);
    assert_eq!(lines[0], "t ERROR 3");
    assert_eq!(lines[499], "t ERROR 502");
}

fn call(args: &[&str]) -> Invocation {
    cli::invocation(&args.iter().map(|s| s.to_string()).collect())
}

#[test]
fn the_command_line() {
    assert!(matches!(call(&[]), Invocation::Serve));
    assert!(matches!(call(&["camera-box"]), Invocation::Serve));
    assert!(matches!(call(&["camera-box", "run"]), Invocation::Serve));
    for v in ["version", "--version", "-V"] {
        assert!(matches!(call(&["camera-box", v]), Invocation::Version));
    }
    assert!(matches!(call(&["camera-box", "factory-reset"]), Invocation::FactoryReset));
    match call(&["camera-box", "reset-password"]) {
        Invocation::ResetPassword { user, pass } => {
            assert_eq!((user.as_str(), pass.as_str()), ("admin", "password"));
        }
        _ => panic!("not a reset"),
    }
    match call(&["camera-box", "reset-password", "alice", "s3cret"]) {
        Invocation::ResetPassword { user, pass } => {
            assert_eq!((user.as_str(), pass.as_str()), ("alice", "s3cret"));
        }
        _ => panic!("not a reset"),
    }
}

#[test]
fn a_factory_reset_wipes_all_saved_state() {
    let profiles = vec!["home".to_string(), "no good".to_string()];
    let paths: Vec<String> = cli::factory_reset(&profiles)
        .into_iter()
        .map(|s| match s {
            Step::Remove { path, required: true } => path,
            _ => panic!("not a removal"),
        })
        .collect();
    assert_eq!(
        paths,
        [
            "/var/lib/camera-box/state.toml",
            "/var/lib/camera-box/auth.toml",
            "/var/lib/camera-box/network.toml",
            "/etc/camera-box/wifi/home.conf",
        ]
    );
}
