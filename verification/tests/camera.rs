use camera_box::button::{self, ButtonSetup, HoldTimer};
use camera_box::camera::{
    self, Action, Added, AppState, CameraDevice, Effect, EventKind, HotplugEvent, Probe,
    StreamRuntime,
};
use camera_box::config::{ApConfig, CameraPersist, Config, ConfigFile, PersistState};
use camera_box::stream::{self, Phase, StreamAction, StreamEvent};

fn device(path: &str) -> CameraDevice {
    CameraDevice { path: path.to_string(), name: None, mjpeg: true }
}

fn state(max_cameras: usize) -> AppState {
    let mut config = Config::default();
    config.max_cameras = max_cameras;
    AppState::new(config, Some("box\n".to_string()))
}

fn empty_file() -> ConfigFile {
    ConfigFile {
        max_cameras: None,
        base_stream_port: None,
        web_port: None,
        device_ip: None,
        ustreamer_path: None,
        resolution: None,
        fps: None,
        reset_button: None,
        reset_active_low: None,
        reset_hold_secs: None,
    }
}

#[test]
fn the_defaults() {
    for c in [Config::default(), Config::load(None), Config::load(Some(empty_file()))] {
        assert_eq!(c.max_cameras, 2);
        assert_eq!(c.base_stream_port, 8080);
        assert_eq!(c.web_port, 80);
        assert_eq!(c.device_ip, "192.168.4.1");
        assert_eq!(c.ustreamer_path, "/usr/bin/ustreamer");
        assert_eq!(c.resolution, "1280x720");
        assert_eq!(c.fps, 30);
        assert_eq!(c.reset_button, "");
        assert!(c.reset_active_low);
        assert_eq!(c.reset_hold_secs, 5);
    }
    let ap = ApConfig::load(None);
    assert_eq!(ap.ip_cidr, "192.168.4.1/24");
}

#[test]
fn a_partial_file_keeps_the_other_defaults() {
    let mut file = empty_file();
    file.web_port = Some(8000);
    file.reset_button = Some("0:17".to_string());
    file.reset_active_low = Some(false);
    file.reset_hold_secs = Some(9);
    file.resolution = Some("640x480".to_string());
    let c = Config::load(Some(file));
    assert_eq!(c.web_port, 8000);
    assert_eq!(c.reset_button, "0:17");
    assert!(!c.reset_active_low);
    assert_eq!(c.reset_hold_secs, 9);
    assert_eq!(c.resolution, "640x480");
    assert_eq!(c.fps, 30);
}

#[test]
fn saved_settings_are_loaded() {
    let ap = ApConfig {
        ssid: "Box".to_string(),
        password: "12345678".to_string(),
        ip_cidr: "10.0.0.1/24".to_string(),
    };
    assert_eq!(ApConfig::load(Some(ap)).ssid, "Box");
    let one = CameraPersist {
        enabled: true,
        resolution: "640x480".to_string(),
        fps: 15,
        stream_user: None,
        stream_password: None,
    };
    let mut saved = PersistState::default();
    assert!(saved.cameras.is_empty());
    saved.cameras.insert("usb-1".to_string(), one);
    let loaded = PersistState::load(Some(saved));
    assert_eq!(loaded.cameras.len(), 1);
    assert!(loaded.cameras["usb-1"].enabled);
    assert!(PersistState::load(None).cameras.is_empty());
}

#[test]
fn cameras_take_the_first_free_slot() {
    let mut s = state(2);
    assert_eq!(s.hostname, "box");
    assert!(matches!(s.handle_add(device("/dev/video0")), Added::Assigned { slot: 0, port: 8080 }));
    assert!(matches!(s.handle_add(device("/dev/video2")), Added::Assigned { slot: 1, port: 8081 }));
    assert!(matches!(s.handle_add(device("/dev/video0")), Added::Known));
    assert!(matches!(s.handle_add(device("/dev/video4")), Added::Full));
    assert_eq!(s.handle_remove("/dev/video0"), Some(0));
    assert_eq!(s.handle_remove("/dev/video0"), None);
    // The other camera has kept its slot, and the freed one is taken next.
    assert_eq!(s.slots[1].as_ref().unwrap().port, 8081);
    assert!(matches!(s.handle_add(device("/dev/video4")), Added::Assigned { slot: 0, port: 8080 }));
}

#[test]
fn removing_undoes_adding_a_camera() {
    let mut s = state(2);
    s.handle_add(device("/dev/video0"));
    s.handle_add(device("/dev/video2"));
    s.handle_remove("/dev/video2");
    assert!(s.slots[0].is_some());
    assert!(s.slots[1].is_none());
}

#[test]
fn a_port_beyond_the_last_is_found_out() {
    let mut s = state(2);
    s.config.base_stream_port = 65535;
    assert!(!s.port_overflows("/dev/video0"));
    s.handle_add(device("/dev/video0"));
    assert!(s.port_overflows("/dev/video2"));
    assert!(!s.port_overflows("/dev/video0"));
}

#[test]
fn the_host_name_has_a_default() {
    assert_eq!(AppState::new(Config::default(), None).hostname, "camera-box");
    assert_eq!(AppState::new(Config::default(), Some(" \n".to_string())).hostname, "camera-box");
}

#[test]
fn events_become_actions() {
    let events = vec![
        HotplugEvent {
            kind: EventKind::Add,
            devnode: Some("/dev/video0".to_string()),
            camera: Some(device("/dev/video0")),
        },
        HotplugEvent {
            kind: EventKind::Add,
            devnode: Some("/dev/video1".to_string()),
            camera: None,
        },
        HotplugEvent { kind: EventKind::Other, devnode: None, camera: None },
        HotplugEvent { kind: EventKind::Remove, devnode: None, camera: None },
        HotplugEvent {
            kind: EventKind::Remove,
            devnode: Some("/dev/video0".to_string()),
            camera: None,
        },
    ];
    let actions = camera::drain_events(events);
    assert_eq!(actions.len(), 2);
    assert!(matches!(&actions[0], Action::Add(d) if d.path == "/dev/video0"));
    assert!(matches!(&actions[1], Action::Remove(p) if p == "/dev/video0"));
}

#[test]
fn actions_have_effects_on_streams() {
    let mut s = state(1);
    let add = Action::Add(device("/dev/video0"));
    assert!(!s.action_overflows(&add));
    assert!(matches!(s.apply(add), Effect::Start { slot: 0, port: 8080 }));
    assert!(matches!(s.apply(Action::Add(device("/dev/video0"))), Effect::Nothing));
    assert!(matches!(s.apply(Action::Remove("/dev/video9".to_string())), Effect::Nothing));
    assert!(matches!(s.apply(Action::Remove("/dev/video0".to_string())), Effect::Stop { slot: 0 }));
}

#[test]
fn only_usb_capture_nodes_are_cameras() {
    let none = Probe::Done { capture: false, mjpeg: false };
    assert_eq!(camera::inspect(0x1, 0, b"usb-0000:01:00.0-1.2\0"), Probe::Ask(0));
    assert_eq!(camera::inspect(0x1, 0, b"platform:bcm2835-isp\0"), none);
    // The node's own capabilities count where they are given.
    assert_eq!(camera::inspect(0x8000_0001, 0x0080_0000, b"usb-1"), none);
    assert_eq!(camera::inspect(0x8000_0000, 0x1, b"usb-1"), Probe::Ask(0));
    assert_eq!(camera::inspect(0x2, 0x1, b"usb-1"), none);
    assert_eq!(camera::inspect(0x1, 0, b"usb"), none);
}

#[test]
fn mjpeg_is_found_among_the_formats() {
    let done = |mjpeg: bool| Probe::Done { capture: true, mjpeg };
    assert_eq!(camera::supports_mjpeg(0, Some(0x5659_5559)), Probe::Ask(1));
    assert_eq!(camera::supports_mjpeg(1, Some(0x4750_4a4d)), done(true));
    assert_eq!(camera::supports_mjpeg(2, None), done(false));
    assert_eq!(camera::supports_mjpeg(63, Some(0)), done(false));
}

#[test]
fn a_device_that_can_capture_is_a_camera() {
    let d = camera::evaluate_device(
        Some("/dev/video0".to_string()),
        Some((true, true)),
        Some(" HD Cam \n".to_string()),
    )
    .unwrap();
    assert_eq!(d.path, "/dev/video0");
    assert_eq!(d.name, Some("HD Cam".to_string()));
    assert!(d.mjpeg);
    let unnamed = camera::evaluate_device(
        Some("/dev/video0".to_string()),
        Some((true, false)),
        Some(" ".to_string()),
    )
    .unwrap();
    assert_eq!(unnamed.name, None);
    assert!(!unnamed.mjpeg);
    let node = Some("/dev/video0".to_string());
    assert!(camera::evaluate_device(node.clone(), Some((false, false)), None).is_none());
    assert!(camera::evaluate_device(node, None, None).is_none());
    assert!(camera::evaluate_device(None, Some((true, true)), None).is_none());
}

#[test]
fn the_ustreamer_command() {
    let config = Config::default();
    let c = stream::build_command(&config, &device("/dev/video0"), 8081);
    assert_eq!(c.program, "/usr/bin/ustreamer");
    assert_eq!(
        c.args,
        [
            "--device=/dev/video0",
            "--host=0.0.0.0",
            "--port=8081",
            "--resolution=1280x720",
            "--desired-fps=30",
            "--drop-same-frames=30",
            "--format=MJPEG",
            "--encoder=NOOP",
        ]
    );
    let raw = CameraDevice { path: "/dev/video1".to_string(), name: None, mjpeg: false };
    let c = stream::build_command(&config, &raw, 8080);
    assert_eq!(c.args[c.args.len() - 1], "--encoder=CPU");
    assert_eq!(c.args.len(), 7);
}

#[test]
fn a_crashed_stream_is_started_again() {
    let mut r = StreamRuntime::default();
    let (p, a) = stream::supervise(Phase::Start, StreamEvent::Begin { cancelled: false }, &mut r);
    assert!(matches!((p, a), (Phase::Spawning, StreamAction::Spawn)));
    let (p, a) = stream::supervise(p, StreamEvent::Spawned { pid: Some(7) }, &mut r);
    assert!(matches!((p, a), (Phase::Running, StreamAction::Wait)));
    assert_eq!(r, StreamRuntime { running: true, pid: Some(7), restarts: 0 });
    let (p, a) = stream::supervise(p, StreamEvent::Exited { cancelled: false }, &mut r);
    assert!(matches!((p, a), (Phase::Backoff, StreamAction::Sleep { secs: 2 })));
    assert_eq!(r, StreamRuntime { running: false, pid: None, restarts: 1 });
    let (p, a) = stream::supervise(p, StreamEvent::Elapsed { cancelled: false }, &mut r);
    assert!(matches!((p, a), (Phase::Spawning, StreamAction::Spawn)));
}

#[test]
fn a_stream_that_does_not_start_is_tried_again() {
    let mut r = StreamRuntime::default();
    let (p, a) = stream::supervise(Phase::Spawning, StreamEvent::SpawnFailed, &mut r);
    assert!(matches!((p, a), (Phase::Backoff, StreamAction::Sleep { secs: 3 })));
    let (p, a) = stream::supervise(p, StreamEvent::Cancelled, &mut r);
    assert!(matches!((p, a), (Phase::Done, StreamAction::Finish)));
}

#[test]
fn a_removed_camera_ends_its_stream() {
    let mut r = StreamRuntime { running: true, pid: Some(7), restarts: 3 };
    let (p, a) = stream::supervise(Phase::Running, StreamEvent::Cancelled, &mut r);
    assert!(matches!((p, a), (Phase::Stopping, StreamAction::Kill)));
    let (p, a) = stream::supervise(p, StreamEvent::Killed, &mut r);
    assert!(matches!((p, a), (Phase::Done, StreamAction::Finish)));
    assert_eq!(r, StreamRuntime { running: false, pid: None, restarts: 3 });
}

#[test]
fn the_button_setting() {
    for s in ["gpiochip0:17", "0:17", "/dev/gpiochip0:17", " 0 : 17 "] {
        assert_eq!(button::parse(s), Some(("gpiochip0".to_string(), 17)));
    }
    assert_eq!(button::parse("17"), None);
    assert_eq!(button::parse("0:x"), None);
    assert_eq!(button::parse("0:4294967296"), None);
    assert!(matches!(button::setup("  "), ButtonSetup::Disabled));
    assert!(matches!(button::setup("17"), ButtonSetup::Invalid));
    assert!(matches!(
        button::setup("1:4"),
        ButtonSetup::Watch { device, line: 4 } if device == "/dev/gpiochip1"
    ));
}

#[test]
fn only_an_unbroken_hold_resets() {
    let mut t = HoldTimer::new(1);
    for _ in 0..4 {
        assert!(!t.tick(true));
    }
    assert!(!t.tick(false));
    for _ in 0..4 {
        assert!(!t.tick(true));
    }
    assert!(t.tick(true));
    // No time at all counts as a second.
    let mut t = HoldTimer::new(0);
    assert!(!t.tick(true));
}

#[test]
fn kernel_messages_about_video_nodes() {
    let add = "add@/devices/x\0ACTION=add\0DEVPATH=/devices/x\0SUBSYSTEM=video4linux\0DEVNAME=video0\0";
    assert_eq!(
        camera::read_uevent(add),
        Some((EventKind::Add, Some("/dev/video0".to_string())))
    );
    assert_eq!(
        camera::read_uevent("ACTION=remove\0SUBSYSTEM=video4linux"),
        Some((EventKind::Remove, None))
    );
    assert_eq!(
        camera::read_uevent("SUBSYSTEM=video4linux\0ACTION=change\0DEVNAME=video1"),
        Some((EventKind::Other, Some("/dev/video1".to_string())))
    );
    assert_eq!(camera::read_uevent("ACTION=add\0SUBSYSTEM=usb\0DEVNAME=bus/usb/1"), None);
    assert_eq!(camera::read_uevent(""), None);
}

#[test]
fn probing_asks_for_one_format_after_the_other() {
    let probe = |formats: &[u32]| {
        let mut index = 0;
        loop {
            match camera::supports_mjpeg(index, formats.get(index as usize).copied()) {
                Probe::Ask(next) => index = next,
                Probe::Done { mjpeg, .. } => return mjpeg,
            }
        }
    };
    assert!(probe(&[1, 2, 0x4750_4a4d]));
    assert!(!probe(&[1, 2, 3]));
    assert!(!probe(&[]));
    let mut late = vec![0u32; 64];
    late.push(0x4750_4a4d);
    assert!(!probe(&late));
    late[63] = 0x4750_4a4d;
    assert!(probe(&late));
}

#[test]
fn the_first_long_hold_resets() {
    let looks = [true, true, false, true, true, true, true, true];
    let mut t = HoldTimer::new(1);
    let fired: Vec<bool> = looks.iter().map(|&l| t.tick(l)).collect();
    assert_eq!(fired, [false, false, false, false, false, false, false, true]);
}

#[test]
fn a_stream_that_is_not_cancelled_goes_on() {
    let mut r = StreamRuntime::default();
    let mut phase = Phase::Start;
    let events = [
        StreamEvent::Begin { cancelled: false },
        StreamEvent::SpawnFailed,
        StreamEvent::Elapsed { cancelled: false },
        StreamEvent::Spawned { pid: None },
        StreamEvent::Exited { cancelled: false },
        StreamEvent::Elapsed { cancelled: false },
        StreamEvent::Spawned { pid: Some(1) },
    ];
    for e in events {
        let (next, _) = stream::supervise(phase, e, &mut r);
        phase = next;
        assert!(!matches!(phase, Phase::Done | Phase::Stopping));
    }
}
