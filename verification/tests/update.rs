use camera_box::command::{CommandLine, Outcome};
use camera_box::update::{self, File, Site, Update, UpdateAction, UpdateEvent};

const ABC: &str = "ba7816bf8f01cfea414140de5dae2223b00361a396177a9cb410ff61f20015ad";
const ARMV6: &str = "camera-box-pi-zero-w-armv6";

fn ok(stdout: &str) -> Outcome {
    Outcome::Ended { success: true, stdout: stdout.to_string(), stderr: String::new() }
}

fn failed(stderr: &str) -> Outcome {
    Outcome::Ended { success: false, stdout: String::new(), stderr: stderr.to_string() }
}

#[test]
fn version_numbers() {
    assert_eq!(update::ver_num(" v0.3.4\n"), "0.3.4");
    assert_eq!(update::ver_num("vv1"), "1");
    assert_eq!(update::parse_ver("0.3.4"), (0, 3, 4));
    assert_eq!(update::parse_ver("1.2-3+4"), (1, 2, 3));
    assert_eq!(update::parse_ver("1.rc.2"), (1, 2, 0));
    assert_eq!(update::parse_ver(""), (0, 0, 0));
}

#[test]
fn newer_versions() {
    assert!(update::version_gt("0.3.5", "0.3.4"));
    assert!(update::version_gt("0.10.0", "0.9.9"));
    assert!(update::version_gt("1.0.0", "0.99.99"));
    assert!(!update::version_gt("0.3.4", "0.3.4"));
    assert!(!update::version_gt("0.3.3", "0.3.4"));
}

#[test]
fn tags_read_back() {
    assert_eq!(update::parse_ver(&update::ver_num("v10.20.30")), (10, 20, 30));
}

#[test]
fn assets_by_machine() {
    let asset = |m: &str| update::detect_asset(ok(m));
    assert_eq!(asset("aarch64\n"), Some("camera-box-pi-zero-2w-arm64".to_string()));
    assert_eq!(asset("arm64"), Some("camera-box-pi-zero-2w-arm64".to_string()));
    assert_eq!(asset("armv7l\n"), Some("camera-box-pi-zero-2w-armv7".to_string()));
    assert_eq!(asset("armv6l\n"), Some(ARMV6.to_string()));
    assert_eq!(asset("x86_64\n"), None);
    assert_eq!(update::detect_asset(failed("")), None);
    let c = update::machine_command();
    assert_eq!(c.program, "uname");
    assert_eq!(c.args, ["-m"]);
}

#[test]
fn the_latest_tag() {
    let c = update::latest_command();
    assert_eq!(c.program, "curl");
    assert_eq!(
        c.args,
        [
            "-fsSL",
            "-A",
            "camera-box",
            "--max-time",
            "20",
            "https://api.github.com/repos/codesource/camerabox/releases/latest",
        ]
    );
    assert_eq!(
        update::latest_tag(ok("{\"name\": 1, \"tag_name\": \"v0.3\\u002e4\"}")),
        Ok("v0.3.4".to_string())
    );
    let none = Err("no tag_name in the latest release".to_string());
    assert_eq!(update::latest_tag(ok("{\"tag_name\": 3}")), none);
    assert_eq!(update::latest_tag(ok("{}")), none);
    assert_eq!(update::latest_tag(ok("[1]")), none);
    let e = update::latest_tag(ok("<html>")).unwrap_err();
    assert!(e.starts_with("parsing release info: "));
    assert!(e.len() > "parsing release info: ".len());
    assert_eq!(
        update::latest_tag(failed(" timed out\n")),
        Err("could not reach GitHub (is the device online?): timed out".to_string())
    );
    assert_eq!(
        update::latest_tag(Outcome::NotStarted("no curl".to_string())),
        Err("could not reach GitHub (is the device online?): spawn curl: no curl".to_string())
    );
}

#[test]
fn stated_tags() {
    assert_eq!(update::stated_tag(Ok(Some("v1".to_string()))), Ok("v1".to_string()));
    assert_eq!(
        update::stated_tag(Err("bad".to_string())),
        Err("parsing release info: bad".to_string())
    );
}

#[test]
fn checking_for_an_update() {
    let i = update::check_update("0.3.4", Ok("v0.3.5".to_string()), ok("armv6l")).unwrap();
    assert_eq!(i.current, "0.3.4");
    assert_eq!(i.latest, "0.3.5");
    assert_eq!(i.tag, "v0.3.5");
    assert!(i.update_available);
    assert_eq!(i.asset, Some(ARMV6.to_string()));
    let same = update::check_update("0.3.4", Ok("v0.3.4".to_string()), failed("")).unwrap();
    assert!(!same.update_available);
    assert_eq!(same.asset, None);
    let none = update::check_update("0.3.4", Err("offline".to_string()), ok("armv6l"));
    assert_eq!(none.err(), Some((502, "offline".to_string())));
}

#[test]
fn the_answer_to_an_update() {
    assert_eq!(
        update::apply_update(Ok("v1".to_string())),
        Ok("Updated to v1; restarting…".to_string())
    );
    assert_eq!(update::apply_update(Err("no".to_string())), Err((500, "no".to_string())));
}

#[test]
fn checksums() {
    let sums = format!("{}  other\n{}  *{}\n", "0".repeat(64), ABC, ARMV6);
    assert_eq!(update::verify_sha256(b"abc", &sums, ARMV6), Ok(()));
    // Upper case is accepted.
    let upper = format!("{}  ././{}\n", ABC.to_uppercase(), ARMV6);
    assert_eq!(update::verify_sha256(b"abc", &upper, ARMV6), Ok(()));
    assert_eq!(
        update::verify_sha256(b"abc", "x\n\n", ARMV6),
        Err(format!("no checksum for {ARMV6} in SHA256SUMS"))
    );
    let wrong = format!("ABCD {ARMV6}\n{ABC} {ARMV6}\n");
    assert_eq!(
        update::verify_sha256(b"abc", &wrong, ARMV6),
        Err(format!("checksum mismatch for {ARMV6} (got {ABC}, expected abcd)"))
    );
    assert_eq!(update::find_hash(&wrong, ARMV6), Some("ABCD".to_string()));
    assert_eq!(update::check_digest(&[0xab], Some("ab".to_string()), "a"), Ok(()));
    assert_eq!(
        update::check_digest(&[0xab], None, "a"),
        Err("no checksum for a in SHA256SUMS".to_string())
    );
}

fn site() -> Site {
    Site {
        current: "0.3.4".to_string(),
        paths: Some(("/tmp/bin".to_string(), "/tmp/sums".to_string())),
    }
}

fn line(c: &CommandLine) -> String {
    format!("{} {}", c.program, c.args.join(" "))
}

fn show(a: &UpdateAction) -> String {
    match a {
        UpdateAction::Run(c) => line(c),
        UpdateAction::Finish(r) => format!("finish {r:?}"),
        other => format!("{other:?}"),
    }
}

/// The answers of an update in which all goes well.
fn good() -> Vec<UpdateEvent> {
    vec![
        UpdateEvent::Ran(ok("armv6l\n")),
        UpdateEvent::Ran(ok("{\"tag_name\":\"v0.4.0\"}")),
        UpdateEvent::Ran(ok("")),
        UpdateEvent::Ran(ok("")),
        UpdateEvent::Contents {
            download: Ok(b"abc".to_vec()),
            sums: Ok(format!("{ABC} {ARMV6}\n")),
        },
        UpdateEvent::Done(Ok(())),
        UpdateEvent::Ran(ok("camera-box 0.4.0")),
        UpdateEvent::Located(Ok(true)),
        UpdateEvent::Done(Err("no backup".to_string())),
        UpdateEvent::Done(Ok(())),
        UpdateEvent::Done(Ok(())),
        UpdateEvent::Done(Ok(())),
        UpdateEvent::Done(Err("cannot remove".to_string())),
    ]
}

fn play(site: &Site, events: Vec<UpdateEvent>) -> Vec<String> {
    let (mut u, a) = Update::begin();
    let mut seen = vec![show(&a)];
    for e in events {
        assert!(update::is_answer(u.phase, &e));
        let (next, a) = u.run_update(site, e);
        u = next;
        seen.push(show(&a));
        if matches!(a, UpdateAction::Finish(_)) {
            break;
        }
    }
    seen
}

fn last(site: &Site, at: usize, event: UpdateEvent) -> String {
    let mut events: Vec<UpdateEvent> = good().into_iter().take(at).collect();
    events.push(event);
    play(site, events).pop().unwrap()
}

#[test]
fn an_update_that_goes_well() {
    assert_eq!(
        play(&site(), good()),
        [
            "uname -m",
            "curl -fsSL -A camera-box --max-time 20 \
             https://api.github.com/repos/codesource/camerabox/releases/latest",
            "curl -fL -A camera-box --max-time 300 -o /tmp/bin \
             https://github.com/codesource/camerabox/releases/download/v0.4.0/camera-box-pi-zero-w-armv6",
            "curl -fsSL -A camera-box --max-time 60 -o /tmp/sums \
             https://github.com/codesource/camerabox/releases/download/v0.4.0/SHA256SUMS",
            "Read",
            "MakeExecutable(Download)",
            "/tmp/bin version",
            "Locate",
            "Copy(Target, Backup)",
            "Copy(Download, Staged)",
            "MakeExecutable(Staged)",
            "Rename(Staged, Target)",
            "Remove(Download)",
            "finish Ok(\"v0.4.0\")",
        ]
    );
}

#[test]
fn an_update_that_goes_wrong() {
    let s = site();
    let fin = |e: &str| format!("finish Err({e:?})");
    let no = || UpdateEvent::Done(Err("no".to_string()));
    assert_eq!(
        last(&s, 0, UpdateEvent::Ran(ok("x86_64"))),
        fin("unsupported architecture — no matching release asset")
    );
    assert_eq!(
        last(&s, 1, UpdateEvent::Ran(ok("{\"tag_name\":\"v0.3.4\"}"))),
        fin("already up to date (running 0.3.4, latest 0.3.4)")
    );
    assert_eq!(
        last(&s, 1, UpdateEvent::Ran(ok("{}"))),
        fin("no tag_name in the latest release")
    );
    let nowhere = Site { current: "0.3.4".to_string(), paths: None };
    assert_eq!(
        last(&nowhere, 1, UpdateEvent::Ran(ok("{\"tag_name\":\"v0.4.0\"}"))),
        fin("non-UTF8 temp path")
    );
    assert_eq!(
        last(&s, 2, UpdateEvent::Ran(failed("404\n"))),
        fin("downloading camera-box-pi-zero-w-armv6: 404")
    );
    assert_eq!(
        last(&s, 3, UpdateEvent::Ran(failed("404"))),
        fin("downloading SHA256SUMS: 404")
    );
    let read = |d: Result<Vec<u8>, String>, t: Result<String, String>| UpdateEvent::Contents {
        download: d,
        sums: t,
    };
    assert_eq!(
        last(&s, 4, read(Err("gone".to_string()), Err("gone".to_string()))),
        fin("reading download: gone")
    );
    assert_eq!(
        last(&s, 4, read(Ok(vec![]), Err("gone".to_string()))),
        fin("reading SHA256SUMS: gone")
    );
    assert_eq!(
        last(&s, 4, read(Ok(b"abc".to_vec()), Ok(String::new()))),
        fin("no checksum for camera-box-pi-zero-w-armv6 in SHA256SUMS")
    );
    assert_eq!(last(&s, 5, no()), fin("chmod download: no"));
    assert_eq!(
        last(&s, 6, UpdateEvent::Ran(Outcome::NotStarted("exec".to_string()))),
        fin("the downloaded binary won't run: exec")
    );
    assert_eq!(
        last(&s, 6, UpdateEvent::Ran(failed(""))),
        fin("the downloaded binary failed its self-check (wrong architecture?)")
    );
    assert_eq!(
        last(&s, 7, UpdateEvent::Located(Err("gone".to_string()))),
        fin("locating current binary: gone")
    );
    assert_eq!(
        last(&s, 7, UpdateEvent::Located(Ok(false))),
        fin("target has no parent directory")
    );
    assert_eq!(last(&s, 9, no()), fin("staging new binary: no"));
    assert_eq!(last(&s, 10, no()), fin("chmod staged: no"));
    assert_eq!(last(&s, 11, no()), fin("installing (rename): no"));
}

#[test]
fn a_wrong_checksum_is_never_installed() {
    let mut events = good();
    events[4] = UpdateEvent::Contents {
        download: Ok(b"abd".to_vec()),
        sums: Ok(format!("{ABC} {ARMV6}\n")),
    };
    let seen = play(&site(), events);
    assert!(!seen.iter().any(|a| a.starts_with("Rename")));
    assert!(seen[seen.len() - 1].contains("checksum mismatch for camera-box-pi-zero-w-armv6"));
}

#[test]
fn taking_note_of_a_tag() {
    let (mut u, _) = Update::begin();
    assert_eq!(u.take_tag(&site(), Ok("v9.0.0".to_string())), Ok(()));
    assert_eq!(u.tag, "v9.0.0");
    assert_eq!(u.download, "/tmp/bin");
    assert_eq!(u.take_tag(&site(), Err("e".to_string())), Err("e".to_string()));
}

#[test]
fn the_files_of_an_update() {
    assert_eq!(update::name_of(File::Download), Some("camera-box.update".to_string()));
    assert_eq!(update::name_of(File::Checksums), Some("camera-box.SHA256SUMS".to_string()));
    assert_eq!(update::name_of(File::Backup), Some("bak".to_string()));
    assert_eq!(update::name_of(File::Staged), Some(".camera-box.new".to_string()));
    assert_eq!(update::name_of(File::Target), None);
}

#[test]
fn only_the_answer_to_an_action_is_taken() {
    let (u, _) = Update::begin();
    assert!(!update::is_answer(u.phase, &UpdateEvent::Done(Ok(()))));
    assert!(update::is_answer(u.phase, &UpdateEvent::Ran(ok(""))));
}
