use camera_box::client::{self, ConnectParams};
use camera_box::command::{self, Outcome};
use camera_box::config::ApConfig;
use camera_box::hotspot;
use camera_box::net::{self, NetEntry};
use camera_box::scan;
use camera_box::steps::{self, Course, Step};

fn names() -> Vec<String> {
    vec!["wlan0".to_string(), "wlan1".to_string()]
}

fn ap() -> ApConfig {
    ApConfig {
        ssid: "Box".to_string(),
        password: "secret99".to_string(),
        ip_cidr: "10.1.2.3/24".to_string(),
    }
}

/// A step on one line: what must succeed is marked.
fn show(step: &Step) -> String {
    match step {
        Step::Run { command, required } => {
            let mark = if *required { "!" } else { "" };
            format!("{}{} {}", mark, command.program, command.args.join(" "))
        }
        Step::Sleep { secs } => format!("sleep {secs}"),
        Step::Write { path, private, required, .. } => {
            let mark = if *required { "!" } else { "" };
            format!("{}write {}{}", mark, path, if *private { " 600" } else { "" })
        }
        Step::PrivateDir { path } => format!("dir {path}"),
        Step::StopClient { iface } => format!("stop-client {iface}"),
        Step::Terminate { pid } => format!("kill {pid}"),
        Step::Remove { path, .. } => format!("rm {path}"),
        Step::UpdateHosts { name } => format!("hosts {name}"),
        Step::Fail { error } => format!("fail {error}"),
    }
}

fn show_all(steps: &[Step]) -> Vec<String> {
    steps.iter().map(show).collect()
}

fn body(step: &Step) -> String {
    match step {
        Step::Write { body, .. } => body.clone(),
        _ => panic!("not a file"),
    }
}

fn entry(name: &str, wireless: bool, phy80211: bool) -> NetEntry {
    NetEntry { name: name.to_string(), wireless, phy80211 }
}

#[test]
fn wireless_interfaces_are_listed_by_name() {
    let list = net::wifi_interfaces(vec![
        entry("wlan1", false, true),
        entry("eth0", false, false),
        entry("wlan0", true, false),
    ]);
    assert_eq!(list, ["wlan0", "wlan1"]);
    assert_eq!(net::primary_wifi(&list), Some("wlan0".to_string()));
    assert_eq!(net::primary_wifi(&Vec::new()), None);
}

#[test]
fn an_unknown_interface_is_refused() {
    assert!(net::validate_iface("wlan1", &names()).is_ok());
    assert_eq!(
        net::validate_iface("eth0", &names()),
        Err("unknown wireless interface: eth0".to_string())
    );
}

#[test]
fn the_status_of_an_interface() {
    let w = net::interface_status(
        "wlan0",
        Some("aa:bb\n".to_string()),
        Some("up\n".to_string()),
        "Interface wlan0\n\tssid Box 1\n\ttype AP\n",
        "",
        net::ipv4_of(Some("3: wlan0    inet 192.168.4.1/24 brd x".to_string())),
        true,
    );
    assert_eq!(w.mac, "aa:bb");
    assert!(w.up);
    assert_eq!(w.mode, "ap");
    assert_eq!(w.ssid, Some("Box 1".to_string()));
    assert_eq!(w.ip, Some("192.168.4.1/24".to_string()));
    let c = net::interface_status(
        "wlan1",
        None,
        Some("dormant".to_string()),
        "\ttype managed\n\tssid Other\n",
        "Connected to x\n\tSSID: Home\n",
        net::ipv4_of(Some("inet".to_string())),
        false,
    );
    assert_eq!(c.mode, "client");
    assert_eq!(c.ssid, Some("Home".to_string()));
    assert_eq!(c.mac, "");
    assert!(c.up);
    assert_eq!(c.ip, None);
    assert_eq!(net::wifi_mode("type monitor"), "unknown");
    assert_eq!(net::ipv4_of(None), None);
    let s = net::status(vec![w, c], vec!["home".to_string()]);
    assert!(s.interfaces[0].primary);
    assert!(!s.interfaces[1].primary);
    assert_eq!(s.profiles, ["home"]);
}

#[test]
fn access_point_support_is_read_from_the_phy() {
    assert!(net::ap_capable("phy0", "modes:\n\t\t * managed\n\t\t * AP\n"));
    assert!(!net::ap_capable("phy0", "\t\t * AP/VLAN\n"));
    assert!(!net::ap_capable("", "\t\t * AP\n"));
}

#[test]
fn host_names() {
    for ok in ["a", "camera-box", "X1"] {
        assert!(net::validate_hostname(ok).is_ok());
    }
    for bad in ["", "-a", "a-", "a.b", "é", &"a".repeat(64)] {
        assert_eq!(
            net::validate_hostname(bad),
            Err("invalid hostname (letters, digits and '-', not starting/ending with '-')"
                .to_string())
        );
    }
    assert_eq!(net::current_hostname(Some("pi\n".to_string())), "pi");
    assert_eq!(net::current_hostname(None), "camera-box");
}

#[test]
fn the_hosts_file_follows_the_host_name() {
    let old = "127.0.0.1\tlocalhost\n  127.0.1.1\told\n::1 x";
    let new = net::update_etc_hosts(old, "box");
    assert_eq!(new, "127.0.0.1\tlocalhost\n127.0.1.1\tbox\n::1 x\n");
    // The last name counts, and there is one entry for it.
    assert_eq!(net::update_etc_hosts(&new, "pi"), net::update_etc_hosts(old, "pi"));
    assert_eq!(net::update_etc_hosts("", "box"), "127.0.1.1\tbox\n");
}

#[test]
fn other_hosts_stay_in_the_hosts_file() {
    let old = "127.0.0.1\tlocalhost\n127.0.1.10\tprinter\n127.0.1.1\told\n";
    assert_eq!(
        net::update_etc_hosts(old, "box"),
        "127.0.0.1\tlocalhost\n127.0.1.10\tprinter\n127.0.1.1\tbox\n"
    );
    // Without a line of its own the host gets one.
    assert_eq!(
        net::update_etc_hosts("127.0.1.100 a\n# 127.0.1.1 b\n", "box"),
        "127.0.1.100 a\n# 127.0.1.1 b\n127.0.1.1\tbox\n"
    );
    assert_eq!(net::update_etc_hosts("127.0.1.1", "box"), "127.0.1.1\tbox\n");
}

#[test]
fn changing_the_host_name() {
    let list = net::set_hostname("box", "10.0.0.1").unwrap();
    assert_eq!(
        show_all(&list),
        [
            "!hostnamectl set-hostname box",
            "hosts box",
            "!write /etc/dnsmasq.d/camera-box.conf",
            "systemctl restart avahi-daemon",
            "systemctl restart dnsmasq",
        ]
    );
    assert_eq!(body(&list[2]), "address=/box/10.0.0.1\naddress=/box.local/10.0.0.1\n");
    assert!(net::set_hostname("-", "10.0.0.1").is_err());
}

fn ap_error(f: impl Fn(&mut ApConfig)) -> Option<String> {
    let mut a = ap();
    f(&mut a);
    hotspot::validate_ap(&a).err()
}

#[test]
fn hotspot_settings_are_checked() {
    assert_eq!(ap_error(|_| ()), None);
    let ssid = Some("hotspot name (SSID) must be 1–32 characters".to_string());
    assert_eq!(ap_error(|a| a.ssid = "".to_string()), ssid);
    assert_eq!(ap_error(|a| a.ssid = "é".repeat(17)), ssid);
    assert_eq!(ap_error(|a| a.ssid = "é".repeat(16)), None);
    let breaks = Some("hotspot name/password must not contain line breaks".to_string());
    assert_eq!(ap_error(|a| a.ssid = "a\nb".to_string()), breaks);
    assert_eq!(ap_error(|a| a.password = "1234567\r".to_string()), breaks);
    let pass = Some("hotspot password must be 8–63 characters".to_string());
    assert_eq!(ap_error(|a| a.password = "1234567".to_string()), pass);
    assert_eq!(ap_error(|a| a.password = "1".repeat(64)), pass);
    assert_eq!(ap_error(|a| a.password = "1".repeat(63)), None);
}

#[test]
fn hotspot_addresses_are_checked() {
    let error = |s: &str| hotspot::validate_ap_ip(s).err();
    assert_eq!(error("192.168.4.1/24"), None);
    assert_eq!(error("192.168.4.99/24"), None);
    assert_eq!(error("192.168.4.201/24"), None);
    assert_eq!(error("192.168.4.1"), Some("hotspot IP must look like 192.168.4.1/24".to_string()));
    assert_eq!(error("192.168.4.1/16"), Some("hotspot IP prefix must be /24".to_string()));
    assert_eq!(error("192.168.4.1/24/24"), Some("hotspot IP prefix must be /24".to_string()));
    for bad in ["192.168.4/24", "192.168.4.x/24", "192.168.256.1/24", "1.2.3.70000/24", "1.2.3.4.5/24"] {
        assert_eq!(error(bad), Some("invalid hotspot IP".to_string()));
    }
    for bad in ["192.168.4.0/24", "192.168.4.255/24"] {
        assert_eq!(error(bad), Some("hotspot IP host part must be 1–254".to_string()));
    }
    for bad in ["192.168.4.100/24", "192.168.4.200/24"] {
        assert_eq!(
            error(bad),
            Some("hotspot IP must be outside .100–.200 (the DHCP range)".to_string())
        );
    }
}

#[test]
fn the_addresses_of_a_hotspot() {
    assert_eq!(hotspot::ap_ip_of("10.1.2.3/24"), "10.1.2.3");
    assert_eq!(hotspot::ap_ip_of(""), "");
    assert_eq!(hotspot::dhcp_range_of("10.1.2.3/24"), "10.1.2.100,10.1.2.200,255.255.255.0,24h");
    assert_eq!(
        hotspot::dhcp_range_of("x"),
        "192.168.4.100,192.168.4.200,255.255.255.0,24h"
    );
}

#[test]
fn the_files_of_a_hotspot() {
    let list = hotspot::sync_ap_config("wlan0", &ap(), "box");
    assert_eq!(
        show_all(&list),
        [
            "!write /etc/hostapd/hostapd.conf 600",
            "!write /etc/dnsmasq.conf",
            "!write /etc/dnsmasq.d/camera-box.conf",
            "!write /etc/systemd/system/camera-box-ip.service",
            "systemctl daemon-reload",
        ]
    );
    assert_eq!(
        body(&list[0]),
        "country_code=CH\ninterface=wlan0\ndriver=nl80211\n\nssid=Box\n\nhw_mode=g\nchannel=6\n\n\
         ieee80211n=1\nwmm_enabled=1\nauth_algs=1\nignore_broadcast_ssid=0\n\nwpa=2\n\
         wpa_passphrase=secret99\nwpa_key_mgmt=WPA-PSK\nrsn_pairwise=CCMP\n"
    );
    assert_eq!(
        body(&list[1]),
        "# Managed by camera-box — do not edit.\ninterface=wlan0\nbind-dynamic\n\
         dhcp-range=10.1.2.100,10.1.2.200,255.255.255.0,24h\n\
         dhcp-option=option:router,10.1.2.3\ndhcp-option=option:dns-server,10.1.2.3\n\
         domain-needed\nbogus-priv\nconf-dir=/etc/dnsmasq.d/,*.conf\n"
    );
    assert_eq!(body(&list[2]), "address=/box/10.1.2.3\naddress=/box.local/10.1.2.3\n");
    assert_eq!(
        body(&list[3]),
        "[Unit]\nDescription=Set static IP for the camera-box AP\n\
         Before=dnsmasq.service hostapd.service\n\
         After=sys-subsystem-net-devices-wlan0.device\n\
         Wants=sys-subsystem-net-devices-wlan0.device\n\n\
         [Service]\nType=oneshot\nExecStartPre=-/usr/sbin/rfkill unblock all\n\
         ExecStart=/sbin/ip addr flush dev wlan0\n\
         ExecStart=/sbin/ip addr add 10.1.2.3/24 dev wlan0\n\
         ExecStart=/sbin/ip link set wlan0 up\nRemainAfterExit=yes\n\n\
         [Install]\nWantedBy=multi-user.target\n"
    );
}

#[test]
fn starting_a_hotspot() {
    let list = hotspot::start_hotspot("wlan0", &names(), &ap(), "box").unwrap();
    assert_eq!(
        show_all(&list[5..]),
        [
            "stop-client wlan0",
            "rfkill unblock all",
            "ip addr flush dev wlan0",
            "ip link set wlan0 down",
            "sleep 1",
            "ip link set wlan0 up",
            "ip addr add 10.1.2.3/24 dev wlan0",
            "systemctl unmask hostapd dnsmasq",
            "!systemctl restart dnsmasq",
            "!systemctl restart hostapd",
        ]
    );
    assert!(hotspot::start_hotspot("eth0", &names(), &ap(), "box").is_err());
    let mut bad = ap();
    bad.password = "short".to_string();
    assert_eq!(
        hotspot::start_hotspot("wlan0", &names(), &bad, "box").err(),
        Some("hotspot password must be 8–63 characters".to_string())
    );
}

#[test]
fn applying_hotspot_settings() {
    let list = hotspot::apply_ap("wlan0", &names(), &ap(), "box").unwrap();
    assert_eq!(list.len(), 5);
    assert!(hotspot::apply_ap("eth0", &names(), &ap(), "box").is_err());
    assert_eq!(
        show_all(&hotspot::reapply_ap("wlan0", "type AP", &ap())),
        [
            "ip addr flush dev wlan0",
            "ip addr add 10.1.2.3/24 dev wlan0",
            "!systemctl restart dnsmasq",
            "!systemctl restart hostapd",
        ]
    );
    assert_eq!(hotspot::reapply_ap("wlan0", "type managed", &ap()).len(), 0);
}

#[test]
fn a_scan_keeps_the_strongest_of_each_network() {
    let raw = "BSS aa(on wlan0)\n\tsignal: -70.00 dBm\n\tSSID: Home\n\tRSN:\t * x\n\
               BSS bb(on wlan0)\n\tsignal: -40.50 dBm\n\tSSID: Guest\n\
               BSS cc(on wlan0)\n\tsignal: -30.00 dBm\n\tSSID: Home\n\
               BSS dd(on wlan0)\n\tsignal: -20.00 dBm\n\tSSID: \n\
               BSS ee(on wlan0)\n\tsignal: x\n\tSSID: Far\n\tWPA:\t * x\n";
    let fields = scan::signal_fields(raw);
    let want: Vec<Option<String>> = ["-70.00", "-40.50", "-30.00", "-20.00", "x"]
        .iter()
        .map(|s| Some(s.to_string()))
        .collect();
    assert_eq!(fields, want);
    let signals = vec![Some(-70), Some(-40), Some(-30), Some(-20), None];
    let list = scan::scan(raw, &signals);
    let seen: Vec<(String, i32, bool)> =
        list.into_iter().map(|r| (r.ssid, r.signal_dbm, r.secured)).collect();
    assert_eq!(
        seen,
        [
            ("Home".to_string(), -30, false),
            ("Guest".to_string(), -40, false),
            ("Far".to_string(), -100, true),
        ]
    );
}

#[test]
fn networks_of_one_strength_keep_their_order() {
    let raw = "BSS a\nSSID: one\nBSS b\nSSID: two\nSSID: three\n";
    let list = scan::scan(raw, &Vec::new());
    let seen: Vec<String> = list.into_iter().map(|r| r.ssid).collect();
    assert_eq!(seen, ["one", "three"]);
}

#[test]
fn preparing_a_scan() {
    let (up, look) = scan::prepare_scan("wlan1", &names()).unwrap();
    assert_eq!(show(&up), "ip link set wlan1 up");
    assert_eq!(look.program, "iw");
    assert_eq!(look.args, ["dev", "wlan1", "scan"]);
    assert!(scan::prepare_scan("eth0", &names()).is_err());
}

#[test]
fn profiles_have_files() {
    assert_eq!(
        client::profile_path("home_1-a"),
        Ok("/etc/camera-box/wifi/home_1-a.conf".to_string())
    );
    for bad in ["", "../x", "a b", "é"] {
        assert_eq!(
            client::profile_path(bad),
            Err("invalid profile name (use letters, digits, '-' or '_')".to_string())
        );
        assert!(client::remove_profile(bad).is_err());
    }
    let files = vec!["b.conf".to_string(), "x.txt".to_string(), "a.conf".to_string()];
    assert_eq!(client::list_profiles(&files), ["a", "b"]);
    let save = client::add_profile_conf("a", "network");
    assert_eq!(
        show_all(&save),
        ["dir /etc/camera-box/wifi", "!write /etc/camera-box/wifi/a.conf 600"]
    );
    assert_eq!(body(&save[1]), "network");
}

#[test]
fn short_passwords_are_refused() {
    assert_eq!(
        client::wpa_passphrase("net", "1234567").err(),
        Some("Wi-Fi password must be at least 8 characters".to_string())
    );
    let c = client::add_profile("net", "12345678").unwrap();
    assert_eq!(c.program, "wpa_passphrase");
    assert_eq!(c.args, ["net", "12345678"]);
}

fn params() -> ConnectParams {
    ConnectParams {
        iface: "wlan0".to_string(),
        ssid: "Home".to_string(),
        password: "12345678".to_string(),
        save_as: None,
        dhcp: client::default_true(),
        address: None,
        gateway: None,
        dns: None,
    }
}

#[test]
fn a_request_to_connect_is_checked() {
    assert!(client::prepare_connect(&params(), &names()).is_ok());
    let mut p = params();
    p.ssid = "".to_string();
    assert_eq!(
        client::prepare_connect(&p, &names()).err(),
        Some("ssid is required".to_string())
    );
    let mut p = params();
    p.dhcp = false;
    assert_eq!(
        client::prepare_connect(&p, &names()).err(),
        Some("static addressing requires an address".to_string())
    );
    let mut p = params();
    p.iface = "eth0".to_string();
    assert_eq!(
        client::prepare_connect(&p, &names()).err(),
        Some("unknown wireless interface: eth0".to_string())
    );
    assert_eq!(
        client::connect(&p, &names(), "c").err(),
        Some("unknown wireless interface: eth0".to_string())
    );
    let mut p = params();
    p.password = "short".to_string();
    assert_eq!(
        client::prepare_connect(&p, &names()).err(),
        Some("Wi-Fi password must be at least 8 characters".to_string())
    );
    assert_eq!(
        client::connect(&p, &names(), "c").err(),
        Some("Wi-Fi password must be at least 8 characters".to_string())
    );
}

#[test]
fn connecting_the_primary_interface_gives_up_the_hotspot() {
    let mut p = params();
    p.save_as = Some("home".to_string());
    let list = client::connect(&p, &names(), "network={}").unwrap();
    assert_eq!(
        show_all(&list),
        [
            "!write /run/camera-box-wpa-wlan0.conf 600",
            "dir /etc/camera-box/wifi",
            "!write /etc/camera-box/wifi/home.conf 600",
            "systemctl stop hostapd",
            "systemctl stop dnsmasq",
            "systemctl stop camera-box-ip",
            "stop-client wlan0",
            "ip addr flush dev wlan0",
            "ip link set wlan0 down",
            "sleep 1",
            "ip link set wlan0 up",
            "!wpa_supplicant -B -i wlan0 -c /run/camera-box-wpa-wlan0.conf -P \
             /run/camera-box-wpa-wlan0.pid",
            "sleep 3",
            "!dhclient wlan0",
        ]
    );
    assert_eq!(body(&list[0]), "network={}");
    p.save_as = Some("no good".to_string());
    assert_eq!(
        show(&client::connect(&p, &names(), "x").unwrap()[1]),
        "fail invalid profile name (use letters, digits, '-' or '_')"
    );
}

#[test]
fn connecting_with_a_static_address() {
    let mut p = params();
    p.iface = "wlan1".to_string();
    p.dhcp = false;
    p.address = Some("10.0.0.2/24".to_string());
    p.gateway = Some("10.0.0.1".to_string());
    p.dns = Some("1.1.1.1".to_string());
    let list = client::connect(&p, &names(), "c").unwrap();
    let lines = show_all(&list);
    assert_eq!(lines[1], "stop-client wlan1");
    assert_eq!(
        lines[lines.len() - 3..],
        [
            "!ip addr add 10.0.0.2/24 dev wlan1",
            "ip route replace default via 10.0.0.1 dev wlan1",
            "write /etc/resolv.conf",
        ]
    );
    assert_eq!(body(&list[list.len() - 1]), "nameserver 1.1.1.1\n");
}

#[test]
fn connecting_with_a_profile() {
    let list = client::connect_profile("wlan1", &names(), "home", true, true).unwrap();
    assert!(show_all(&list).iter().any(|l| l.contains("-c /etc/camera-box/wifi/home.conf")));
    assert_eq!(
        client::connect_profile("wlan1", &names(), "home", true, false).err(),
        Some("profile not found: home".to_string())
    );
    assert_eq!(
        client::connect_profile("eth0", &names(), "home", true, true).err(),
        Some("unknown wireless interface: eth0".to_string())
    );
    assert_eq!(
        client::connect_profile("wlan1", &names(), "no good", true, true).err(),
        Some("invalid profile name (use letters, digits, '-' or '_')".to_string())
    );
}

#[test]
fn stopping_a_client() {
    assert_eq!(client::wpa_pidfile("wlan0"), "/run/camera-box-wpa-wlan0.pid");
    assert_eq!(
        show_all(&client::stop_client("wlan0", Some("42\n".to_string()))),
        [
            "kill 42",
            "rm /run/camera-box-wpa-wlan0.pid",
            "pkill -f wpa_supplicant.*wlan0",
            "dhclient -r wlan0",
        ]
    );
    assert_eq!(
        show_all(&client::stop_client("wlan0", Some("x".to_string()))),
        ["rm /run/camera-box-wpa-wlan0.pid", "pkill -f wpa_supplicant.*wlan0", "dhclient -r wlan0"]
    );
    assert_eq!(client::stop_client("wlan0", None).len(), 2);
}

#[test]
fn results_of_commands() {
    let c = command::command("ip", vec!["link", "show"]);
    let ended = |success: bool| Outcome::Ended {
        success,
        stdout: "out".to_string(),
        stderr: " no\n".to_string(),
    };
    assert_eq!(command::sh(&c, ended(true)), Ok("out".to_string()));
    assert_eq!(command::sh(&c, ended(false)), Err("ip link show: no".to_string()));
    assert_eq!(command::sh_out(&c, ended(false)), Err("no".to_string()));
    assert_eq!(
        command::sh(&c, Outcome::NotStarted("gone".to_string())),
        Err("spawn ip: gone".to_string())
    );
}

#[test]
fn only_a_required_step_ends_a_list() {
    let failed = || Err("no".to_string());
    let step = |required: bool| Step::Run { command: command::command("ip", vec![]), required };
    assert_eq!(steps::proceed(&step(true), failed()), failed());
    assert_eq!(steps::proceed(&step(false), failed()), Ok(()));
    assert_eq!(steps::proceed(&step(true), Ok(())), Ok(()));
    assert_eq!(steps::proceed(&Step::Remove { path: "x".to_string(), required: false }, failed()), Ok(()));
    let remove = Step::Remove { path: "x".to_string(), required: true };
    assert_eq!(steps::proceed(&remove, failed()), failed());
}

#[test]
fn a_saved_profile_is_listed_under_its_name() {
    let path = client::profile_path("home").unwrap();
    let file = path.rsplit('/').next().unwrap().to_string();
    assert_eq!(client::list_profiles(&vec![file]), ["home"]);
    assert_ne!(client::profile_path("home"), client::profile_path("home-"));
}

#[test]
fn hostapd_settings_are_lines() {
    let list = hotspot::write_ap_files("wlan0", &ap(), "box");
    let lines = camera_box::text::lines_of(&body(&list[0]));
    assert_eq!(lines[4], "ssid=Box");
    assert_eq!(lines[15], "wpa_passphrase=secret99");
    assert_eq!(lines.len(), 18);
}

#[test]
fn dnsmasq_restarts_after_the_address_is_set() {
    let list = show_all(&hotspot::start_hotspot("wlan0", &names(), &ap(), "box").unwrap());
    let address = list.iter().position(|s| s.starts_with("ip addr add")).unwrap();
    let restart = list.iter().position(|s| s == "!systemctl restart dnsmasq").unwrap();
    assert!(address < restart);
}

#[test]
fn another_interface_leaves_the_hotspot_alone() {
    let mut p = params();
    p.iface = "wlan1".to_string();
    let list = show_all(&client::connect(&p, &names(), "c").unwrap());
    assert!(!list.iter().any(|s| s.contains("stop hostapd")));
}

#[test]
fn the_first_of_two_equal_reports_is_kept() {
    let raw = "BSS a\nsignal: -40\nSSID: x\nRSN:\nBSS b\nsignal: -40\nSSID: x\n";
    let list = scan::scan(raw, &vec![Some(-40), Some(-40)]);
    assert_eq!(list.len(), 1);
    assert!(list[0].secured);
}

/// Carry out a list of which the steps at `failing` fail: what was done, and how it
/// ended.
fn play(list: Vec<Step>, failing: &[usize]) -> (Vec<String>, Result<(), String>) {
    let mut course = Course::begin(list);
    let mut seen = Vec::new();
    while let Some(step) = course.next() {
        seen.push(show(step));
        let result = if failing.contains(&(seen.len() - 1)) {
            Err(format!("failed {}", seen.len() - 1))
        } else {
            Ok(())
        };
        course.report(result);
    }
    (seen, course.outcome())
}

#[test]
fn the_first_required_failure_ends_the_list() {
    let list = || client::connect(&params(), &names(), "c").unwrap();
    let all = show_all(&list());
    assert_eq!(play(list(), &[]), (all.clone(), Ok(())));
    // The hotspot need not stop, the supplicant has to start.
    assert_eq!(play(list(), &[1, 2, 3]), (all.clone(), Ok(())));
    let start = all.iter().position(|s| s.starts_with("!wpa_supplicant")).unwrap();
    let (seen, end) = play(list(), &[1, start, start + 2]);
    assert_eq!(seen, all[..=start]);
    assert_eq!(end, Err(format!("failed {start}")));
    assert_eq!(play(Vec::new(), &[]), (Vec::new(), Ok(())));
}

#[test]
fn a_hotspot_rests_on_its_files_and_services() {
    let list = || hotspot::start_hotspot("wlan0", &names(), &ap(), "box").unwrap();
    assert_eq!(list().len(), 15);
    for i in 0..15 {
        let (seen, end) = play(list(), &[i]);
        if [0, 1, 2, 3, 13, 14].contains(&i) {
            assert_eq!(seen.len(), i + 1);
            assert_eq!(end, Err(format!("failed {i}")));
        } else {
            assert_eq!(seen.len(), 15);
            assert_eq!(end, Ok(()));
        }
    }
}
