//! Hotspot: the access point on the primary interface.

use vstd::prelude::*;
use vstd::string::*;
use vstd::utf8::*;

use crate::config;
use crate::net;
use crate::numeral;
use crate::steps;
use crate::text;

verus! {

// ---------------------------------------------------------------------------
// Validation
// ---------------------------------------------------------------------------

/// One of the four numbers of an IPv4 address.
pub open spec fn octet(s: Seq<char>) -> Option<nat> {
    numeral::read_up_to(s, 255)
}

/// Are these the four numbers of an IPv4 address?
pub open spec fn four_octets(o: Seq<Seq<char>>) -> bool {
    o.len() == 4 && octet(o[0]) is Some && octet(o[1]) is Some && octet(o[2]) is Some && octet(
        o[3],
    ) is Some
}

/// What is wrong with the address of a hotspot. It must be `a.b.c.d/24` with
/// `d` in 1 to 254 and outside the range of the leases, 100 to 200.
pub open spec fn ap_ip_fault(ip_cidr: Seq<char>) -> Option<Seq<char>> {
    match text::split_once(ip_cidr, "/"@) {
        None => Some("hotspot IP must look like 192.168.4.1/24"@),
        Some((ip, prefix)) => {
            let o = text::split(ip, "."@);
            if prefix != "24"@ {
                Some("hotspot IP prefix must be /24"@)
            } else if !four_octets(o) {
                Some("invalid hotspot IP"@)
            } else if octet(o[3])->0 == 0 || octet(o[3])->0 == 255 {
                Some("hotspot IP host part must be 1–254"@)
            } else if 100 <= octet(o[3])->0 <= 200 {
                Some("hotspot IP must be outside .100–.200 (the DHCP range)"@)
            } else {
                None
            }
        },
    }
}

/// Does the text hold a line feed or a carriage return?
pub open spec fn breaks_line(s: Seq<char>) -> bool {
    s.contains('\n') || s.contains('\r')
}

/// What is wrong with the settings of a hotspot. Lengths are in bytes.
pub open spec fn ap_fault(ap: config::ApConfigView) -> Option<Seq<char>> {
    if !(1 <= encode_utf8(ap.ssid).len() <= 32) {
        Some("hotspot name (SSID) must be 1–32 characters"@)
    } else if breaks_line(ap.ssid) || breaks_line(ap.password) {
        Some("hotspot name/password must not contain line breaks"@)
    } else if !(8 <= encode_utf8(ap.password).len() <= 63) {
        Some("hotspot password must be 8–63 characters"@)
    } else {
        ap_ip_fault(ap.ip_cidr)
    }
}

/// Is `r` the refusal for `fault`, and acceptance where there is none?
pub open spec fn answers(r: net::NetResult<()>, fault: Option<Seq<char>>) -> bool {
    match (r, fault) {
        (Ok(_), None) => true,
        (Err(e), Some(m)) => e@ == m,
        _ => false,
    }
}

fn parse_octet(s: &str) -> (r: Option<u64>)
    ensures
        match r {
            Some(n) => octet(s@) == Some(n as nat),
            None => octet(s@) is None,
        },
{
    numeral::parse_up_to(s, 255)
}

/// The AP gateway address must be `a.b.c.d/24` with the host part in 1 to 254
/// and outside the DHCP range, so the gateway can't collide with a lease.
pub fn validate_ap_ip(ip_cidr: &str) -> (r: net::NetResult<()>)
    ensures
        answers(r, ap_ip_fault(ip_cidr@)),
{
    let (ip, prefix) = match text::cut_first(ip_cidr, "/") {
        Some(p) => p,
        None => {
            return Err("hotspot IP must look like 192.168.4.1/24".to_string());
        },
    };
    if !text::same(prefix.as_str(), "24") {
        return Err("hotspot IP prefix must be /24".to_string());
    }
    let octets = text::pieces(ip.as_str(), ".");
    let ghost o = text::split(ip@, "."@);
    assert(o.len() == octets@.len());
    assert(forall|k: int| 0 <= k < o.len() ==> octets@[k]@ == #[trigger] o[k]);
    if octets.len() != 4 {
        return Err("invalid hotspot IP".to_string());
    }
    let mut host: u64 = 0;
    let mut i: usize = 0;
    while i < octets.len()
        invariant
            i <= octets@.len() == 4,
            o.len() == 4,
            forall|k: int| 0 <= k < 4 ==> octets@[k]@ == #[trigger] o[k],
            forall|k: int| 0 <= k < i ==> octet(#[trigger] o[k]) is Some,
            i == 4 ==> octet(o[3]) == Some(host as nat),
            text::split_once(ip_cidr@, "/"@) == Some((ip@, prefix@)),
            prefix@ == "24"@,
            o == text::split(ip@, "."@),
        decreases octets.len() - i,
    {
        match parse_octet(octets[i].as_str()) {
            Some(n) => {
                host = n;
            },
            None => {
                assert(octet(o[i as int]) is None);
                return Err("invalid hotspot IP".to_string());
            },
        }
        i += 1;
    }
    assert(four_octets(o)) by {
        assert(octet(o[0]) is Some && octet(o[1]) is Some && octet(o[2]) is Some);
    }
    if host == 0 || host >= 255 {
        return Err("hotspot IP host part must be 1–254".to_string());
    }
    if 100 <= host && host <= 200 {
        return Err("hotspot IP must be outside .100–.200 (the DHCP range)".to_string());
    }
    Ok(())
}

/// Validate the SSID/passphrase (WPA2-PSK limits) and the AP IP/subnet.
pub fn validate_ap(ap: &config::ApConfig) -> (r: net::NetResult<()>)
    ensures
        answers(r, ap_fault(ap@)),
{
    let ssid_len = text::byte_len(ap.ssid.as_str());
    if ssid_len == 0 || ssid_len > 32 {
        return Err("hotspot name (SSID) must be 1–32 characters".to_string());
    }
    if text::has_char(ap.ssid.as_str(), '\n') || text::has_char(ap.ssid.as_str(), '\r')
        || text::has_char(ap.password.as_str(), '\n') || text::has_char(
        ap.password.as_str(),
        '\r',
    ) {
        return Err("hotspot name/password must not contain line breaks".to_string());
    }
    let pw_len = text::byte_len(ap.password.as_str());
    if pw_len < 8 || pw_len > 63 {
        return Err("hotspot password must be 8–63 characters".to_string());
    }
    validate_ap_ip(ap.ip_cidr.as_str())
}

// ---------------------------------------------------------------------------
// Addresses
// ---------------------------------------------------------------------------

/// The address before the prefix length.
pub open spec fn ap_ip(ip_cidr: Seq<char>) -> Seq<char> {
    text::split(ip_cidr, "/"@)[0]
}

/// The gateway address (the part before `/`).
pub fn ap_ip_of(ip_cidr: &str) -> (r: String)
    ensures
        r@ == ap_ip(ip_cidr@),
{
    match text::cut_first(ip_cidr, "/") {
        Some((head, _)) => head,
        None => ip_cidr.to_string(),
    }
}

/// The first three numbers of the address.
pub open spec fn ap_net(ip_cidr: Seq<char>) -> Seq<char> {
    match text::rsplit_once(ap_ip(ip_cidr), '.') {
        Some((net, _)) => net,
        None => "192.168.4"@,
    }
}

/// The leases of a hotspot: numbers 100 to 200 of its network, for a day.
pub open spec fn dhcp_range(ip_cidr: Seq<char>) -> Seq<char> {
    ap_net(ip_cidr) + ".100,"@ + ap_net(ip_cidr) + ".200,255.255.255.0,24h"@
}

/// dnsmasq `dhcp-range` for the AP subnet.
pub fn dhcp_range_of(ip_cidr: &str) -> (r: String)
    ensures
        r@ == dhcp_range(ip_cidr@),
{
    let ip = ap_ip_of(ip_cidr);
    let net3 = match text::cut_last(ip.as_str(), '.') {
        Some((net, _)) => net,
        None => "192.168.4".to_string(),
    };
    let mut r = net3.clone();
    r.append(".100,");
    r.append(net3.as_str());
    r.append(".200,255.255.255.0,24h");
    r
}

// ---------------------------------------------------------------------------
// Configuration files
// ---------------------------------------------------------------------------

/// The configuration of `hostapd`. The radio parameters are fixed.
pub open spec fn hostapd_lines(iface: Seq<char>, ap: config::ApConfigView) -> Seq<Seq<char>> {
    seq![
        "country_code=CH"@,
        "interface="@ + iface,
        "driver=nl80211"@,
        ""@,
        "ssid="@ + ap.ssid,
        ""@,
        "hw_mode=g"@,
        "channel=6"@,
        ""@,
        "ieee80211n=1"@,
        "wmm_enabled=1"@,
        "auth_algs=1"@,
        "ignore_broadcast_ssid=0"@,
        ""@,
        "wpa=2"@,
        "wpa_passphrase="@ + ap.password,
        "wpa_key_mgmt=WPA-PSK"@,
        "rsn_pairwise=CCMP"@,
    ]
}

/// The configuration of `dnsmasq`: it serves the hotspot only, and hands out
/// the box as router and as name server.
pub open spec fn dnsmasq_lines(iface: Seq<char>, ap: config::ApConfigView) -> Seq<Seq<char>> {
    seq![
        "# Managed by camera-box — do not edit."@,
        "interface="@ + iface,
        "bind-dynamic"@,
        "dhcp-range="@ + dhcp_range(ap.ip_cidr),
        "dhcp-option=option:router,"@ + ap_ip(ap.ip_cidr),
        "dhcp-option=option:dns-server,"@ + ap_ip(ap.ip_cidr),
        "domain-needed"@,
        "bogus-priv"@,
        "conf-dir=/etc/dnsmasq.d/,*.conf"@,
    ]
}

/// The unit that gives the interface its address at boot.
pub open spec fn ip_unit_lines(iface: Seq<char>, ap: config::ApConfigView) -> Seq<Seq<char>> {
    seq![
        "[Unit]"@,
        "Description=Set static IP for the camera-box AP"@,
        "Before=dnsmasq.service hostapd.service"@,
        "After=sys-subsystem-net-devices-"@ + iface + ".device"@,
        "Wants=sys-subsystem-net-devices-"@ + iface + ".device"@,
        ""@,
        "[Service]"@,
        "Type=oneshot"@,
        "ExecStartPre=-/usr/sbin/rfkill unblock all"@,
        "ExecStart=/sbin/ip addr flush dev "@ + iface,
        "ExecStart=/sbin/ip addr add "@ + ap.ip_cidr + " dev "@ + iface,
        "ExecStart=/sbin/ip link set "@ + iface + " up"@,
        "RemainAfterExit=yes"@,
        ""@,
        "[Install]"@,
        "WantedBy=multi-user.target"@,
    ]
}

/// Write `/etc/hostapd/hostapd.conf` from the saved AP settings. It holds the
/// passphrase, so it is private.
pub fn write_hostapd_conf(iface: &str, ap: &config::ApConfig) -> (r: steps::Step)
    ensures
        r@ == (steps::StepView::Write {
            path: "/etc/hostapd/hostapd.conf"@,
            body: text::unlines(hostapd_lines(iface@, ap@)),
            private: true,
            required: true,
        }),
{
    let mut lines: Vec<String> = Vec::new();
    text::push_line(&mut lines, "country_code=CH");
    text::push_setting(&mut lines, "interface=", iface);
    text::push_line(&mut lines, "driver=nl80211");
    text::push_line(&mut lines, "");
    text::push_setting(&mut lines, "ssid=", ap.ssid.as_str());
    text::push_line(&mut lines, "");
    text::push_line(&mut lines, "hw_mode=g");
    text::push_line(&mut lines, "channel=6");
    text::push_line(&mut lines, "");
    text::push_line(&mut lines, "ieee80211n=1");
    text::push_line(&mut lines, "wmm_enabled=1");
    text::push_line(&mut lines, "auth_algs=1");
    text::push_line(&mut lines, "ignore_broadcast_ssid=0");
    text::push_line(&mut lines, "");
    text::push_line(&mut lines, "wpa=2");
    text::push_setting(&mut lines, "wpa_passphrase=", ap.password.as_str());
    text::push_line(&mut lines, "wpa_key_mgmt=WPA-PSK");
    text::push_line(&mut lines, "rsn_pairwise=CCMP");
    assert(text::texts(lines@) =~= hostapd_lines(iface@, ap@));
    steps::Step::Write {
        path: "/etc/hostapd/hostapd.conf".to_string(),
        body: text::text_of_lines(&lines),
        private: true,
        required: true,
    }
}

/// Write `/etc/dnsmasq.conf`. The DHCP range and gateway/DNS options follow the
/// configured AP IP.
pub fn write_dnsmasq_conf(iface: &str, ap: &config::ApConfig) -> (r: steps::Step)
    ensures
        r@ == (steps::StepView::Write {
            path: "/etc/dnsmasq.conf"@,
            body: text::unlines(dnsmasq_lines(iface@, ap@)),
            private: false,
            required: true,
        }),
{
    let ip = ap_ip_of(ap.ip_cidr.as_str());
    let range = dhcp_range_of(ap.ip_cidr.as_str());
    let mut lines: Vec<String> = Vec::new();
    text::push_line(&mut lines, "# Managed by camera-box — do not edit.");
    text::push_setting(&mut lines, "interface=", iface);
    text::push_line(&mut lines, "bind-dynamic");
    text::push_setting(&mut lines, "dhcp-range=", range.as_str());
    text::push_setting(&mut lines, "dhcp-option=option:router,", ip.as_str());
    text::push_setting(&mut lines, "dhcp-option=option:dns-server,", ip.as_str());
    text::push_line(&mut lines, "domain-needed");
    text::push_line(&mut lines, "bogus-priv");
    text::push_line(&mut lines, "conf-dir=/etc/dnsmasq.d/,*.conf");
    assert(text::texts(lines@) =~= dnsmasq_lines(iface@, ap@));
    steps::Step::Write {
        path: "/etc/dnsmasq.conf".to_string(),
        body: text::text_of_lines(&lines),
        private: false,
        required: true,
    }
}

/// Rewrite the boot-time unit so a reboot brings the primary interface up on
/// the configured AP IP (before dnsmasq/hostapd start).
pub fn write_camera_box_ip_unit(iface: &str, ap: &config::ApConfig) -> (r: steps::Step)
    ensures
        r@ == (steps::StepView::Write {
            path: "/etc/systemd/system/camera-box-ip.service"@,
            body: text::unlines(ip_unit_lines(iface@, ap@)),
            private: false,
            required: true,
        }),
{
    let mut after = "After=sys-subsystem-net-devices-".to_string();
    after.append(iface);
    let mut wants = "Wants=sys-subsystem-net-devices-".to_string();
    wants.append(iface);
    let mut address = "ExecStart=/sbin/ip addr add ".to_string();
    address.append(ap.ip_cidr.as_str());
    address.append(" dev ");
    let mut link = "ExecStart=/sbin/ip link set ".to_string();
    link.append(iface);
    let mut lines: Vec<String> = Vec::new();
    text::push_line(&mut lines, "[Unit]");
    text::push_line(&mut lines, "Description=Set static IP for the camera-box AP");
    text::push_line(&mut lines, "Before=dnsmasq.service hostapd.service");
    text::push_setting(&mut lines, after.as_str(), ".device");
    text::push_setting(&mut lines, wants.as_str(), ".device");
    text::push_line(&mut lines, "");
    text::push_line(&mut lines, "[Service]");
    text::push_line(&mut lines, "Type=oneshot");
    text::push_line(&mut lines, "ExecStartPre=-/usr/sbin/rfkill unblock all");
    text::push_setting(&mut lines, "ExecStart=/sbin/ip addr flush dev ", iface);
    text::push_setting(&mut lines, address.as_str(), iface);
    text::push_setting(&mut lines, link.as_str(), " up");
    text::push_line(&mut lines, "RemainAfterExit=yes");
    text::push_line(&mut lines, "");
    text::push_line(&mut lines, "[Install]");
    text::push_line(&mut lines, "WantedBy=multi-user.target");
    assert(text::texts(lines@) =~= ip_unit_lines(iface@, ap@));
    steps::Step::Write {
        path: "/etc/systemd/system/camera-box-ip.service".to_string(),
        body: text::text_of_lines(&lines),
        private: false,
        required: true,
    }
}

/// Write every file that defines the hotspot, and have systemd read its units
/// anew.
pub open spec fn file_steps(
    iface: Seq<char>,
    ap: config::ApConfigView,
    hostname: Seq<char>,
) -> Seq<steps::StepView> {
    seq![
        steps::StepView::Write {
            path: "/etc/hostapd/hostapd.conf"@,
            body: text::unlines(hostapd_lines(iface, ap)),
            private: true,
            required: true,
        },
        steps::StepView::Write {
            path: "/etc/dnsmasq.conf"@,
            body: text::unlines(dnsmasq_lines(iface, ap)),
            private: false,
            required: true,
        },
        net::mapping_step(hostname, ap_ip(ap.ip_cidr)),
        steps::StepView::Write {
            path: "/etc/systemd/system/camera-box-ip.service"@,
            body: text::unlines(ip_unit_lines(iface, ap)),
            private: false,
            required: true,
        },
        steps::may("systemctl"@, seq!["daemon-reload"@]),
    ]
}

/// Write every file that defines the AP (hostapd, dnsmasq, boot-time IP unit,
/// and the hostname mapping) and reload systemd. Network services are not
/// (re)started.
pub fn write_ap_files(iface: &str, ap: &config::ApConfig, hostname: &str) -> (r: Vec<steps::Step>)
    ensures
        steps::step_views(r@) == file_steps(iface@, ap@, hostname@),
{
    let mut list: Vec<steps::Step> = Vec::new();
    let ip = ap_ip_of(ap.ip_cidr.as_str());
    steps::push(&mut list, write_hostapd_conf(iface, ap));
    steps::push(&mut list, write_dnsmasq_conf(iface, ap));
    steps::push(&mut list, net::write_ap_hostname_mapping(hostname, ip.as_str()));
    steps::push(&mut list, write_camera_box_ip_unit(iface, ap));
    steps::push_may(&mut list, "systemctl", vec!["daemon-reload"]);
    assert(steps::step_views(list@) =~~= file_steps(iface@, ap@, hostname@));
    list
}

/// Regenerate the on-disk AP config files from the saved settings so a reboot
/// brings the hotspot up with them. Does **not** restart any service.
pub fn sync_ap_config(iface: &str, ap: &config::ApConfig, hostname: &str) -> (r: Vec<steps::Step>)
    ensures
        steps::step_views(r@) == file_steps(iface@, ap@, hostname@),
{
    write_ap_files(iface, ap, hostname)
}

// ---------------------------------------------------------------------------
// Switching
// ---------------------------------------------------------------------------

/// What is wrong with opening this hotspot on this interface.
pub open spec fn hotspot_fault(
    iface: Seq<char>,
    names: Seq<Seq<char>>,
    ap: config::ApConfigView,
) -> Option<Seq<char>> {
    if !names.contains(iface) {
        Some("unknown wireless interface: "@ + iface)
    } else {
        ap_fault(ap)
    }
}

/// Put the interface up afresh with the address of the hotspot, then restart
/// the services: `dnsmasq` hands out no leases before the address is set.
pub open spec fn switch_steps(iface: Seq<char>, ip_cidr: Seq<char>) -> Seq<steps::StepView> {
    seq![
        steps::StepView::StopClient { iface },
        steps::may("rfkill"@, seq!["unblock"@, "all"@]),
        steps::may("ip"@, seq!["addr"@, "flush"@, "dev"@, iface]),
        steps::may("ip"@, seq!["link"@, "set"@, iface, "down"@]),
        steps::StepView::Sleep { secs: 1 },
        steps::may("ip"@, seq!["link"@, "set"@, iface, "up"@]),
        steps::may("ip"@, seq!["addr"@, "add"@, ip_cidr, "dev"@, iface]),
        steps::may("systemctl"@, seq!["unmask"@, "hostapd"@, "dnsmasq"@]),
        steps::must("systemctl"@, seq!["restart"@, "dnsmasq"@]),
        steps::must("systemctl"@, seq!["restart"@, "hostapd"@]),
    ]
}

fn check_hotspot(iface: &str, names: &Vec<String>, ap: &config::ApConfig) -> (r: net::NetResult<()>)
    ensures
        answers(r, hotspot_fault(iface@, text::texts(names@), ap@)),
{
    match net::validate_iface(iface, names) {
        Ok(_) => validate_ap(ap),
        Err(e) => Err(e),
    }
}

/// Is `r` the list `steps`, or the refusal for `fault` where there is one?
pub open spec fn plans(
    r: net::NetResult<Vec<steps::Step>>,
    fault: Option<Seq<char>>,
    steps: Seq<steps::StepView>,
) -> bool {
    match (r, fault) {
        (Ok(list), None) => steps::step_views(list@) == steps,
        (Err(e), Some(m)) => e@ == m,
        _ => false,
    }
}

/// Switch an interface to hotspot (AP) mode.
pub fn start_hotspot(
    iface: &str,
    names: &Vec<String>,
    ap: &config::ApConfig,
    hostname: &str,
) -> (r: net::NetResult<Vec<steps::Step>>)
    ensures
        plans(
            r,
            hotspot_fault(iface@, text::texts(names@), ap@),
            file_steps(iface@, ap@, hostname@) + switch_steps(iface@, ap@.ip_cidr),
        ),
{
    match check_hotspot(iface, names, ap) {
        Ok(_) => {},
        Err(e) => {
            return Err(e);
        },
    }
    let cidr: &str = ap.ip_cidr.as_str();
    let mut list = write_ap_files(iface, ap, hostname);
    let mut on: Vec<steps::Step> = Vec::new();
    steps::push(&mut on, steps::Step::StopClient { iface: iface.to_string() });
    steps::push_may(&mut on, "rfkill", vec!["unblock", "all"]);
    steps::push_may(&mut on, "ip", vec!["addr", "flush", "dev", iface]);
    steps::push_may(&mut on, "ip", vec!["link", "set", iface, "down"]);
    steps::push(&mut on, steps::Step::Sleep { secs: 1 });
    steps::push_may(&mut on, "ip", vec!["link", "set", iface, "up"]);
    steps::push_may(&mut on, "ip", vec!["addr", "add", cidr, "dev", iface]);
    steps::push_may(&mut on, "systemctl", vec!["unmask", "hostapd", "dnsmasq"]);
    steps::push_must(&mut on, "systemctl", vec!["restart", "dnsmasq"]);
    steps::push_must(&mut on, "systemctl", vec!["restart", "hostapd"]);
    assert(steps::step_views(on@) =~~= switch_steps(iface@, ap@.ip_cidr));
    steps::push_all(&mut list, on);
    Ok(list)
}

/// Save new AP settings without switching mode: the files are regenerated. What
/// `reapply_ap` adds is to be done afterwards.
pub fn apply_ap(
    iface: &str,
    names: &Vec<String>,
    ap: &config::ApConfig,
    hostname: &str,
) -> (r: net::NetResult<Vec<steps::Step>>)
    ensures
        plans(
            r,
            hotspot_fault(iface@, text::texts(names@), ap@),
            file_steps(iface@, ap@, hostname@),
        ),
{
    match check_hotspot(iface, names, ap) {
        Ok(_) => Ok(write_ap_files(iface, ap, hostname)),
        Err(e) => Err(e),
    }
}

/// Give a serving interface its new address and restart the services.
pub open spec fn reapply_steps(iface: Seq<char>, ip_cidr: Seq<char>) -> Seq<steps::StepView> {
    seq![
        steps::may("ip"@, seq!["addr"@, "flush"@, "dev"@, iface]),
        steps::may("ip"@, seq!["addr"@, "add"@, ip_cidr, "dev"@, iface]),
        steps::must("systemctl"@, seq!["restart"@, "dnsmasq"@]),
        steps::must("systemctl"@, seq!["restart"@, "hostapd"@]),
    ]
}

/// If the interface is currently serving the AP (by what `iw dev <name> info`
/// says), have changed settings take effect now; else there is nothing to do.
pub fn reapply_ap(iface: &str, info: &str, ap: &config::ApConfig) -> (r: Vec<steps::Step>)
    ensures
        steps::step_views(r@) == (if net::mode_of(info@) == "ap"@ {
            reapply_steps(iface@, ap@.ip_cidr)
        } else {
            Seq::<steps::StepView>::empty()
        }),
{
    let mut list: Vec<steps::Step> = Vec::new();
    let mode = net::wifi_mode(info);
    if text::same(mode.as_str(), "ap") {
        let cidr: &str = ap.ip_cidr.as_str();
        steps::push_may(&mut list, "ip", vec!["addr", "flush", "dev", iface]);
        steps::push_may(&mut list, "ip", vec!["addr", "add", cidr, "dev", iface]);
        steps::push_must(&mut list, "systemctl", vec!["restart", "dnsmasq"]);
        steps::push_must(&mut list, "systemctl", vec!["restart", "hostapd"]);
        assert(steps::step_views(list@) =~~= reapply_steps(iface@, ap@.ip_cidr));
    } else {
        assert(steps::step_views(list@) =~= Seq::<steps::StepView>::empty());
    }
    list
}

/// Stop the services of the hotspot.
pub open spec fn stop_steps() -> Seq<steps::StepView> {
    seq![
        steps::may("systemctl"@, seq!["stop"@, "hostapd"@]),
        steps::may("systemctl"@, seq!["stop"@, "dnsmasq"@]),
        steps::may("systemctl"@, seq!["stop"@, "camera-box-ip"@]),
    ]
}

pub fn stop_hotspot() -> (r: Vec<steps::Step>)
    ensures
        steps::step_views(r@) == stop_steps(),
{
    let mut list: Vec<steps::Step> = Vec::new();
    steps::push_may(&mut list, "systemctl", vec!["stop", "hostapd"]);
    steps::push_may(&mut list, "systemctl", vec!["stop", "dnsmasq"]);
    steps::push_may(&mut list, "systemctl", vec!["stop", "camera-box-ip"]);
    assert(steps::step_views(list@) =~~= stop_steps());
    list
}

// ---------------------------------------------------------------------------
// Laws
// ---------------------------------------------------------------------------

/// Where the address of a hotspot is accepted, it stands in the network whose
/// numbers 100 to 200 are the leases, under a number that is no lease.
pub proof fn the_gateway_is_no_lease(ip_cidr: Seq<char>)
    requires
        ap_ip_fault(ip_cidr) is None,
    ensures
        text::rsplit_once(ap_ip(ip_cidr), '.') matches Some((net, host)) && {
            &&& ap_net(ip_cidr) == net
            &&& octet(host) matches Some(n) && 1 <= n <= 254 && !(100 <= n <= 200)
        },
{
    reveal_strlit(".");
    reveal_strlit("/");
    let (ip, prefix) = text::split_once(ip_cidr, "/"@)->0;
    assert(text::split(ip_cidr, "/"@)[0] == ip);
    let o = text::split(ip, "."@);
    assert("."@ =~= seq!['.']);
    text::the_last_piece_follows_the_last_separator(ip, '.');
    if text::rsplit_once(ip, '.') is None {
        text::lemma_find_last(ip, '.');
        assert forall|j: int| 0 <= j < ip.len() implies !seq!['.'].contains(#[trigger] ip[j]) by {
            assert(ip[j] != '.');
        }
        text::lemma_find_unique(ip, seq!['.'], ip.len() as int);
        assert(o.len() == 1);
    }
}

/// Does the step restart a service?
pub open spec fn restarts(s: steps::StepView, service: Seq<char>) -> bool {
    s matches steps::StepView::Run { command, .. } && command.program == "systemctl"@
        && command.args == seq!["restart"@, service]
}

/// Regenerating the files of a hotspot restarts no service.
pub proof fn syncing_restarts_nothing(
    iface: Seq<char>,
    ap: config::ApConfigView,
    hostname: Seq<char>,
    service: Seq<char>,
    i: int,
)
    requires
        0 <= i < file_steps(iface, ap, hostname).len(),
    ensures
        !restarts(file_steps(iface, ap, hostname)[i], service),
{
    let s = file_steps(iface, ap, hostname)[i];
    if restarts(s, service) {
        assert(i == 4);
        assert(s->command.args.len() == 1);
        assert(seq!["restart"@, service].len() == 2);
    }
}

/// Does the step give the interface this address?
pub open spec fn sets_address(s: steps::StepView, iface: Seq<char>, ip_cidr: Seq<char>) -> bool {
    s == steps::may("ip"@, seq!["addr"@, "add"@, ip_cidr, "dev"@, iface])
}

/// Does the step at `j` come after one that gives the interface this address?
pub open spec fn has_address(
    list: Seq<steps::StepView>,
    j: int,
    iface: Seq<char>,
    ip_cidr: Seq<char>,
) -> bool {
    exists|i: int| 0 <= i < j && sets_address(#[trigger] list[i], iface, ip_cidr)
}

/// When a hotspot is opened or changed, `dnsmasq` is restarted, and never before
/// the interface has its address.
pub proof fn the_address_is_set_before_dnsmasq_restarts(
    iface: Seq<char>,
    ip_cidr: Seq<char>,
    j: int,
)
    ensures
        exists|k: int|
            0 <= k < switch_steps(iface, ip_cidr).len() && restarts(
                #[trigger] switch_steps(iface, ip_cidr)[k],
                "dnsmasq"@,
            ),
        0 <= j < switch_steps(iface, ip_cidr).len() && restarts(
            switch_steps(iface, ip_cidr)[j],
            "dnsmasq"@,
        ) ==> has_address(switch_steps(iface, ip_cidr), j, iface, ip_cidr),
        exists|k: int|
            0 <= k < reapply_steps(iface, ip_cidr).len() && restarts(
                #[trigger] reapply_steps(iface, ip_cidr)[k],
                "dnsmasq"@,
            ),
        0 <= j < reapply_steps(iface, ip_cidr).len() && restarts(
            reapply_steps(iface, ip_cidr)[j],
            "dnsmasq"@,
        ) ==> has_address(reapply_steps(iface, ip_cidr), j, iface, ip_cidr),
{
    reveal_strlit("systemctl");
    reveal_strlit("ip");
    reveal_strlit("rfkill");
    let a = switch_steps(iface, ip_cidr);
    assert("ip"@.len() != "systemctl"@.len() && "rfkill"@.len() != "systemctl"@.len());
    assert(sets_address(a[6], iface, ip_cidr) && restarts(a[8], "dnsmasq"@));
    let b = reapply_steps(iface, ip_cidr);
    assert(sets_address(b[1], iface, ip_cidr) && restarts(b[2], "dnsmasq"@));
}

/// Has one of the steps that opening a hotspot rests on failed: a file that could not
/// be written, or a service that did not restart?
pub open spec fn opening_failed(faults: Seq<Option<Seq<char>>>, i: int) -> bool {
    (0 <= i < 4 || i == 13 || i == 14) && faults[i] is Some
}

/// A hotspot is opened exactly where its four files were written and both services
/// restarted; else the outcome is the first of these errors, and what follows it is
/// not done. No other failure counts.
#[verifier::spinoff_prover]
#[verifier::rlimit(50)]
pub proof fn a_hotspot_opens_if_its_files_and_services_do(
    iface: Seq<char>,
    ap: config::ApConfigView,
    hostname: Seq<char>,
    faults: Seq<Option<Seq<char>>>,
)
    requires
        faults.len() == 15,
    ensures
        ({
            let list = file_steps(iface, ap, hostname) + switch_steps(iface, ap.ip_cidr);
            let (n, error) = steps::carried_out(list, faults);
            &&& list.len() == 15
            &&& error is None <==> forall|i: int| !#[trigger] opening_failed(faults, i)
            &&& error is Some ==> {
                &&& error == faults[n - 1]
                &&& opening_failed(faults, n - 1)
                &&& forall|i: int| i < n - 1 ==> !#[trigger] opening_failed(faults, i)
            }
        }),
{
    let list = file_steps(iface, ap, hostname) + switch_steps(iface, ap.ip_cidr);
    steps::the_first_required_failure_ends_a_list(list, faults);
    assert(list.len() == 15);
    assert forall|i: int| 0 <= i < 15 implies steps::is_required(#[trigger] list[i]) == (i < 4 || i
        == 13 || i == 14) by {
        if i < 5 {
            assert(list[i] == file_steps(iface, ap, hostname)[i]);
        } else {
            assert(list[i] == switch_steps(iface, ap.ip_cidr)[i - 5]);
        }
    }
    let (n, error) = steps::carried_out(list, faults);
    let clean = if error is None {
        n as int
    } else {
        n - 1
    };
    assert forall|i: int| i < clean implies !#[trigger] opening_failed(faults, i) by {
        if 0 <= i {
            assert(!steps::ends(list[i], faults[i]));
        }
    }
    if error is Some {
        assert(steps::ends(list[n - 1], faults[n - 1]));
        assert(opening_failed(faults, n - 1));
    }
}

proof fn lemma_setting_is_a_line(key: Seq<char>, value: Seq<char>)
    requires
        text::is_line(key),
        !breaks_line(value),
    ensures
        text::is_line(key + value),
{
    let s = key + value;
    assert forall|i: int| 0 <= i < s.len() implies s[i] != '\n' by {
        if i < key.len() {
            assert(key.contains(key[i]));
        } else {
            assert(value.contains(value[i - key.len()]));
        }
    }
    if value.len() > 0 {
        assert(s.last() == value[value.len() - 1]);
        assert(value.contains(value[value.len() - 1]));
    } else if key.len() > 0 {
        assert(s.last() == key.last());
    }
}

/// In the configuration of `hostapd`, the name and the passphrase of an
/// accepted hotspot stand whole on lines of their own, and nothing in them
/// makes another line.
pub proof fn hostapd_settings_stay_on_their_lines(iface: Seq<char>, ap: config::ApConfigView)
    requires
        !breaks_line(iface),
        ap_fault(ap) is None,
    ensures
        text::lines(text::unlines(hostapd_lines(iface, ap))) == hostapd_lines(iface, ap),
{
    reveal_strlit("country_code=CH");
    reveal_strlit("interface=");
    reveal_strlit("driver=nl80211");
    reveal_strlit("");
    reveal_strlit("ssid=");
    reveal_strlit("hw_mode=g");
    reveal_strlit("channel=6");
    reveal_strlit("ieee80211n=1");
    reveal_strlit("wmm_enabled=1");
    reveal_strlit("auth_algs=1");
    reveal_strlit("ignore_broadcast_ssid=0");
    reveal_strlit("wpa=2");
    reveal_strlit("wpa_passphrase=");
    reveal_strlit("wpa_key_mgmt=WPA-PSK");
    reveal_strlit("rsn_pairwise=CCMP");
    lemma_setting_is_a_line("interface="@, iface);
    lemma_setting_is_a_line("ssid="@, ap.ssid);
    lemma_setting_is_a_line("wpa_passphrase="@, ap.password);
    text::lines_read_back(hostapd_lines(iface, ap));
}

/// The text `a.b.c.d` of four numbers.
pub open spec fn dotted(a: nat, b: nat, c: nat, d: nat) -> Seq<char> {
    numeral::decimal(a).push('.') + (numeral::decimal(b).push('.') + (numeral::decimal(c).push('.')
        + numeral::decimal(d)))
}

proof fn lemma_digits_separate_nothing(n: nat, sep: char)
    requires
        sep == '.' || sep == '/',
    ensures
        forall|i: int|
            0 <= i < numeral::decimal(n).len() ==> !seq![sep].contains(
                #[trigger] numeral::decimal(n)[i],
            ),
{
    let s = numeral::decimal(n);
    numeral::decimal_reads_back(n);
    assert forall|i: int| 0 <= i < s.len() implies !seq![sep].contains(#[trigger] s[i]) by {
        assert(numeral::is_digit(s[i]));
    }
}

#[verifier::spinoff_prover]
#[verifier::rlimit(50)]
proof fn lemma_dotted(a: nat, b: nat, c: nat, d: nat)
    ensures
        text::split(dotted(a, b, c, d), "."@) == seq![
            numeral::decimal(a),
            numeral::decimal(b),
            numeral::decimal(c),
            numeral::decimal(d),
        ],
        forall|i: int|
            0 <= i < dotted(a, b, c, d).len() ==> !"/"@.contains(#[trigger] dotted(a, b, c, d)[i]),
{
    reveal_strlit(".");
    reveal_strlit("/");
    let dot = seq!['.'];
    assert("."@ =~= dot);
    assert("/"@ =~= seq!['/']);
    assert(dot[0] == '.');
    let (x, y, z, w) = (
        numeral::decimal(a),
        numeral::decimal(b),
        numeral::decimal(c),
        numeral::decimal(d),
    );
    lemma_digits_separate_nothing(a, '.');
    lemma_digits_separate_nothing(b, '.');
    lemma_digits_separate_nothing(c, '.');
    lemma_digits_separate_nothing(d, '.');
    lemma_digits_separate_nothing(a, '/');
    lemma_digits_separate_nothing(b, '/');
    lemma_digits_separate_nothing(c, '/');
    lemma_digits_separate_nothing(d, '/');
    text::splitting_cuts_at_every_separator(w, '.', w, dot);
    text::splitting_cuts_at_every_separator(z, '.', w, dot);
    text::splitting_cuts_at_every_separator(y, '.', z.push('.') + w, dot);
    text::splitting_cuts_at_every_separator(x, '.', y.push('.') + (z.push('.') + w), dot);
    assert(seq![x] + (seq![y] + (seq![z] + seq![w])) =~= seq![x, y, z, w]);
    let s = dotted(a, b, c, d);
    let slash = seq!['/'];
    assert forall|i: int| 0 <= i < s.len() implies !slash.contains(#[trigger] s[i]) by {
        let (p, q, r) = (x.len() as int + 1, x.len() + y.len() + 2, x.len() + y.len() + z.len() + 3);
        if i < x.len() {
            assert(s[i] == x[i]);
        } else if i == p - 1 {
            assert(s[i] == '.');
        } else if i < q - 1 {
            assert(s[i] == y[i - p]);
        } else if i == q - 1 {
            assert(s[i] == '.');
        } else if i < r - 1 {
            assert(s[i] == z[i - q]);
        } else if i == r - 1 {
            assert(s[i] == '.');
        } else {
            assert(s[i] == w[i - r]);
        }
    }
}

/// An address `a.b.c.d/24` is accepted exactly where its numbers are at most 255 and the
/// last is 1 to 99 or 201 to 254; it is refused for the first thing that is wrong with
/// it.
#[verifier::spinoff_prover]
#[verifier::rlimit(50)]
pub proof fn which_addresses_are_accepted(a: nat, b: nat, c: nat, d: nat)
    ensures
        ({
            let fault = ap_ip_fault(dotted(a, b, c, d).push('/') + "24"@);
            let is_address = a <= 255 && b <= 255 && c <= 255 && d <= 255;
            &&& fault is None <==> is_address && (1 <= d <= 99 || 201 <= d <= 254)
            &&& !is_address ==> fault == Some("invalid hotspot IP"@)
            &&& is_address && (d == 0 || d == 255) ==> fault == Some(
                "hotspot IP host part must be 1–254"@,
            )
            &&& is_address && 100 <= d <= 200 ==> fault == Some(
                "hotspot IP must be outside .100–.200 (the DHCP range)"@,
            )
        }),
{
    let ip = dotted(a, b, c, d);
    lemma_dotted(a, b, c, d);
    reveal_strlit("/");
    assert("/"@[0] == '/');
    text::splitting_cuts_at_every_separator(ip, '/', "24"@, "/"@);
    numeral::decimal_reads_back(a);
    numeral::decimal_reads_back(b);
    numeral::decimal_reads_back(c);
    numeral::decimal_reads_back(d);
}

/// An address needs a prefix length, and it has to be 24.
pub proof fn an_address_needs_its_prefix(ip: Seq<char>, prefix: Seq<char>)
    requires
        !ip.contains('/'),
    ensures
        ap_ip_fault(ip) == Some("hotspot IP must look like 192.168.4.1/24"@),
        prefix != "24"@ ==> ap_ip_fault(ip.push('/') + prefix) == Some(
            "hotspot IP prefix must be /24"@,
        ),
        ap_ip(ip.push('/') + prefix) == ip,
        ap_ip(ip) == ip,
{
    reveal_strlit("/");
    assert("/"@ =~= seq!['/']);
    assert("/"@[0] == '/');
    assert forall|i: int| 0 <= i < ip.len() implies !"/"@.contains(#[trigger] ip[i]) by {
        assert(ip.contains(ip[i]));
    }
    text::splitting_cuts_at_every_separator(ip, '/', prefix, "/"@);
}

/// The leases of a hotspot at `a.b.c.d` are `a.b.c.100` to `a.b.c.200`.
pub proof fn the_leases_of_a_hotspot(net: Seq<char>, d: nat)
    requires
        !net.contains('/'),
    ensures
        dhcp_range(net.push('.') + numeral::decimal(d) + "/24"@) == net + ".100,"@ + net
            + ".200,255.255.255.0,24h"@,
{
    let host = numeral::decimal(d);
    let ip = net.push('.') + host;
    numeral::decimal_reads_back(d);
    reveal_strlit("/24");
    reveal_strlit("24");
    assert("/24"@ =~= seq!['/'] + "24"@);
    assert(ip + "/24"@ =~= ip.push('/') + "24"@);
    assert(!ip.contains('/')) by {
        if ip.contains('/') {
            let k = choose|k: int| 0 <= k < ip.len() && ip[k] == '/';
            if k < net.len() {
                assert(net.contains(net[k]));
            } else if k > net.len() {
                assert(numeral::is_digit(host[k - net.len() - 1]));
            }
        }
    }
    an_address_needs_its_prefix(ip, "24"@);
    assert(!host.contains('.')) by {
        if host.contains('.') {
            let k = choose|k: int| 0 <= k < host.len() && host[k] == '.';
            assert(numeral::is_digit(host[k]));
        }
    }
    text::the_last_separator_cuts(net, '.', host);
}

/// The settings of a hotspot are accepted exactly where its name has 1 to 32 bytes, its
/// password 8 to 63, neither has a line break, and the address is; the first thing that
/// is wrong is told.
pub proof fn which_hotspots_are_accepted(ap: config::ApConfigView)
    ensures
        ({
            let ssid = encode_utf8(ap.ssid).len();
            let pass = encode_utf8(ap.password).len();
            let breaks = ap.ssid.contains('\n') || ap.ssid.contains('\r') || ap.password.contains(
                '\n',
            ) || ap.password.contains('\r');
            &&& ap_fault(ap) is None <==> 0 < ssid < 33 && !breaks && 7 < pass < 64 && ap_ip_fault(
                ap.ip_cidr,
            ) is None
            &&& !(0 < ssid < 33) ==> ap_fault(ap) == Some(
                "hotspot name (SSID) must be 1–32 characters"@,
            )
            &&& 0 < ssid < 33 && breaks ==> ap_fault(ap) == Some(
                "hotspot name/password must not contain line breaks"@,
            )
            &&& 0 < ssid < 33 && !breaks && !(7 < pass < 64) ==> ap_fault(ap) == Some(
                "hotspot password must be 8–63 characters"@,
            )
            &&& 0 < ssid < 33 && !breaks && 7 < pass < 64 ==> ap_fault(ap) == ap_ip_fault(
                ap.ip_cidr,
            )
        }),
{
}

/// A hotspot is opened on a known interface only, and with accepted settings only.
pub proof fn which_interfaces_can_open_a_hotspot(
    iface: Seq<char>,
    names: Seq<Seq<char>>,
    ap: config::ApConfigView,
)
    ensures
        hotspot_fault(iface, names, ap) is None <==> names.contains(iface) && ap_fault(ap) is None,
        !names.contains(iface) ==> hotspot_fault(iface, names, ap) == Some(
            "unknown wireless interface: "@ + iface,
        ),
        names.contains(iface) ==> hotspot_fault(iface, names, ap) == ap_fault(ap),
{
}

/// `hostapd` serves the configured name under the configured passphrase on the interface,
/// as a WPA2 network; these are all its settings.
#[verifier::spinoff_prover]
#[verifier::rlimit(50)]
pub proof fn hostapd_serves_the_configured_network(iface: Seq<char>, ap: config::ApConfigView)
    ensures
        ({
            let lines = hostapd_lines(iface, ap);
            &&& lines.len() == 18
            &&& lines.contains("interface="@ + iface)
            &&& lines.contains("ssid="@ + ap.ssid)
            &&& lines.contains("wpa_passphrase="@ + ap.password)
            &&& lines.contains("wpa=2"@)
            &&& lines.contains("wpa_key_mgmt=WPA-PSK"@)
            &&& lines.contains("rsn_pairwise=CCMP"@)
            &&& lines.contains("country_code=CH"@)
            &&& lines.contains("driver=nl80211"@)
            &&& lines.contains("hw_mode=g"@)
            &&& lines.contains("channel=6"@)
            &&& lines.contains("ieee80211n=1"@)
            &&& lines.contains("wmm_enabled=1"@)
            &&& lines.contains("auth_algs=1"@)
            &&& lines.contains("ignore_broadcast_ssid=0"@)
            &&& forall|i: int|
                i == 3 || i == 5 || i == 8 || i == 13 ==> (#[trigger] lines[i]).len() == 0
        }),
{
    let lines = hostapd_lines(iface, ap);
    reveal_strlit("");
    assert(lines[0] == "country_code=CH"@ && lines[1] == "interface="@ + iface && lines[2]
        == "driver=nl80211"@ && lines[4] == "ssid="@ + ap.ssid && lines[6] == "hw_mode=g"@
        && lines[7] == "channel=6"@ && lines[9] == "ieee80211n=1"@ && lines[10] == "wmm_enabled=1"@
        && lines[11] == "auth_algs=1"@ && lines[12] == "ignore_broadcast_ssid=0"@ && lines[14]
        == "wpa=2"@ && lines[15] == "wpa_passphrase="@ + ap.password && lines[16]
        == "wpa_key_mgmt=WPA-PSK"@ && lines[17] == "rsn_pairwise=CCMP"@);
}

/// `dnsmasq` serves the interface: it hands out the leases of the hotspot's network, and
/// the box as router and as name server; these are all its settings.
#[verifier::spinoff_prover]
#[verifier::rlimit(50)]
pub proof fn dnsmasq_serves_the_configured_network(iface: Seq<char>, ap: config::ApConfigView)
    ensures
        ({
            let lines = dnsmasq_lines(iface, ap);
            &&& lines.len() == 9
            &&& lines.contains("# Managed by camera-box — do not edit."@)
            &&& lines.contains("interface="@ + iface)
            &&& lines.contains("bind-dynamic"@)
            &&& lines.contains("dhcp-range="@ + dhcp_range(ap.ip_cidr))
            &&& lines.contains("dhcp-option=option:router,"@ + ap_ip(ap.ip_cidr))
            &&& lines.contains("dhcp-option=option:dns-server,"@ + ap_ip(ap.ip_cidr))
            &&& lines.contains("domain-needed"@)
            &&& lines.contains("bogus-priv"@)
            &&& lines.contains("conf-dir=/etc/dnsmasq.d/,*.conf"@)
        }),
{
    let lines = dnsmasq_lines(iface, ap);
    assert(lines[0] == "# Managed by camera-box — do not edit."@ && lines[1] == "interface="@ + iface
        && lines[2] == "bind-dynamic"@ && lines[3] == "dhcp-range="@ + dhcp_range(ap.ip_cidr)
        && lines[4] == "dhcp-option=option:router,"@ + ap_ip(ap.ip_cidr) && lines[5]
        == "dhcp-option=option:dns-server,"@ + ap_ip(ap.ip_cidr) && lines[6] == "domain-needed"@
        && lines[7] == "bogus-priv"@ && lines[8] == "conf-dir=/etc/dnsmasq.d/,*.conf"@);
}

/// At boot the interface is unblocked, flushed, given the configured address and brought
/// up, in this order, before the services of the hotspot start.
#[verifier::spinoff_prover]
#[verifier::rlimit(50)]
pub proof fn the_unit_sets_the_configured_address(iface: Seq<char>, ap: config::ApConfigView)
    ensures
        ({
            let lines = ip_unit_lines(iface, ap);
            &&& lines.len() == 16
            &&& lines[0] == "[Unit]"@ && lines[6] == "[Service]"@ && lines[14] == "[Install]"@
            &&& lines[1] == "Description=Set static IP for the camera-box AP"@
            &&& lines[2] == "Before=dnsmasq.service hostapd.service"@
            &&& lines[3] == "After=sys-subsystem-net-devices-"@ + iface + ".device"@
            &&& lines[4] == "Wants=sys-subsystem-net-devices-"@ + iface + ".device"@
            &&& lines[7] == "Type=oneshot"@
            &&& lines[8] == "ExecStartPre=-/usr/sbin/rfkill unblock all"@
            &&& lines[9] == "ExecStart=/sbin/ip addr flush dev "@ + iface
            &&& lines[10] == "ExecStart=/sbin/ip addr add "@ + ap.ip_cidr + " dev "@ + iface
            &&& lines[11] == "ExecStart=/sbin/ip link set "@ + iface + " up"@
            &&& lines[12] == "RemainAfterExit=yes"@
            &&& lines[15] == "WantedBy=multi-user.target"@
            &&& lines[5].len() == 0 && lines[13].len() == 0
        }),
{
    reveal_strlit("");
}

/// The files of a hotspot: each is written once, with its own contents, and has to be;
/// that of `hostapd`, which holds the passphrase, is for its owner only.
#[verifier::spinoff_prover]
#[verifier::rlimit(50)]
pub proof fn the_files_of_a_hotspot(
    iface: Seq<char>,
    ap: config::ApConfigView,
    hostname: Seq<char>,
)
    ensures
        ({
            let list = file_steps(iface, ap, hostname);
            &&& list.len() == 5
            &&& steps::writes(
                list[0],
                "/etc/hostapd/hostapd.conf"@,
                text::unlines(hostapd_lines(iface, ap)),
                true,
            )
            &&& steps::writes(
                list[1],
                "/etc/dnsmasq.conf"@,
                text::unlines(dnsmasq_lines(iface, ap)),
                false,
            )
            &&& steps::writes(
                list[2],
                "/etc/dnsmasq.d/camera-box.conf"@,
                net::hostname_mapping(hostname, ap_ip(ap.ip_cidr)),
                false,
            )
            &&& steps::writes(
                list[3],
                "/etc/systemd/system/camera-box-ip.service"@,
                text::unlines(ip_unit_lines(iface, ap)),
                false,
            )
            &&& steps::runs(list[4], "systemctl"@, seq!["daemon-reload"@])
            &&& forall|i: int| 0 <= i < 5 ==> (steps::is_required(#[trigger] list[i]) <==> i < 4)
        }),
{
}

/// Opening a hotspot ends the client session, unblocks the radios, gives the interface
/// the configured address and only that, and restarts both services. Changing it sets the
/// new address and restarts them; closing it stops them and the unit of its address.
#[verifier::spinoff_prover]
#[verifier::rlimit(50)]
pub proof fn what_opening_changing_and_closing_do(iface: Seq<char>, ip_cidr: Seq<char>)
    ensures
        ({
            let list = switch_steps(iface, ip_cidr);
            &&& list.len() == 10
            &&& list[0] == (steps::StepView::StopClient { iface })
            &&& steps::runs(list[1], "rfkill"@, seq!["unblock"@, "all"@])
            &&& steps::runs(list[2], "ip"@, seq!["addr"@, "flush"@, "dev"@, iface])
            &&& steps::runs(list[3], "ip"@, seq!["link"@, "set"@, iface, "down"@])
            &&& list[4] == (steps::StepView::Sleep { secs: 1 })
            &&& steps::runs(list[5], "ip"@, seq!["link"@, "set"@, iface, "up"@])
            &&& steps::runs(list[6], "ip"@, seq!["addr"@, "add"@, ip_cidr, "dev"@, iface])
            &&& steps::runs(list[7], "systemctl"@, seq!["unmask"@, "hostapd"@, "dnsmasq"@])
            &&& steps::runs(list[8], "systemctl"@, seq!["restart"@, "dnsmasq"@])
            &&& steps::runs(list[9], "systemctl"@, seq!["restart"@, "hostapd"@])
        }),
        ({
            let list = reapply_steps(iface, ip_cidr);
            &&& list.len() == 4
            &&& steps::runs(list[0], "ip"@, seq!["addr"@, "flush"@, "dev"@, iface])
            &&& steps::runs(list[1], "ip"@, seq!["addr"@, "add"@, ip_cidr, "dev"@, iface])
            &&& steps::runs(list[2], "systemctl"@, seq!["restart"@, "dnsmasq"@])
            &&& steps::runs(list[3], "systemctl"@, seq!["restart"@, "hostapd"@])
            &&& forall|i: int| 0 <= i < 4 ==> (steps::is_required(#[trigger] list[i]) <==> i >= 2)
        }),
        ({
            let list = stop_steps();
            &&& list.len() == 3
            &&& steps::runs(list[0], "systemctl"@, seq!["stop"@, "hostapd"@])
            &&& steps::runs(list[1], "systemctl"@, seq!["stop"@, "dnsmasq"@])
            &&& steps::runs(list[2], "systemctl"@, seq!["stop"@, "camera-box-ip"@])
            &&& forall|i: int| 0 <= i < 3 ==> !steps::is_required(#[trigger] list[i])
        }),
{
}

/// A plan is made exactly where nothing is wrong, and is then the one that is asked for;
/// else the answer is what is wrong.
pub proof fn a_plan_is_made_or_refused(
    r: net::NetResult<Vec<steps::Step>>,
    fault: Option<Seq<char>>,
    list: Seq<steps::StepView>,
    checked: net::NetResult<()>,
)
    ensures
        plans(r, fault, list) ==> (r is Ok <==> fault is None),
        plans(r, fault, list) && fault is None ==> steps::step_views(r->Ok_0@) == list,
        plans(r, fault, list) && fault is Some ==> r->Err_0@ == fault->0,
        answers(checked, fault) ==> (checked is Ok <==> fault is None),
        answers(checked, fault) && fault is Some ==> checked->Err_0@ == fault->0,
{
}

/// Whatever an address is written like, it is accepted exactly where it has four numbers
/// between dots, none above 255, of which the last is neither 0, nor 255, nor a lease.
pub proof fn an_address_has_four_numbers(ip: Seq<char>)
    requires
        !ip.contains('/'),
    ensures
        ({
            let o = text::split(ip, "."@);
            let number = |i: int| numeral::read_natural(o[i]);
            let host = number(3)->0;
            ap_ip_fault(ip.push('/') + "24"@) is None <==> {
                &&& o.len() == 4
                &&& number(0) is Some && number(0)->0 < 256
                &&& number(1) is Some && number(1)->0 < 256
                &&& number(2) is Some && number(2)->0 < 256
                &&& number(3) is Some
                &&& 0 < host < 100 || 200 < host < 255
            }
        }),
{
    reveal_strlit("/");
    assert("/"@ =~= seq!['/']);
    assert("/"@[0] == '/');
    assert forall|i: int| 0 <= i < ip.len() implies !"/"@.contains(#[trigger] ip[i]) by {
        assert(ip.contains(ip[i]));
    }
    text::splitting_cuts_at_every_separator(ip, '/', "24"@, "/"@);
}

} // verus!
