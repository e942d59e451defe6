//! Network: the Wi-Fi interfaces and the host name.
//!
//! The built-in interface (primary) can run as an access point or as a client;
//! further Wi-Fi interfaces can be clients. Nothing here touches the system:
//! what the system says is an argument, and what is to be done to it is a list
//! of steps.

use vstd::prelude::*;
use vstd::string::*;

use crate::order;
use crate::steps;
use crate::text;

pub use crate::client::{
    add_profile, connect, connect_profile, list_profiles, remove_profile, ConnectParams,
};
pub use crate::hotspot::{apply_ap, start_hotspot, sync_ap_config, validate_ap};
pub use crate::scan::{scan, ScanResult};

verus! {

pub type NetResult<T> = Result<T, String>;

// ---------------------------------------------------------------------------
// Data model
// ---------------------------------------------------------------------------

#[derive(Debug)]
pub struct WifiInterface {
    pub name: String,
    /// First/built-in Wi-Fi interface, the AP-capable management interface.
    pub primary: bool,
    pub mac: String,
    pub up: bool,
    /// "ap", "client", "unknown".
    pub mode: String,
    /// AP SSID (in ap mode) or connected SSID (in client mode), if any.
    pub ssid: Option<String>,
    /// IPv4 address with prefix (e.g. `192.168.4.1/24`).
    pub ip: Option<String>,
    pub ap_capable: bool,
}

/// The values of a [`WifiInterface`].
#[verifier::ext_equal]
pub struct WifiView {
    pub name: Seq<char>,
    pub primary: bool,
    pub mac: Seq<char>,
    pub up: bool,
    pub mode: Seq<char>,
    pub ssid: Option<Seq<char>>,
    pub ip: Option<Seq<char>>,
    pub ap_capable: bool,
}

impl View for WifiInterface {
    type V = WifiView;

    open spec fn view(&self) -> WifiView {
        WifiView {
            name: self.name@,
            primary: self.primary,
            mac: self.mac@,
            up: self.up,
            mode: self.mode@,
            ssid: text::opt_text(self.ssid),
            ip: text::opt_text(self.ip),
            ap_capable: self.ap_capable,
        }
    }
}

#[derive(Debug)]
pub struct NetworkStatus {
    pub interfaces: Vec<WifiInterface>,
    pub profiles: Vec<String>,
}

/// A network interface, and whether it has a `wireless` and a `phy80211` node.
#[derive(Debug)]
pub struct NetEntry {
    pub name: String,
    pub wireless: bool,
    pub phy80211: bool,
}

// ---------------------------------------------------------------------------
// Discovery
// ---------------------------------------------------------------------------

/// The names of those interfaces that are wireless, in the order given.
pub open spec fn wireless_names(entries: Seq<NetEntry>) -> Seq<Seq<char>>
    decreases entries.len(),
{
    if entries.len() == 0 {
        Seq::empty()
    } else {
        let rest = wireless_names(entries.drop_last());
        let e = entries.last();
        if e.wireless || e.phy80211 {
            rest.push(e.name@)
        } else {
            rest
        }
    }
}

pub proof fn lemma_models_are_texts(v: Seq<String>)
    ensures
        order::models(v) == text::texts(v),
{
    assert(order::models(v) =~= text::texts(v));
}

/// The wireless interfaces (those with a `wireless` or `phy80211` node), in the
/// order of their names.
pub fn wifi_interfaces(entries: Vec<NetEntry>) -> (r: Vec<String>)
    ensures
        order::stable_sort_of::<String>(text::texts(r@), wireless_names(entries@)),
{
    let ghost all = entries@;
    let mut rest: Vec<NetEntry> = entries;
    let mut out: Vec<String> = Vec::new();
    let n: usize = rest.len();
    let mut done: usize = 0;
    assert(text::texts(out@) =~= wireless_names(all.take(0)));
    while done < n
        invariant
            done <= n == all.len(),
            rest@ == all.skip(done as int),
            text::texts(out@) == wireless_names(all.take(done as int)),
        decreases n - done,
    {
        let e = rest.remove(0);
        assert(e == all[done as int]);
        assert(rest@ =~= all.skip(done + 1));
        assert(all.take(done + 1).drop_last() =~= all.take(done as int));
        if e.wireless || e.phy80211 {
            proof {
                text::lemma_texts_push(out@, e.name);
            }
            out.push(e.name);
        }
        done += 1;
    }
    assert(all.take(done as int) =~= all);
    proof {
        lemma_models_are_texts(out@);
    }
    let r = order::stable_sort(out);
    proof {
        lemma_models_are_texts(r@);
    }
    r
}

/// The first of the names.
pub open spec fn first_name(names: Seq<Seq<char>>) -> Option<Seq<char>> {
    if names.len() > 0 {
        Some(names[0])
    } else {
        None
    }
}

/// The primary (built-in, AP-capable) wireless interface, if any: the first of
/// the wireless interfaces.
pub fn primary_wifi(names: &Vec<String>) -> (r: Option<String>)
    ensures
        text::opt_text(r) == first_name(text::texts(names@)),
{
    if names.len() > 0 {
        Some(names[0].clone())
    } else {
        None
    }
}

/// Is `name` one of `names`?
pub fn one_of_names(names: &Vec<String>, name: &str) -> (r: bool)
    ensures
        r == text::texts(names@).contains(name@),
{
    let mut i: usize = 0;
    while i < names.len()
        invariant
            i <= names@.len(),
            forall|k: int| 0 <= k < i ==> (#[trigger] text::texts(names@)[k]) != name@,
        decreases names.len() - i,
    {
        if text::same(names[i].as_str(), name) {
            assert(text::texts(names@)[i as int] == name@);
            return true;
        }
        i += 1;
    }
    false
}

/// Refuse an interface that is not one of the wireless interfaces.
pub fn validate_iface(iface: &str, names: &Vec<String>) -> (r: NetResult<()>)
    ensures
        if text::texts(names@).contains(iface@) {
            r is Ok
        } else {
            r matches Err(e) && e@ == "unknown wireless interface: "@ + iface@
        },
{
    if one_of_names(names, iface) {
        Ok(())
    } else {
        let mut e = "unknown wireless interface: ".to_string();
        e.append(iface);
        Err(e)
    }
}

// ---------------------------------------------------------------------------
// Status
// ---------------------------------------------------------------------------

/// What a file of the kernel says, trimmed; nothing where it cannot be read.
pub open spec fn sys_text(contents: Option<Seq<char>>) -> Seq<char> {
    match contents {
        Some(s) => text::trim(s),
        None => Seq::empty(),
    }
}

pub fn read_sys(contents: Option<String>) -> (r: String)
    ensures
        r@ == sys_text(text::opt_text(contents)),
{
    match contents {
        Some(s) => text::trimmed(s.as_str()),
        None => String::new(),
    }
}

/// The mode of an interface, from what `iw dev <name> info` says.
pub open spec fn mode_of(info: Seq<char>) -> Seq<char> {
    if text::occurs_in("type AP"@, info) {
        "ap"@
    } else if text::occurs_in("type managed"@, info) {
        "client"@
    } else {
        "unknown"@
    }
}

pub fn wifi_mode(info: &str) -> (r: String)
    ensures
        r@ == mode_of(info@),
{
    if text::has_substring(info, "type AP") {
        "ap".to_string()
    } else if text::has_substring(info, "type managed") {
        "client".to_string()
    } else {
        "unknown".to_string()
    }
}

/// What follows `key` in the first of `lines` that, trimmed, begins with it.
pub open spec fn field(lines: Seq<Seq<char>>, key: Seq<char>) -> Option<Seq<char>>
    decreases lines.len(),
{
    if lines.len() == 0 {
        None
    } else {
        match text::strip_prefix(text::trim(lines[0]), key) {
            Some(v) => Some(v),
            None => field(lines.drop_first(), key),
        }
    }
}

/// What follows `key` in the first line of `s` that, trimmed, begins with it.
#[verifier::loop_isolation(false)]
pub fn field_of(s: &str, key: &str) -> (r: Option<String>)
    ensures
        text::opt_text(r) == field(text::lines(s@), key@),
{
    let lines = text::lines_of(s);
    let ghost all = text::texts(lines@);
    let mut i: usize = 0;
    assert(all.skip(0) =~= all);
    while i < lines.len()
        invariant
            i <= lines@.len(),
            all == text::texts(lines@),
            field(all.skip(i as int), key@) == field(all, key@),
        decreases lines.len() - i,
    {
        assert(all.skip(i as int)[0] == lines@[i as int]@);
        assert(all.skip(i as int).drop_first() =~= all.skip(i + 1));
        let t = text::trimmed(lines[i].as_str());
        let v = text::after_prefix(t.as_str(), key);
        if v.is_some() {
            return v;
        }
        i += 1;
    }
    None
}

/// Is the mode that of an access point? Only where it is not, `iw dev <name>
/// link` has to be asked.
pub fn is_ap(info: &str) -> (r: bool)
    ensures
        r == text::occurs_in("type AP"@, info@),
{
    text::has_substring(info, "type AP")
}

/// The name of the network of an interface: in AP mode the one it serves, else
/// the one it is connected to.
pub open spec fn ssid_of(info: Seq<char>, link: Seq<char>) -> Option<Seq<char>> {
    if text::occurs_in("type AP"@, info) {
        field(text::lines(info), "ssid "@)
    } else {
        field(text::lines(link), "SSID: "@)
    }
}

/// The state of an interface. `address` and `operstate` are the kernel's files
/// of these names, `info` and `link` what `iw dev <name>` says (nothing where
/// it failed); `link` has no bearing in AP mode.
pub fn interface_status(
    name: &str,
    address: Option<String>,
    operstate: Option<String>,
    info: &str,
    link: &str,
    ip: Option<String>,
    ap_capable: bool,
) -> (r: WifiInterface)
    ensures
        r@ == (WifiView {
            name: name@,
            primary: false,
            mac: sys_text(text::opt_text(address)),
            up: sys_text(text::opt_text(operstate)) == "up"@ || sys_text(
                text::opt_text(operstate),
            ) == "dormant"@,
            mode: mode_of(info@),
            ssid: ssid_of(info@, link@),
            ip: text::opt_text(ip),
            ap_capable,
        }),
{
    let state = read_sys(operstate);
    let up: bool = text::same(state.as_str(), "up") || text::same(state.as_str(), "dormant");
    let ssid = if is_ap(info) {
        field_of(info, "ssid ")
    } else {
        field_of(link, "SSID: ")
    };
    WifiInterface {
        name: name.to_string(),
        primary: false,
        mac: read_sys(address),
        up,
        mode: wifi_mode(info),
        ssid,
        ip,
        ap_capable,
    }
}

/// The word that follows the first word `inet`.
pub open spec fn after_inet(words: Seq<Seq<char>>) -> Option<Seq<char>>
    decreases words.len(),
{
    if words.len() == 0 {
        None
    } else if words[0] == "inet"@ {
        if words.len() > 1 {
            Some(words[1])
        } else {
            None
        }
    } else {
        after_inet(words.drop_first())
    }
}

/// The IPv4 address with prefix that `ip -o -4 addr show` reports; none where
/// it failed.
#[verifier::loop_isolation(false)]
pub fn ipv4_of(out: Option<String>) -> (r: Option<String>)
    ensures
        text::opt_text(r) == (match out {
            Some(s) => after_inet(text::words(s@)),
            None => None,
        }),
{
    let s = match out {
        Some(s) => s,
        None => {
            return None;
        },
    };
    let words = text::words_of(s.as_str());
    let ghost all = text::texts(words@);
    let mut i: usize = 0;
    assert(all.skip(0) =~= all);
    while i < words.len()
        invariant
            i <= words@.len(),
            all == text::texts(words@),
            after_inet(all.skip(i as int)) == after_inet(all),
        decreases words.len() - i,
    {
        assert(all.skip(i as int)[0] == words@[i as int]@);
        assert(all.skip(i as int).drop_first() =~= all.skip(i + 1));
        if text::same(words[i].as_str(), "inet") {
            if i + 1 < words.len() {
                assert(all.skip(i as int)[1] == words@[i + 1]@);
                return Some(words[i + 1].clone());
            } else {
                return None;
            }
        }
        i += 1;
    }
    None
}

/// Does one of `lines`, trimmed, read `* AP`?
pub open spec fn lists_ap(lines: Seq<Seq<char>>) -> bool {
    exists|i: int| 0 <= i < lines.len() && text::trim(#[trigger] lines[i]) == "* AP"@
}

/// Does the radio support AP mode? `phy` is its name (nothing where the
/// interface has none), `info` what `iw phy <name> info` says.
#[verifier::loop_isolation(false)]
pub fn ap_capable(phy: &str, info: &str) -> (r: bool)
    ensures
        r == (phy@.len() > 0 && lists_ap(text::lines(info@))),
{
    if phy.is_empty() {
        return false;
    }
    let lines = text::lines_of(info);
    let mut i: usize = 0;
    while i < lines.len()
        invariant
            i <= lines@.len(),
            text::texts(lines@) == text::lines(info@),
            forall|k: int|
                0 <= k < i ==> text::trim(#[trigger] text::texts(lines@)[k]) != "* AP"@,
        decreases lines.len() - i,
    {
        if text::same(text::trimmed(lines[i].as_str()).as_str(), "* AP") {
            assert(text::trim(text::texts(lines@)[i as int]) == "* AP"@);
            return true;
        }
        i += 1;
    }
    false
}

pub open spec fn wifi_views(v: Seq<WifiInterface>) -> Seq<WifiView> {
    Seq::new(v.len(), |i: int| v[i]@)
}

/// The state of the network. The interfaces stand in the order of their names;
/// the first of them is the primary one.
pub fn status(interfaces: Vec<WifiInterface>, profiles: Vec<String>) -> (r: NetworkStatus)
    ensures
        wifi_views(r.interfaces@) == Seq::new(
            interfaces@.len(),
            |i: int| WifiView { primary: i == 0, ..interfaces@[i]@ },
        ),
        r.profiles == profiles,
{
    let ghost all = interfaces@;
    let mut rest: Vec<WifiInterface> = interfaces;
    let mut out: Vec<WifiInterface> = Vec::new();
    let n: usize = rest.len();
    while out.len() < n
        invariant
            out@.len() <= n == all.len(),
            rest@ == all.skip(out@.len() as int),
            forall|i: int|
                0 <= i < out@.len() ==> (#[trigger] out@[i])@ == (WifiView {
                    primary: i == 0,
                    ..all[i]@
                }),
        decreases n - out.len(),
    {
        let mut w = rest.remove(0);
        assert(rest@ =~= all.skip(out@.len() as int + 1));
        w.primary = out.len() == 0;
        out.push(w);
    }
    assert(wifi_views(out@) =~= Seq::new(
        all.len(),
        |i: int| WifiView { primary: i == 0, ..all[i]@ },
    ));
    NetworkStatus { interfaces: out, profiles }
}

// ---------------------------------------------------------------------------
// Host name
// ---------------------------------------------------------------------------

/// The host name that the kernel states, trimmed; `camera-box` where it states
/// none.
pub open spec fn hostname_or_default(contents: Option<Seq<char>>) -> Seq<char> {
    match contents {
        Some(s) => if text::trim(s).len() > 0 {
            text::trim(s)
        } else {
            "camera-box"@
        },
        None => "camera-box"@,
    }
}

/// The host name. `contents` is the kernel's host name file, where it could be
/// read.
pub fn current_hostname(contents: Option<String>) -> (r: String)
    ensures
        r@ == hostname_or_default(text::opt_text(contents)),
{
    if let Some(s) = contents {
        let t = text::trimmed(s.as_str());
        if !t.as_str().is_empty() {
            return t;
        }
    }
    "camera-box".to_string()
}

pub open spec fn is_ascii_alphanumeric(c: char) -> bool {
    ('a' <= c <= 'z') || ('A' <= c <= 'Z') || ('0' <= c <= '9')
}

pub fn ascii_alphanumeric(c: char) -> (r: bool)
    ensures
        r == is_ascii_alphanumeric(c),
{
    ('a' <= c && c <= 'z') || ('A' <= c && c <= 'Z') || ('0' <= c && c <= '9')
}

/// A host name: 1 to 63 letters, digits and hyphens, with no hyphen at either
/// end.
pub open spec fn valid_hostname(name: Seq<char>) -> bool {
    &&& 1 <= name.len() <= 63
    &&& forall|i: int| 0 <= i < name.len() ==> is_ascii_alphanumeric(#[trigger] name[i]) || name[i] == '-'
    &&& name[0] != '-'
    &&& name.last() != '-'
}

/// Refuse what is no host name.
pub fn validate_hostname(name: &str) -> (r: NetResult<()>)
    ensures
        if valid_hostname(name@) {
            r is Ok
        } else {
            r matches Err(e) && e@
                == "invalid hostname (letters, digits and '-', not starting/ending with '-')"@
        },
{
    let cs = text::chars_of(name);
    let mut ok: bool = 1 <= cs.len() && cs.len() <= 63 && cs[0] != '-' && cs[cs.len() - 1] != '-';
    let mut i: usize = 0;
    while ok && i < cs.len()
        invariant
            i <= cs@.len(),
            cs@ == name@,
            ok ==> 1 <= cs@.len() <= 63 && cs@[0] != '-' && cs@.last() != '-' && forall|k: int|
                0 <= k < i ==> is_ascii_alphanumeric(#[trigger] cs@[k]) || cs@[k] == '-',
            !ok ==> !valid_hostname(name@),
        decreases cs.len() - i,
    {
        let c = cs[i];
        if !(ascii_alphanumeric(c) || c == '-') {
            assert(!(is_ascii_alphanumeric(name@[i as int]) || name@[i as int] == '-'));
            ok = false;
        }
        i += 1;
    }
    if ok {
        Ok(())
    } else {
        Err(
            "invalid hostname (letters, digits and '-', not starting/ending with '-')".to_string(),
        )
    }
}

/// Is it the `127.0.1.1` line: is that address its first word?
pub open spec fn names_this_host(line: Seq<char>) -> bool {
    text::first_word(line) == Some("127.0.1.1"@)
}

fn is_this_host(line: &str) -> (r: bool)
    ensures
        r == names_this_host(line@),
{
    match text::first_word_of(line) {
        Some(address) => text::same(address.as_str(), "127.0.1.1"),
        None => false,
    }
}

/// The line of the hosts file for the host name.
pub open spec fn hosts_entry(name: Seq<char>) -> Seq<char> {
    "127.0.1.1\t"@ + name
}

/// `lines` with every line of this host replaced by the entry for `name`.
pub open spec fn renamed_lines(lines: Seq<Seq<char>>, name: Seq<char>) -> Seq<Seq<char>> {
    Seq::new(
        lines.len(),
        |i: int|
            if names_this_host(lines[i]) {
                hosts_entry(name)
            } else {
                lines[i]
            },
    )
}

/// The lines of the hosts file after the host was renamed: where no line was
/// that of this host, one is added.
pub open spec fn hosts_lines(lines: Seq<Seq<char>>, name: Seq<char>) -> Seq<Seq<char>> {
    if exists|i: int| 0 <= i < lines.len() && names_this_host(#[trigger] lines[i]) {
        renamed_lines(lines, name)
    } else {
        renamed_lines(lines, name).push(hosts_entry(name))
    }
}

/// The hosts file with its `127.0.1.1` line pointing at the host name.
pub fn update_etc_hosts(content: &str, name: &str) -> (r: String)
    ensures
        r@ == text::unlines(hosts_lines(text::lines(content@), name@)),
{
    let lines = text::lines_of(content);
    let mut entry = "127.0.1.1\t".to_string();
    entry.append(name);
    let mut out = String::new();
    let mut replaced: bool = false;
    let mut i: usize = 0;
    let ghost all = text::texts(lines@);
    let ghost done = renamed_lines(all, name@);
    assert(done.take(0) =~= Seq::<Seq<char>>::empty());
    while i < lines.len()
        invariant
            i <= lines@.len(),
            all == text::texts(lines@),
            done == renamed_lines(all, name@),
            entry@ == hosts_entry(name@),
            out@ == text::unlines(done.take(i as int)),
            replaced == exists|k: int| 0 <= k < i && names_this_host(#[trigger] all[k]),
        decreases lines.len() - i,
    {
        assert(all[i as int] == lines@[i as int]@);
        if is_this_host(lines[i].as_str()) {
            assert(names_this_host(all[i as int]));
            out.append(entry.as_str());
            out.append("\n");
            replaced = true;
        } else {
            out.append(lines[i].as_str());
            out.append("\n");
        }
        assert(done.take(i + 1).drop_last() =~= done.take(i as int));
        assert(done.take(i + 1).last() == done[i as int]);
        i += 1;
    }
    assert(done.take(i as int) =~= done);
    if !replaced {
        out.append(entry.as_str());
        out.append("\n");
        assert(done.push(entry@).drop_last() =~= done);
    }
    out
}

/// The `dnsmasq` lines by which the clients of the hotspot find the box under
/// its name, also as `<name>.local`.
pub open spec fn hostname_mapping(name: Seq<char>, ap_ip: Seq<char>) -> Seq<char> {
    "address=/"@ + name + "/"@ + ap_ip + "\naddress=/"@ + name + ".local/"@ + ap_ip + "\n"@
}

/// Write the mapping of the host name to the address of the hotspot.
pub open spec fn mapping_step(name: Seq<char>, ap_ip: Seq<char>) -> steps::StepView {
    steps::StepView::Write {
        path: "/etc/dnsmasq.d/camera-box.conf"@,
        body: hostname_mapping(name, ap_ip),
        private: false,
        required: true,
    }
}

/// Make hotspot (dnsmasq) clients resolve `<name>` and `<name>.local` to the
/// address of the hotspot.
pub fn write_ap_hostname_mapping(name: &str, ap_ip: &str) -> (r: steps::Step)
    ensures
        r@ == mapping_step(name@, ap_ip@),
{
    let mut body = "address=/".to_string();
    body.append(name);
    body.append("/");
    body.append(ap_ip);
    body.append("\naddress=/");
    body.append(name);
    body.append(".local/");
    body.append(ap_ip);
    body.append("\n");
    steps::Step::Write {
        path: "/etc/dnsmasq.d/camera-box.conf".to_string(),
        body,
        private: false,
        required: true,
    }
}

/// The steps of changing the host name: set it, point the hosts file and the
/// hotspot's DNS at it, and have both announced anew.
pub open spec fn hostname_steps(name: Seq<char>, ap_ip: Seq<char>) -> Seq<steps::StepView> {
    seq![
        steps::must("hostnamectl"@, seq!["set-hostname"@, name]),
        steps::StepView::UpdateHosts { name },
        mapping_step(name, ap_ip),
        steps::may("systemctl"@, seq!["restart"@, "avahi-daemon"@]),
        steps::may("systemctl"@, seq!["restart"@, "dnsmasq"@]),
    ]
}

/// Change the host name. `ap_ip` is the address of the hotspot that the name is
/// to resolve to.
pub fn set_hostname(name: &str, ap_ip: &str) -> (r: NetResult<Vec<steps::Step>>)
    ensures
        match r {
            Ok(list) => valid_hostname(name@) && steps::step_views(list@) == hostname_steps(
                name@,
                ap_ip@,
            ),
            Err(e) => !valid_hostname(name@) && e@
                == "invalid hostname (letters, digits and '-', not starting/ending with '-')"@,
        },
{
    match validate_hostname(name) {
        Ok(_) => {},
        Err(e) => {
            return Err(e);
        },
    }
    let mut list: Vec<steps::Step> = Vec::new();
    steps::push_must(&mut list, "hostnamectl", vec!["set-hostname", name]);
    steps::push(&mut list, steps::Step::UpdateHosts { name: name.to_string() });
    steps::push(&mut list, write_ap_hostname_mapping(name, ap_ip));
    steps::push_may(&mut list, "systemctl", vec!["restart", "avahi-daemon"]);
    steps::push_may(&mut list, "systemctl", vec!["restart", "dnsmasq"]);
    assert(steps::step_views(list@) =~~= hostname_steps(name@, ap_ip@));
    Ok(list)
}

// ---------------------------------------------------------------------------
// Laws
// ---------------------------------------------------------------------------

/// After the host was renamed, the hosts file has a line for it, every line of
/// this host is that one, and every other line stands as it was.
pub proof fn renaming_leaves_one_entry(lines: Seq<Seq<char>>, name: Seq<char>)
    ensures
        hosts_lines(lines, name).contains(hosts_entry(name)),
        forall|i: int|
            0 <= i < hosts_lines(lines, name).len() && names_this_host(
                #[trigger] hosts_lines(lines, name)[i],
            ) ==> hosts_lines(lines, name)[i] == hosts_entry(name),
        forall|i: int|
            0 <= i < lines.len() && !names_this_host(#[trigger] lines[i]) ==> hosts_lines(
                lines,
                name,
            )[i] == lines[i],
{
    let r = hosts_lines(lines, name);
    if exists|i: int| 0 <= i < lines.len() && names_this_host(#[trigger] lines[i]) {
        let k = choose|i: int| 0 <= i < lines.len() && names_this_host(#[trigger] lines[i]);
        assert(r[k] == hosts_entry(name));
    } else {
        assert(r[lines.len() as int] == hosts_entry(name));
    }
}

/// The entry that is written for a name is a `127.0.1.1` line.
proof fn lemma_entry_names_this_host(name: Seq<char>)
    ensures
        names_this_host(hosts_entry(name)),
{
    reveal_strlit("127.0.1.1");
    reveal_strlit("127.0.1.1\t");
    let e = hosts_entry(name);
    let address = "127.0.1.1"@;
    assert forall|j: int| 0 <= j < 9 implies #[trigger] e[j] == address[j]
        && !text::is_whitespace(e[j]) by {
        assert(e[j] == "127.0.1.1\t"@[j]);
    }
    assert(e[9] == '\t');
    assert(text::trim_start(e) == e);
    text::lemma_word_len(e);
    let n = text::word_len(e);
    if n < 9 {
        assert(text::is_whitespace(e[n]));
    } else if n > 9 {
        assert(!text::is_whitespace(e[9]));
    }
    assert(e.take(9) =~= address);
    assert(text::words(e)[0] == address);
}

/// Renaming a host twice is renaming it once, to the second name.
pub proof fn the_last_name_counts(lines: Seq<Seq<char>>, first: Seq<char>, second: Seq<char>)
    ensures
        hosts_lines(hosts_lines(lines, first), second) == hosts_lines(lines, second),
{
    let e = hosts_entry(first);
    lemma_entry_names_this_host(first);
    renaming_leaves_one_entry(lines, first);
    let mid = hosts_lines(lines, first);
    assert(exists|i: int| 0 <= i < mid.len() && names_this_host(#[trigger] mid[i])) by {
        let k = choose|k: int| 0 <= k < mid.len() && mid[k] == e;
        assert(names_this_host(mid[k]));
    }
    assert(hosts_lines(mid, second) =~= hosts_lines(lines, second));
}

/// The primary interface is one of the wireless interfaces, the first by name.
pub proof fn the_primary_is_an_interface(entries: Seq<NetEntry>, names: Seq<Seq<char>>)
    requires
        order::stable_sort_of::<String>(names, wireless_names(entries)),
        names.len() > 0,
    ensures
        wireless_names(entries).contains(first_name(names)->0),
        forall|i: int| 0 <= i < names.len() ==> order::text_le(first_name(names)->0, #[trigger] names[i]),
{
    assert(names[0] == first_name(names)->0);
    order::a_sort_keeps_the_elements::<String>(names, wireless_names(entries), names[0]);
    assert forall|i: int| 0 <= i < names.len() implies order::text_le(
        first_name(names)->0,
        #[trigger] names[i],
    ) by {
        if i == 0 {
            order::lemma_text_le_total(names[0], names[0]);
        } else {
            assert(<String as order::Sortable>::le(names[0], names[i]));
        }
    }
}

/// An interface is wireless exactly where it has a `wireless` or a `phy80211` node; each
/// such interface is listed, and no other.
pub proof fn which_interfaces_are_wireless(entries: Seq<NetEntry>, e: NetEntry)
    ensures
        wireless_names(Seq::<NetEntry>::empty()) == Seq::<Seq<char>>::empty(),
        e.wireless || e.phy80211 ==> wireless_names(entries.push(e)) == wireless_names(
            entries,
        ).push(e.name@),
        !e.wireless && !e.phy80211 ==> wireless_names(entries.push(e)) == wireless_names(entries),
{
    assert(entries.push(e).drop_last() =~= entries);
}

/// An interface serves a hotspot where its description holds `type AP`, and is a client
/// where it holds `type managed` and not that.
pub proof fn the_mode_of_an_interface(info: Seq<char>)
    ensures
        mode_of(info) == "ap"@ <==> text::occurs_in("type AP"@, info),
        mode_of(info) == "client"@ <==> text::occurs_in("type managed"@, info) && !text::occurs_in(
            "type AP"@,
            info,
        ),
        mode_of(info) == "unknown"@ <==> !text::occurs_in("type managed"@, info)
            && !text::occurs_in("type AP"@, info),
{
    reveal_strlit("ap");
    reveal_strlit("client");
    reveal_strlit("unknown");
    assert("ap"@.len() == 2 && "client"@.len() == 6 && "unknown"@.len() == 7);
}

/// The network of an interface is what follows `ssid ` in its own description where it
/// serves a hotspot, and what follows `SSID: ` in that of its link where it does not: in
/// the first line that, trimmed, begins so.
pub proof fn the_network_of_an_interface(
    info: Seq<char>,
    link: Seq<char>,
    before: Seq<Seq<char>>,
    line: Seq<char>,
    behind: Seq<Seq<char>>,
    key: Seq<char>,
    value: Seq<char>,
)
    requires
        text::trim(line) == key + value,
        forall|i: int| 0 <= i < before.len() ==> !key.is_prefix_of(text::trim(#[trigger] before[i])),
        key == if text::occurs_in("type AP"@, info) {
            "ssid "@
        } else {
            "SSID: "@
        },
        before.push(line) + behind == if text::occurs_in("type AP"@, info) {
            text::lines(info)
        } else {
            text::lines(link)
        },
    ensures
        ssid_of(info, link) == Some(value),
{
    lemma_field(before, line, behind, key, value);
}

proof fn lemma_field(
    before: Seq<Seq<char>>,
    line: Seq<char>,
    behind: Seq<Seq<char>>,
    key: Seq<char>,
    value: Seq<char>,
)
    requires
        text::trim(line) == key + value,
        forall|i: int| 0 <= i < before.len() ==> !key.is_prefix_of(text::trim(#[trigger] before[i])),
    ensures
        field(before.push(line) + behind, key) == Some(value),
    decreases before.len(),
{
    let all = before.push(line) + behind;
    if before.len() == 0 {
        text::stripping_leaves_the_rest(key + value, key, value);
        assert(all[0] == line);
    } else {
        let rest = before.drop_first();
        assert(!key.is_prefix_of(text::trim(before[0])));
        assert forall|i: int| 0 <= i < rest.len() implies !key.is_prefix_of(
            text::trim(#[trigger] rest[i]),
        ) by {
            assert(rest[i] == before[i + 1]);
        }
        lemma_field(rest, line, behind, key, value);
        assert(all.drop_first() =~= rest.push(line) + behind);
        assert(all[0] == before[0]);
    }
}

/// An interface whose descriptions have no such line has no network.
pub proof fn an_interface_without_a_network(lines: Seq<Seq<char>>, key: Seq<char>)
    requires
        forall|i: int| 0 <= i < lines.len() ==> !key.is_prefix_of(text::trim(#[trigger] lines[i])),
    ensures
        field(lines, key) is None,
    decreases lines.len(),
{
    if lines.len() > 0 {
        let rest = lines.drop_first();
        assert(!key.is_prefix_of(text::trim(lines[0])));
        assert forall|i: int| 0 <= i < rest.len() implies !key.is_prefix_of(
            text::trim(#[trigger] rest[i]),
        ) by {
            assert(rest[i] == lines[i + 1]);
        }
        an_interface_without_a_network(rest, key);
    }
}

/// The address of an interface is the word behind the first word `inet`; it has none
/// where there is no such word, or nothing behind it.
pub proof fn the_address_follows_inet(
    before: Seq<Seq<char>>,
    address: Seq<char>,
    behind: Seq<Seq<char>>,
)
    requires
        forall|i: int| 0 <= i < before.len() ==> #[trigger] before[i] != "inet"@,
    ensures
        after_inet(before) is None,
        after_inet(before.push("inet"@)) is None,
        after_inet(before.push("inet"@).push(address) + behind) == Some(address),
    decreases before.len(),
{
    let all = before.push("inet"@).push(address) + behind;
    if before.len() == 0 {
        assert(all[0] == "inet"@ && all[1] == address);
    } else {
        let rest = before.drop_first();
        assert(before[0] != "inet"@);
        assert forall|i: int| 0 <= i < rest.len() implies #[trigger] rest[i] != "inet"@ by {
            assert(rest[i] == before[i + 1]);
        }
        the_address_follows_inet(rest, address, behind);
        assert(all.drop_first() =~= rest.push("inet"@).push(address) + behind);
        assert(before.push("inet"@).drop_first() =~= rest.push("inet"@));
    }
}

/// A phy can serve a hotspot exactly where one of its lines, trimmed, reads `* AP`.
pub proof fn which_phys_can_serve_a_hotspot(lines: Seq<Seq<char>>)
    ensures
        lists_ap(lines) <==> exists|i: int|
            0 <= i < lines.len() && text::trim(#[trigger] lines[i]) == "* AP"@,
{
}

/// The host name is what the kernel states, without the whitespace around it; a file of
/// the kernel is read the same way. A blank or missing name is `camera-box`.
pub proof fn the_host_name_that_the_kernel_states(
    name: Seq<char>,
    before: Seq<char>,
    behind: Seq<char>,
)
    requires
        text::is_blank(before),
        text::is_blank(behind),
        name.len() > 0 ==> !text::is_whitespace(name[0]) && !text::is_whitespace(name.last()),
    ensures
        hostname_or_default(Some(before + name + behind)) == if name.len() > 0 {
            name
        } else {
            "camera-box"@
        },
        hostname_or_default(None) == "camera-box"@,
        sys_text(Some(before + name + behind)) == name,
        sys_text(None).len() == 0,
{
    text::trimming_takes_the_whitespace_at_both_ends(before + name + behind, before, name, behind);
}

/// A host name has one to sixty-three characters, each an ASCII letter, a digit or a
/// hyphen, with no hyphen at its ends; every such name is accepted.
pub proof fn which_host_names_are_valid(name: Seq<char>)
    ensures
        valid_hostname(name) <==> {
            &&& 0 < name.len() < 64
            &&& name[0] != '-'
            &&& name[name.len() - 1] != '-'
            &&& forall|i: int|
                #![trigger name[i]]
                0 <= i < name.len() ==> {
                    ||| 'a' <= name[i] <= 'z'
                    ||| 'A' <= name[i] <= 'Z'
                    ||| '0' <= name[i] <= '9'
                    ||| name[i] == '-'
                }
        },
{
}

/// The line of this host in the hosts file is the one whose first word is `127.0.1.1`,
/// after any whitespace, and what is written is that address, a tab and the name. The
/// file has a line more exactly where it had none for this host.
pub proof fn the_line_of_this_host(
    lines: Seq<Seq<char>>,
    name: Seq<char>,
    blank: Seq<char>,
    address: Seq<char>,
    rest: Seq<char>,
)
    requires
        text::is_blank(blank),
        text::is_word(address),
        rest.len() > 0 ==> text::is_whitespace(rest[0]),
    ensures
        names_this_host(blank + address + rest) <==> address == "127.0.1.1"@,
        !names_this_host(blank),
        hosts_entry(name) == "127.0.1.1"@.push('\t') + name,
        hosts_lines(lines, name).len() == lines.len() + if exists|i: int|
            0 <= i < lines.len() && text::first_word(#[trigger] lines[i]) == Some("127.0.1.1"@) {
            0int
        } else {
            1int
        },
{
    text::whitespace_separates_words(blank, address, rest);
    reveal_strlit("127.0.1.1");
    reveal_strlit("127.0.1.1\t");
    assert("127.0.1.1\t"@ =~= "127.0.1.1"@.push('\t'));
    if exists|i: int|
        0 <= i < lines.len() && text::first_word(#[trigger] lines[i]) == Some("127.0.1.1"@) {
        let i = choose|i: int|
            0 <= i < lines.len() && text::first_word(#[trigger] lines[i]) == Some("127.0.1.1"@);
        assert(names_this_host(lines[i]));
    }
}

/// The clients of a hotspot find the box under its name and under that name with
/// `.local`, both at the address of the hotspot.
#[verifier::spinoff_prover]
#[verifier::rlimit(50)]
pub proof fn both_names_lead_to_the_box(name: Seq<char>, ip: Seq<char>)
    requires
        text::is_line(name),
        text::is_line(ip),
        ip.len() > 0,
    ensures
        text::lines(hostname_mapping(name, ip)) == seq![
            "address=/"@ + name + "/"@ + ip,
            "address=/"@ + name + ".local/"@ + ip,
        ],
        mapping_step(name, ip) matches steps::StepView::Write { path, body, required, .. } && path
            == "/etc/dnsmasq.d/camera-box.conf"@ && body == hostname_mapping(name, ip) && required,
{
    reveal_strlit("address=/");
    reveal_strlit("/");
    reveal_strlit(".local/");
    reveal_strlit("\naddress=/");
    reveal_strlit("\n");
    let a = "address=/"@ + name + "/"@ + ip;
    let b = "address=/"@ + name + ".local/"@ + ip;
    let none = Seq::<char>::empty();
    assert(hostname_mapping(name, ip) =~= a.push('\n') + (b.push('\n') + none));
    lemma_is_line_of_parts("address=/"@, name, "/"@, ip);
    lemma_is_line_of_parts("address=/"@, name, ".local/"@, ip);
    text::where_lines_end(a, b.push('\n') + none);
    text::where_lines_end(b, none);
    assert(seq![a] + (seq![b] + Seq::<Seq<char>>::empty()) =~= seq![a, b]);
}

proof fn lemma_is_line_of_parts(a: Seq<char>, b: Seq<char>, c: Seq<char>, d: Seq<char>)
    requires
        !a.contains('\n'),
        !b.contains('\n'),
        !c.contains('\n'),
        text::is_line(d),
        d.len() > 0,
    ensures
        text::is_line(a + b + c + d),
{
    let s = a + b + c + d;
    assert(s.last() == d.last());
    if s.contains('\n') {
        let k = choose|k: int| 0 <= k < s.len() && s[k] == '\n';
        if k < a.len() {
            assert(a.contains(a[k]));
        } else if k < a.len() + b.len() {
            assert(b.contains(b[k - a.len()]));
        } else if k < a.len() + b.len() + c.len() {
            assert(c.contains(c[k - a.len() - b.len()]));
        } else {
            assert(d.contains(d[k - a.len() - b.len() - c.len()]));
        }
    }
}

/// A change of the host name sets it, points the hosts file and the hotspot's DNS at it,
/// and then has both announced anew; only the announcing may fail.
pub proof fn the_steps_of_a_new_host_name(name: Seq<char>, ip: Seq<char>)
    ensures
        ({
            let list = hostname_steps(name, ip);
            &&& list.len() == 5
            &&& steps::runs(list[0], "hostnamectl"@, seq!["set-hostname"@, name])
            &&& list[1] == (steps::StepView::UpdateHosts { name })
            &&& steps::writes(
                list[2],
                "/etc/dnsmasq.d/camera-box.conf"@,
                hostname_mapping(name, ip),
                false,
            )
            &&& steps::runs(list[3], "systemctl"@, seq!["restart"@, "avahi-daemon"@])
            &&& steps::runs(list[4], "systemctl"@, seq!["restart"@, "dnsmasq"@])
            &&& forall|i: int| 0 <= i < 5 ==> (steps::is_required(#[trigger] list[i]) <==> i < 3)
        }),
{
}

/// The primary interface is the first of the wireless interfaces; without any there is
/// none.
pub proof fn the_first_interface_is_the_primary(first: Seq<char>, others: Seq<Seq<char>>)
    ensures
        first_name(seq![first] + others) == Some(first),
        first_name(Seq::<Seq<char>>::empty()) is None,
{
    assert((seq![first] + others)[0] == first);
}

} // verus!
