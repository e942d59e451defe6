//! Client mode: connecting an interface to a network, and Wi-Fi profiles.

use vstd::prelude::*;
use vstd::string::*;
use vstd::utf8::*;

use crate::command;
use crate::hotspot;
use crate::net;
use crate::numeral;
use crate::order;
use crate::steps;
use crate::text;

verus! {

/// Parameters for connecting an interface to a network as a client.
#[derive(Debug)]
pub struct ConnectParams {
    pub iface: String,
    pub ssid: String,
    pub password: String,
    /// Optionally save the credentials as a named profile.
    pub save_as: Option<String>,
    /// DHCP (default) vs static addressing.
    pub dhcp: bool,
    /// Static address `a.b.c.d/nn` (required when `dhcp` is false).
    pub address: Option<String>,
    pub gateway: Option<String>,
    pub dns: Option<String>,
}

/// DHCP is what is meant where nothing is said of the addressing.
pub fn default_true() -> (r: bool)
    ensures
        r,
{
    true
}

// ---------------------------------------------------------------------------
// Passphrases
// ---------------------------------------------------------------------------

/// The command that makes a `wpa_supplicant` configuration of a passphrase. A
/// passphrase of fewer than 8 bytes is refused.
pub fn wpa_passphrase(ssid: &str, password: &str) -> (r: net::NetResult<command::CommandLine>)
    ensures
        if encode_utf8(password@).len() < 8 {
            r matches Err(e) && e@ == "Wi-Fi password must be at least 8 characters"@
        } else {
            r matches Ok(c) && c@ == (command::CommandView {
                program: "wpa_passphrase"@,
                args: seq![ssid@, password@],
            })
        },
{
    if text::byte_len(password) < 8 {
        return Err("Wi-Fi password must be at least 8 characters".to_string());
    }
    let c = command::command("wpa_passphrase", vec![ssid, password]);
    assert(c@.args =~= seq![ssid@, password@]);
    Ok(c)
}

// ---------------------------------------------------------------------------
// Profiles
// ---------------------------------------------------------------------------

/// A profile name: letters, digits, hyphens and underscores, at least one.
pub open spec fn valid_profile(name: Seq<char>) -> bool {
    &&& name.len() > 0
    &&& forall|i: int|
        0 <= i < name.len() ==> net::is_ascii_alphanumeric(#[trigger] name[i]) || name[i] == '-'
            || name[i] == '_'
}

pub open spec fn profile_file(name: Seq<char>) -> Seq<char> {
    "/etc/camera-box/wifi/"@ + name + ".conf"@
}

pub open spec fn profile_error() -> Seq<char> {
    "invalid profile name (use letters, digits, '-' or '_')"@
}

/// The file of a profile. A name that could lead elsewhere is refused.
pub fn profile_path(name: &str) -> (r: net::NetResult<String>)
    ensures
        match r {
            Ok(p) => valid_profile(name@) && p@ == profile_file(name@),
            Err(e) => !valid_profile(name@) && e@ == profile_error(),
        },
{
    let cs = text::chars_of(name);
    let mut ok: bool = cs.len() > 0;
    let mut i: usize = 0;
    while ok && i < cs.len()
        invariant
            i <= cs@.len(),
            cs@ == name@,
            ok ==> cs@.len() > 0 && forall|k: int|
                0 <= k < i ==> net::is_ascii_alphanumeric(#[trigger] cs@[k]) || cs@[k] == '-'
                    || cs@[k] == '_',
            !ok ==> !valid_profile(name@),
        decreases cs.len() - i,
    {
        let c = cs[i];
        if !(net::ascii_alphanumeric(c) || c == '-' || c == '_') {
            assert(!(net::is_ascii_alphanumeric(name@[i as int]) || name@[i as int] == '-'
                || name@[i as int] == '_'));
            ok = false;
        }
        i += 1;
    }
    if !ok {
        return Err("invalid profile name (use letters, digits, '-' or '_')".to_string());
    }
    let mut p = "/etc/camera-box/wifi/".to_string();
    p.append(name);
    p.append(".conf");
    Ok(p)
}

/// The profiles among these file names, in the order given.
pub open spec fn profile_names(files: Seq<Seq<char>>) -> Seq<Seq<char>>
    decreases files.len(),
{
    if files.len() == 0 {
        Seq::empty()
    } else {
        let rest = profile_names(files.drop_last());
        match text::strip_suffix(files.last(), ".conf"@) {
            Some(stem) => rest.push(stem),
            None => rest,
        }
    }
}

/// The saved profiles, in the order of their names. `files` are the names of the
/// files in the profile directory.
pub fn list_profiles(files: &Vec<String>) -> (r: Vec<String>)
    ensures
        order::stable_sort_of::<String>(
            text::texts(r@),
            profile_names(text::texts(files@)),
        ),
{
    let ghost all = text::texts(files@);
    let mut out: Vec<String> = Vec::new();
    let mut i: usize = 0;
    assert(text::texts(out@) =~= profile_names(all.take(0)));
    while i < files.len()
        invariant
            i <= files@.len(),
            all == text::texts(files@),
            text::texts(out@) == profile_names(all.take(i as int)),
        decreases files.len() - i,
    {
        assert(all.take(i + 1).drop_last() =~= all.take(i as int));
        assert(all.take(i + 1).last() == files@[i as int]@);
        if let Some(stem) = text::before_suffix(files[i].as_str(), ".conf") {
            proof {
                text::lemma_texts_push(out@, stem);
            }
            out.push(stem);
        }
        i += 1;
    }
    assert(all.take(i as int) =~= all);
    proof {
        net::lemma_models_are_texts(out@);
    }
    let r = order::stable_sort(out);
    proof {
        net::lemma_models_are_texts(r@);
    }
    r
}

/// Save a configuration as a profile; it holds the passphrase, so it is
/// private. A name that is no profile name ends the list.
pub open spec fn save_steps(name: Seq<char>, conf: Seq<char>) -> Seq<steps::StepView> {
    if valid_profile(name) {
        seq![
            steps::StepView::PrivateDir { path: "/etc/camera-box/wifi"@ },
            steps::StepView::Write {
                path: profile_file(name),
                body: conf,
                private: true,
                required: true,
            },
        ]
    } else {
        seq![steps::StepView::Fail { error: profile_error() }]
    }
}

pub fn add_profile_conf(name: &str, conf: &str) -> (r: Vec<steps::Step>)
    ensures
        steps::step_views(r@) == save_steps(name@, conf@),
{
    let mut list: Vec<steps::Step> = Vec::new();
    match profile_path(name) {
        Ok(path) => {
            steps::push(
                &mut list,
                steps::Step::PrivateDir { path: "/etc/camera-box/wifi".to_string() },
            );
            steps::push(
                &mut list,
                steps::Step::Write {
                    path,
                    body: conf.to_string(),
                    private: true,
                    required: true,
                },
            );
        },
        Err(error) => {
            steps::push(&mut list, steps::Step::Fail { error });
        },
    }
    assert(steps::step_views(list@) =~~= save_steps(name@, conf@));
    list
}

/// Save the passphrase of a network as a profile: the command whose output is
/// to be saved by [`add_profile_conf`].
pub fn add_profile(ssid: &str, password: &str) -> (r: net::NetResult<command::CommandLine>)
    ensures
        if encode_utf8(password@).len() < 8 {
            r matches Err(e) && e@ == "Wi-Fi password must be at least 8 characters"@
        } else {
            r matches Ok(c) && c@ == (command::CommandView {
                program: "wpa_passphrase"@,
                args: seq![ssid@, password@],
            })
        },
{
    wpa_passphrase(ssid, password)
}

/// The file to remove for a profile to be gone.
pub fn remove_profile(name: &str) -> (r: net::NetResult<String>)
    ensures
        match r {
            Ok(p) => valid_profile(name@) && p@ == profile_file(name@),
            Err(e) => !valid_profile(name@) && e@ == profile_error(),
        },
{
    profile_path(name)
}

// ---------------------------------------------------------------------------
// Stopping a session
// ---------------------------------------------------------------------------

pub open spec fn pidfile(iface: Seq<char>) -> Seq<char> {
    "/run/camera-box-wpa-"@ + iface + ".pid"@
}

/// Where the process id of the `wpa_supplicant` of an interface is kept.
pub fn wpa_pidfile(iface: &str) -> (r: String)
    ensures
        r@ == pidfile(iface@),
{
    let mut p = "/run/camera-box-wpa-".to_string();
    p.append(iface);
    p.append(".pid");
    p
}

/// The steps against our own process, by what its file holds: it is asked to
/// terminate if the file names it, and the file is removed.
pub open spec fn own_process_steps(
    iface: Seq<char>,
    contents: Option<Seq<char>>,
) -> Seq<steps::StepView> {
    match contents {
        Some(s) => match numeral::read_i32(text::trim(s)) {
            Some(pid) => seq![
                steps::StepView::Terminate { pid: pid as i32 },
                steps::StepView::Remove { path: pidfile(iface), required: false },
            ],
            None => seq![steps::StepView::Remove { path: pidfile(iface), required: false }],
        },
        None => Seq::empty(),
    }
}

/// Stop any client session on an interface: first our own, then any other
/// `wpa_supplicant` on it, and give up the lease.
pub open spec fn stop_client_steps(
    iface: Seq<char>,
    contents: Option<Seq<char>>,
) -> Seq<steps::StepView> {
    own_process_steps(iface, contents) + seq![
        steps::may("pkill"@, seq!["-f"@, "wpa_supplicant.*"@ + iface]),
        steps::may("dhclient"@, seq!["-r"@, iface]),
    ]
}

/// Stop any client session on `iface`, including a `wpa_supplicant` started by
/// something other than this daemon. `contents` is what the file of
/// [`wpa_pidfile`] holds, where it can be read.
pub fn stop_client(iface: &str, contents: Option<String>) -> (r: Vec<steps::Step>)
    ensures
        steps::step_views(r@) == stop_client_steps(iface@, text::opt_text(contents)),
{
    let mut list: Vec<steps::Step> = Vec::new();
    let ghost held = text::opt_text(contents);
    if let Some(s) = contents {
        let t = text::trimmed(s.as_str());
        if let Some(pid) = numeral::parse_i32(t.as_str()) {
            steps::push(&mut list, steps::Step::Terminate { pid });
        }
        steps::push(&mut list, steps::Step::Remove { path: wpa_pidfile(iface), required: false });
    }
    assert(steps::step_views(list@) =~~= own_process_steps(iface@, held));
    let mut pattern = "wpa_supplicant.*".to_string();
    pattern.append(iface);
    let mut rest: Vec<steps::Step> = Vec::new();
    steps::push_may(&mut rest, "pkill", vec!["-f", pattern.as_str()]);
    steps::push_may(&mut rest, "dhclient", vec!["-r", iface]);
    assert(steps::step_views(rest@) =~~= seq![
        steps::may("pkill"@, seq!["-f"@, "wpa_supplicant.*"@ + iface@]),
        steps::may("dhclient"@, seq!["-r"@, iface@]),
    ]);
    steps::push_all(&mut list, rest);
    list
}

// ---------------------------------------------------------------------------
// Connecting
// ---------------------------------------------------------------------------

/// How the interface gets its address: by DHCP, or the address, the gateway and
/// the name server that are given.
pub open spec fn address_steps(
    iface: Seq<char>,
    dhcp: bool,
    address: Option<Seq<char>>,
    gateway: Option<Seq<char>>,
    dns: Option<Seq<char>>,
) -> Seq<steps::StepView> {
    if dhcp {
        seq![steps::must("dhclient"@, seq![iface])]
    } else {
        let addr = match address {
            Some(a) => a,
            None => Seq::empty(),
        };
        let route = match gateway {
            Some(gw) => seq![
                steps::may(
                    "ip"@,
                    seq!["route"@, "replace"@, "default"@, "via"@, gw, "dev"@, iface],
                ),
            ],
            None => Seq::empty(),
        };
        let resolver = match dns {
            Some(d) => seq![
                steps::StepView::Write {
                    path: "/etc/resolv.conf"@,
                    body: "nameserver "@ + d + "\n"@,
                    private: false,
                    required: false,
                },
            ],
            None => Seq::empty(),
        };
        seq![steps::must("ip"@, seq!["addr"@, "add"@, addr, "dev"@, iface])] + route + resolver
    }
}

/// Bring the interface up afresh and have `wpa_supplicant` connect it.
pub open spec fn join_steps(iface: Seq<char>, conf_path: Seq<char>) -> Seq<steps::StepView> {
    seq![
        steps::StepView::StopClient { iface },
        steps::may("ip"@, seq!["addr"@, "flush"@, "dev"@, iface]),
        steps::may("ip"@, seq!["link"@, "set"@, iface, "down"@]),
        steps::StepView::Sleep { secs: 1 },
        steps::may("ip"@, seq!["link"@, "set"@, iface, "up"@]),
        steps::must(
            "wpa_supplicant"@,
            seq!["-B"@, "-i"@, iface, "-c"@, conf_path, "-P"@, pidfile(iface)],
        ),
        steps::StepView::Sleep { secs: 3 },
    ]
}

/// The primary interface hosts the hotspot, which is stopped before it becomes
/// a client.
pub open spec fn connect_steps(
    iface: Seq<char>,
    names: Seq<Seq<char>>,
    conf_path: Seq<char>,
    dhcp: bool,
    address: Option<Seq<char>>,
    gateway: Option<Seq<char>>,
    dns: Option<Seq<char>>,
) -> Seq<steps::StepView> {
    let leave = if net::first_name(names) == Some(iface) {
        hotspot::stop_steps()
    } else {
        Seq::empty()
    };
    leave + join_steps(iface, conf_path) + address_steps(iface, dhcp, address, gateway, dns)
}

/// The steps by which the interface gets its address.
fn assign_address(
    iface: &str,
    dhcp: bool,
    address: &Option<String>,
    gateway: &Option<String>,
    dns: &Option<String>,
) -> (r: Vec<steps::Step>)
    ensures
        steps::step_views(r@) == address_steps(
            iface@,
            dhcp,
            text::opt_text(*address),
            text::opt_text(*gateway),
            text::opt_text(*dns),
        ),
{
    let mut list: Vec<steps::Step> = Vec::new();
    if dhcp {
        steps::push_must(&mut list, "dhclient", vec![iface]);
    } else {
        let addr: String = match address {
            Some(a) => a.clone(),
            None => String::new(),
        };
        steps::push_must(&mut list, "ip", vec!["addr", "add", addr.as_str(), "dev", iface]);
        if let Some(gw) = gateway {
            steps::push_may(
                &mut list,
                "ip",
                vec!["route", "replace", "default", "via", gw.as_str(), "dev", iface],
            );
        }
        if let Some(d) = dns {
            let mut body = "nameserver ".to_string();
            body.append(d.as_str());
            body.append("\n");
            steps::push(
                &mut list,
                steps::Step::Write {
                    path: "/etc/resolv.conf".to_string(),
                    body,
                    private: false,
                    required: false,
                },
            );
        }
    }
    assert(steps::step_views(list@) =~~= address_steps(
        iface@,
        dhcp,
        text::opt_text(*address),
        text::opt_text(*gateway),
        text::opt_text(*dns),
    ));
    list
}

/// Bring `iface` up as a client using a wpa_supplicant config file. `names` are
/// the wireless interfaces, in order.
pub fn connect_with_conf(
    iface: &str,
    names: &Vec<String>,
    conf_path: &str,
    dhcp: bool,
    address: &Option<String>,
    gateway: &Option<String>,
    dns: &Option<String>,
) -> (r: Vec<steps::Step>)
    ensures
        steps::step_views(r@) == connect_steps(
            iface@,
            text::texts(names@),
            conf_path@,
            dhcp,
            text::opt_text(*address),
            text::opt_text(*gateway),
            text::opt_text(*dns),
        ),
{
    let mut list: Vec<steps::Step> = Vec::new();
    let primary: bool = match net::primary_wifi(names) {
        Some(p) => text::same(p.as_str(), iface),
        None => false,
    };
    if primary {
        list = hotspot::stop_hotspot();
    }
    assert(!primary ==> steps::step_views(list@) =~= Seq::<steps::StepView>::empty());
    let pid = wpa_pidfile(iface);
    let mut on: Vec<steps::Step> = Vec::new();
    steps::push(&mut on, steps::Step::StopClient { iface: iface.to_string() });
    steps::push_may(&mut on, "ip", vec!["addr", "flush", "dev", iface]);
    steps::push_may(&mut on, "ip", vec!["link", "set", iface, "down"]);
    steps::push(&mut on, steps::Step::Sleep { secs: 1 });
    steps::push_may(&mut on, "ip", vec!["link", "set", iface, "up"]);
    steps::push_must(
        &mut on,
        "wpa_supplicant",
        vec!["-B", "-i", iface, "-c", conf_path, "-P", pid.as_str()],
    );
    steps::push(&mut on, steps::Step::Sleep { secs: 3 });
    assert(steps::step_views(on@) =~~= join_steps(iface@, conf_path@));
    steps::push_all(&mut list, on);
    steps::push_all(&mut list, assign_address(iface, dhcp, address, gateway, dns));
    list
}

/// What is wrong with a request to connect.
pub open spec fn connect_fault(p: ConnectParams, names: Seq<Seq<char>>) -> Option<Seq<char>> {
    if !names.contains(p.iface@) {
        Some("unknown wireless interface: "@ + p.iface@)
    } else if p.ssid@.len() == 0 {
        Some("ssid is required"@)
    } else if !p.dhcp && p.address is None {
        Some("static addressing requires an address"@)
    } else if encode_utf8(p.password@).len() < 8 {
        Some("Wi-Fi password must be at least 8 characters"@)
    } else {
        None
    }
}

/// Check a request to connect. The command that is returned makes the
/// `wpa_supplicant` configuration that [`connect`] takes.
pub fn prepare_connect(params: &ConnectParams, names: &Vec<String>) -> (r: net::NetResult<
    command::CommandLine,
>)
    ensures
        match (r, connect_fault(*params, text::texts(names@))) {
            (Ok(c), None) => c@ == (command::CommandView {
                program: "wpa_passphrase"@,
                args: seq![params.ssid@, params.password@],
            }),
            (Err(e), Some(m)) => e@ == m,
            _ => false,
        },
{
    match net::validate_iface(params.iface.as_str(), names) {
        Ok(_) => {},
        Err(e) => {
            return Err(e);
        },
    }
    if params.ssid.as_str().is_empty() {
        return Err("ssid is required".to_string());
    }
    if !params.dhcp && params.address.is_none() {
        return Err("static addressing requires an address".to_string());
    }
    wpa_passphrase(params.ssid.as_str(), params.password.as_str())
}

pub open spec fn conf_file(iface: Seq<char>) -> Seq<char> {
    "/run/camera-box-wpa-"@ + iface + ".conf"@
}

/// The steps of connecting with the configuration `conf`: keep it, save it as a
/// profile if that is asked for, and connect.
pub open spec fn request_steps(
    p: ConnectParams,
    names: Seq<Seq<char>>,
    conf: Seq<char>,
) -> Seq<steps::StepView> {
    let keep = seq![
        steps::StepView::Write {
            path: conf_file(p.iface@),
            body: conf,
            private: true,
            required: true,
        },
    ];
    let save = match p.save_as {
        Some(name) => save_steps(name@, conf),
        None => Seq::empty(),
    };
    keep + save + connect_steps(
        p.iface@,
        names,
        conf_file(p.iface@),
        p.dhcp,
        text::opt_text(p.address),
        text::opt_text(p.gateway),
        text::opt_text(p.dns),
    )
}

/// Connect an interface to a network, unless the request is one that is refused.
/// `conf` is what the command of [`prepare_connect`] wrote.
pub fn connect(params: &ConnectParams, names: &Vec<String>, conf: &str) -> (r: net::NetResult<
    Vec<steps::Step>,
>)
    ensures
        hotspot::plans(
            r,
            connect_fault(*params, text::texts(names@)),
            request_steps(*params, text::texts(names@), conf@),
        ),
{
    match prepare_connect(params, names) {
        Ok(_) => {},
        Err(e) => {
            return Err(e);
        },
    }
    let iface: &str = params.iface.as_str();
    let mut conf_path = "/run/camera-box-wpa-".to_string();
    conf_path.append(iface);
    conf_path.append(".conf");
    let mut list: Vec<steps::Step> = Vec::new();
    steps::push(
        &mut list,
        steps::Step::Write {
            path: conf_path.clone(),
            body: conf.to_string(),
            private: true,
            required: true,
        },
    );
    let ghost keep = steps::step_views(list@);
    assert(keep =~= seq![
        steps::StepView::Write {
            path: conf_file(params.iface@),
            body: conf@,
            private: true,
            required: true,
        },
    ]);
    match &params.save_as {
        Some(name) => {
            steps::push_all(&mut list, add_profile_conf(name.as_str(), conf));
        },
        None => {
            assert(keep + Seq::<steps::StepView>::empty() =~= keep);
        },
    }
    steps::push_all(
        &mut list,
        connect_with_conf(
            iface,
            names,
            conf_path.as_str(),
            params.dhcp,
            &params.address,
            &params.gateway,
            &params.dns,
        ),
    );
    Ok(list)
}

/// What is wrong with a request to connect by a profile. `exists` says whether
/// the file of the profile is there.
pub open spec fn profile_fault(
    iface: Seq<char>,
    names: Seq<Seq<char>>,
    name: Seq<char>,
    exists: bool,
) -> Option<Seq<char>> {
    if !names.contains(iface) {
        Some("unknown wireless interface: "@ + iface)
    } else if !valid_profile(name) {
        Some(profile_error())
    } else if !exists {
        Some("profile not found: "@ + name)
    } else {
        None
    }
}

/// Connect an interface with a saved profile.
pub fn connect_profile(
    iface: &str,
    names: &Vec<String>,
    name: &str,
    dhcp: bool,
    exists: bool,
) -> (r: net::NetResult<Vec<steps::Step>>)
    ensures
        hotspot::plans(
            r,
            profile_fault(iface@, text::texts(names@), name@, exists),
            connect_steps(
                iface@,
                text::texts(names@),
                profile_file(name@),
                dhcp,
                None,
                None,
                None,
            ),
        ),
{
    match net::validate_iface(iface, names) {
        Ok(_) => {},
        Err(e) => {
            return Err(e);
        },
    }
    let path = match profile_path(name) {
        Ok(p) => p,
        Err(e) => {
            return Err(e);
        },
    };
    if !exists {
        let mut e = "profile not found: ".to_string();
        e.append(name);
        return Err(e);
    }
    Ok(connect_with_conf(iface, names, path.as_str(), dhcp, &None, &None, &None))
}

// ---------------------------------------------------------------------------
// Laws
// ---------------------------------------------------------------------------

/// The file of a profile stands in the profile directory: its name names no
/// other directory.
pub proof fn a_profile_stays_in_its_directory(name: Seq<char>)
    requires
        valid_profile(name),
    ensures
        profile_file(name) == "/etc/camera-box/wifi/"@ + (name + ".conf"@),
        !(name + ".conf"@).contains('/'),
{
    reveal_strlit(".conf");
    assert(profile_file(name) =~= "/etc/camera-box/wifi/"@ + (name + ".conf"@));
    let file = name + ".conf"@;
    assert forall|i: int| 0 <= i < file.len() implies file[i] != '/' by {
        if i < name.len() {
            assert(file[i] == name[i]);
        } else {
            assert(file[i] == ".conf"@[i - name.len()]);
        }
    }
}

/// Two profiles have the same file only if they have the same name.
pub proof fn profiles_have_their_own_files(a: Seq<char>, b: Seq<char>)
    requires
        profile_file(a) == profile_file(b),
    ensures
        a == b,
{
    reveal_strlit("/etc/camera-box/wifi/");
    reveal_strlit(".conf");
    let p = profile_file(a);
    let q = profile_file(b);
    let k = "/etc/camera-box/wifi/"@.len() as int;
    assert(a =~= p.subrange(k, p.len() - 5));
    assert(b =~= q.subrange(k, q.len() - 5));
}

/// A saved profile is listed under its name.
pub proof fn a_saved_profile_is_listed(files: Seq<Seq<char>>, name: Seq<char>)
    requires
        files.contains(name + ".conf"@),
    ensures
        profile_names(files).contains(name),
    decreases files.len(),
{
    let file = name + ".conf"@;
    let k = choose|k: int| 0 <= k < files.len() && files[k] == file;
    let front = files.drop_last();
    if files.last() == file {
        assert(".conf"@ =~= file.subrange(name.len() as int, file.len() as int));
        assert(".conf"@.is_suffix_of(file));
        assert(file.take(file.len() - ".conf"@.len()) =~= name);
        let r = profile_names(files);
        assert(r[r.len() - 1] == name);
    } else {
        assert(front[k] == file);
        a_saved_profile_is_listed(front, name);
        let r = profile_names(front);
        let j = choose|j: int| 0 <= j < r.len() && r[j] == name;
        assert(profile_names(files)[j] == name);
    }
}

/// Connecting the primary interface stops the hotspot first; connecting any
/// other leaves it alone.
#[verifier::spinoff_prover]
#[verifier::rlimit(50)]
pub proof fn only_the_primary_gives_up_the_hotspot(
    iface: Seq<char>,
    names: Seq<Seq<char>>,
    conf_path: Seq<char>,
    dhcp: bool,
    address: Option<Seq<char>>,
    gateway: Option<Seq<char>>,
    dns: Option<Seq<char>>,
)
    ensures
        ({
            let s = connect_steps(iface, names, conf_path, dhcp, address, gateway, dns);
            if net::first_name(names) == Some(iface) {
                s.take(3) == hotspot::stop_steps()
            } else {
                forall|i: int|
                    0 <= i < s.len() ==> (#[trigger] s[i] matches steps::StepView::Run {
                        command,
                        ..
                    } ==> command.program != "systemctl"@)
            }
        }),
{
    let s = connect_steps(iface, names, conf_path, dhcp, address, gateway, dns);
    if net::first_name(names) == Some(iface) {
        assert(s.take(3) =~= hotspot::stop_steps());
    } else {
        reveal_strlit("systemctl");
        reveal_strlit("ip");
        reveal_strlit("dhclient");
        reveal_strlit("wpa_supplicant");
        assert("ip"@.len() == 2 && "dhclient"@.len() == 8 && "wpa_supplicant"@.len() == 14
            && "systemctl"@.len() == 9);
        let j = join_steps(iface, conf_path);
        let a = address_steps(iface, dhcp, address, gateway, dns);
        assert(s =~= j + a);
        assert forall|i: int| 0 <= i < s.len() implies (
        #[trigger] s[i] matches steps::StepView::Run { command, .. } ==> command.program
            != "systemctl"@) by {
            if i < j.len() {
                assert(s[i] == j[i]);
            } else {
                assert(s[i] == a[i - j.len()]);
            }
        }
    }
}

/// Does the step change the routes?
pub open spec fn sets_route(s: steps::StepView) -> bool {
    s matches steps::StepView::Run { command, .. } && command.program == "ip"@
        && command.args.len() > 0 && command.args[0] == "route"@
}

/// Does the step add an address to an interface?
pub open spec fn adds_address(s: steps::StepView) -> bool {
    s matches steps::StepView::Run { command, .. } && command.program == "ip"@
        && command.args.len() > 1 && command.args[0] == "addr"@ && command.args[1] == "add"@
}

/// Does the step ask for an address by DHCP?
pub open spec fn asks_dhcp(s: steps::StepView) -> bool {
    s matches steps::StepView::Run { command, .. } && command.program == "dhclient"@
}

/// Does the step start `wpa_supplicant`?
pub open spec fn starts_supplicant(s: steps::StepView) -> bool {
    s matches steps::StepView::Run { command, .. } && command.program == "wpa_supplicant"@
}

/// Is the step at `i` the only one of its list that is as `p` says?
pub open spec fn is_only(
    list: Seq<steps::StepView>,
    p: spec_fn(steps::StepView) -> bool,
    i: int,
) -> bool {
    &&& 0 <= i < list.len()
    &&& p(list[i])
    &&& forall|j: int| 0 <= j < list.len() && #[trigger] p(list[j]) ==> j == i
}

/// Is no step of the list as `p` says?
pub open spec fn is_none(list: Seq<steps::StepView>, p: spec_fn(steps::StepView) -> bool) -> bool {
    forall|j: int| 0 <= j < list.len() ==> !#[trigger] p(list[j])
}

/// What every plan to connect has in common: the words by which its steps differ.
proof fn lemma_words_of_connecting()
    ensures
        "ip"@.len() == 2,
        "dhclient"@.len() == 8,
        "wpa_supplicant"@.len() == 14,
        "systemctl"@.len() == 9,
        "route"@.len() == 5,
        "addr"@.len() == 4,
        "link"@.len() == 4,
        "addr"@[0] == 'a',
        "link"@[0] == 'l',
        "add"@.len() == 3,
        "flush"@.len() == 5,
{
    reveal_strlit("ip");
    reveal_strlit("dhclient");
    reveal_strlit("wpa_supplicant");
    reveal_strlit("systemctl");
    reveal_strlit("route");
    reveal_strlit("addr");
    reveal_strlit("link");
    reveal_strlit("add");
    reveal_strlit("flush");
}

#[verifier::spinoff_prover]
#[verifier::rlimit(50)]
proof fn lemma_before_the_address(
    iface: Seq<char>,
    names: Seq<Seq<char>>,
    conf_path: Seq<char>,
    dhcp: bool,
    address: Option<Seq<char>>,
    gateway: Option<Seq<char>>,
    dns: Option<Seq<char>>,
) -> (n: int)
    ensures
        ({
            let list = connect_steps(iface, names, conf_path, dhcp, address, gateway, dns);
            let tail = address_steps(iface, dhcp, address, gateway, dns);
            &&& 7 <= n <= list.len()
            &&& list.skip(n) == tail
            &&& list.len() == n + tail.len()
            &&& starts_supplicant(list[n - 2])
            &&& list[n - 2] == join_steps(iface, conf_path)[5]
            &&& list[n - 3] == join_steps(iface, conf_path)[4]
            &&& forall|j: int|
                0 <= j < n ==> {
                    &&& !sets_route(#[trigger] list[j])
                    &&& !adds_address(list[j])
                    &&& !asks_dhcp(list[j])
                    &&& !(list[j] is Write)
                    &&& j != n - 2 ==> !starts_supplicant(list[j])
                }
        }),
{
    lemma_words_of_connecting();
    let leave = if net::first_name(names) == Some(iface) {
        hotspot::stop_steps()
    } else {
        Seq::empty()
    };
    let join = join_steps(iface, conf_path);
    let tail = address_steps(iface, dhcp, address, gateway, dns);
    let list = connect_steps(iface, names, conf_path, dhcp, address, gateway, dns);
    let n = leave.len() + join.len();
    assert(list =~= leave + join + tail);
    assert(list.skip(n as int) =~= tail);
    assert forall|j: int| 0 <= j < n implies {
        &&& !sets_route(#[trigger] list[j])
        &&& !adds_address(list[j])
        &&& !asks_dhcp(list[j])
        &&& !(list[j] is Write)
        &&& j != n - 2 ==> !starts_supplicant(list[j])
    } by {
        if j < leave.len() {
            assert(list[j] == leave[j]);
        } else {
            assert(list[j] == join[j - leave.len()]);
        }
    }
    assert(list[n - 2] == join[5] && list[n - 3] == join[4]);
    n as int
}

/// With static addressing the interface is given the address that was asked for, once,
/// and that has to succeed. A gateway, if one was asked for, then becomes the default
/// route, once; without one the routes are left alone. A name server, if one was asked
/// for, is written down, once. Neither depends on the other, and DHCP is not asked.
#[verifier::spinoff_prover]
#[verifier::rlimit(50)]
pub proof fn static_addressing_does_what_was_asked(
    iface: Seq<char>,
    names: Seq<Seq<char>>,
    conf_path: Seq<char>,
    address: Seq<char>,
    gateway: Option<Seq<char>>,
    dns: Option<Seq<char>>,
)
    ensures
        ({
            let list = connect_steps(iface, names, conf_path, false, Some(address), gateway, dns);
            let route = |s: steps::StepView| sets_route(s);
            let add = |s: steps::StepView| adds_address(s);
            let resolv = |s: steps::StepView| s is Write;
            &&& is_none(list, |s: steps::StepView| asks_dhcp(s))
            &&& exists|i: int|
                {
                    &&& #[trigger] is_only(list, add, i)
                    &&& steps::runs(list[i], "ip"@, seq!["addr"@, "add"@, address, "dev"@, iface])
                    &&& steps::is_required(list[i])
                    &&& match gateway {
                        Some(gw) => exists|j: int|
                            {
                                &&& #[trigger] is_only(list, route, j)
                                &&& i < j
                                &&& steps::runs(
                                    list[j],
                                    "ip"@,
                                    seq![
                                        "route"@,
                                        "replace"@,
                                        "default"@,
                                        "via"@,
                                        gw,
                                        "dev"@,
                                        iface,
                                    ],
                                )
                                &&& !steps::is_required(list[j])
                            },
                        None => is_none(list, route),
                    }
                    &&& match dns {
                        Some(d) => exists|j: int|
                            {
                                &&& #[trigger] is_only(list, resolv, j)
                                &&& i < j
                                &&& steps::writes(
                                    list[j],
                                    "/etc/resolv.conf"@,
                                    "nameserver "@ + d + "\n"@,
                                    false,
                                )
                                &&& !steps::is_required(list[j])
                            },
                        None => is_none(list, resolv),
                    }
                }
        }),
{
    lemma_words_of_connecting();
    let list = connect_steps(iface, names, conf_path, false, Some(address), gateway, dns);
    let tail = address_steps(iface, false, Some(address), gateway, dns);
    let n = lemma_before_the_address(iface, names, conf_path, false, Some(address), gateway, dns);
    let route = |s: steps::StepView| sets_route(s);
    let add = |s: steps::StepView| adds_address(s);
    let resolv = |s: steps::StepView| s is Write;
    assert forall|j: int| n <= j < list.len() implies #[trigger] list[j] == tail[j - n] by {
        assert(list.skip(n)[j - n] == list[j]);
    }
    assert(list[n] == tail[0]);
    assert(is_only(list, add, n));
    let r = n + 1;
    if gateway is Some {
        assert(list[r] == tail[1]);
        assert(sets_route(list[r]));
        assert(is_only(list, route, r));
    }
    if dns is Some {
        let d = if gateway is Some {
            n + 2
        } else {
            n + 1
        };
        assert(list[d] == tail[d - n]);
        assert(is_only(list, resolv, d));
    }
}

proof fn lemma_dhcp_alone(list: Seq<steps::StepView>, n: int, iface: Seq<char>)
    requires
        0 <= n,
        list.len() == n + 1,
        list.skip(n) == seq![steps::must("dhclient"@, seq![iface])],
        forall|j: int|
            0 <= j < n ==> {
                &&& !sets_route(#[trigger] list[j])
                &&& !adds_address(list[j])
                &&& !asks_dhcp(list[j])
                &&& !(list[j] is Write)
            },
    ensures
        is_only(list, |s: steps::StepView| asks_dhcp(s), list.len() - 1),
        steps::runs(list.last(), "dhclient"@, seq![iface]),
        steps::is_required(list.last()),
        is_none(list, |s: steps::StepView| sets_route(s)),
        is_none(list, |s: steps::StepView| adds_address(s)),
        is_none(list, |s: steps::StepView| s is Write),
{
    lemma_words_of_connecting();
    assert(list.skip(n)[0] == list[n]);
}

/// With DHCP an address is asked for, once, as the last step, and that has to succeed;
/// no address, route or name server is set by hand, whatever else was said.
#[verifier::spinoff_prover]
#[verifier::rlimit(50)]
pub proof fn dhcp_asks_for_an_address(
    iface: Seq<char>,
    names: Seq<Seq<char>>,
    conf_path: Seq<char>,
    address: Option<Seq<char>>,
    gateway: Option<Seq<char>>,
    dns: Option<Seq<char>>,
)
    ensures
        ({
            let list = connect_steps(iface, names, conf_path, true, address, gateway, dns);
            &&& is_only(list, |s: steps::StepView| asks_dhcp(s), list.len() - 1)
            &&& steps::runs(list.last(), "dhclient"@, seq![iface])
            &&& steps::is_required(list.last())
            &&& is_none(list, |s: steps::StepView| sets_route(s))
            &&& is_none(list, |s: steps::StepView| adds_address(s))
            &&& is_none(list, |s: steps::StepView| s is Write)
        }),
{
    let list = connect_steps(iface, names, conf_path, true, address, gateway, dns);
    let n = lemma_before_the_address(iface, names, conf_path, true, address, gateway, dns);
    lemma_dhcp_alone(list, n, iface);
}

/// An interface is connected by one `wpa_supplicant` with the given configuration,
/// after it was brought up and before it gets an address; that has to succeed. Its
/// process can be found again to stop it.
#[verifier::spinoff_prover]
#[verifier::rlimit(50)]
pub proof fn one_supplicant_connects(
    iface: Seq<char>,
    names: Seq<Seq<char>>,
    conf_path: Seq<char>,
    dhcp: bool,
    address: Option<Seq<char>>,
    gateway: Option<Seq<char>>,
    dns: Option<Seq<char>>,
)
    ensures
        ({
            let list = connect_steps(iface, names, conf_path, dhcp, address, gateway, dns);
            let starts = |s: steps::StepView| starts_supplicant(s);
            exists|i: int|
                {
                    &&& #[trigger] is_only(list, starts, i)
                    &&& i > 0
                    &&& steps::runs(
                        list[i],
                        "wpa_supplicant"@,
                        seq![
                            "-B"@,
                            "-i"@,
                            iface,
                            "-c"@,
                            conf_path,
                            "-P"@,
                            "/run/camera-box-wpa-"@ + iface + ".pid"@,
                        ],
                    )
                    &&& steps::is_required(list[i])
                    &&& steps::runs(list[i - 1], "ip"@, seq!["link"@, "set"@, iface, "up"@])
                    &&& forall|j: int|
                        0 <= j <= i ==> !asks_dhcp(#[trigger] list[j]) && !adds_address(list[j])
                }
        }),
{
    lemma_words_of_connecting();
    let list = connect_steps(iface, names, conf_path, dhcp, address, gateway, dns);
    let tail = address_steps(iface, dhcp, address, gateway, dns);
    let n = lemma_before_the_address(iface, names, conf_path, dhcp, address, gateway, dns);
    assert forall|j: int| n <= j < list.len() implies !starts_supplicant(#[trigger] list[j]) by {
        assert(list.skip(n)[j - n] == list[j]);
        assert(list[j] == tail[j - n]);
    }
    let starts = |s: steps::StepView| starts_supplicant(s);
    assert(is_only(list, starts, n - 2));
}

/// A session of any kind on the interface is stopped, its addresses are flushed and the
/// link is taken down before it is brought up again.
#[verifier::spinoff_prover]
#[verifier::rlimit(50)]
pub proof fn an_interface_is_cleared_before_it_connects(
    iface: Seq<char>,
    names: Seq<Seq<char>>,
    conf_path: Seq<char>,
    dhcp: bool,
    address: Option<Seq<char>>,
    gateway: Option<Seq<char>>,
    dns: Option<Seq<char>>,
)
    ensures
        ({
            let list = connect_steps(iface, names, conf_path, dhcp, address, gateway, dns);
            let n = if names.len() > 0 && names[0] == iface {
                3int
            } else {
                0int
            };
            &&& list[n] == (steps::StepView::StopClient { iface })
            &&& steps::runs(list[n + 1], "ip"@, seq!["addr"@, "flush"@, "dev"@, iface])
            &&& steps::runs(list[n + 2], "ip"@, seq!["link"@, "set"@, iface, "down"@])
            &&& list[n + 3] == (steps::StepView::Sleep { secs: 1 })
            &&& steps::runs(list[n + 4], "ip"@, seq!["link"@, "set"@, iface, "up"@])
            &&& starts_supplicant(list[n + 5])
            &&& list[n + 6] == (steps::StepView::Sleep { secs: 3 })
            &&& n == 3 ==> {
                &&& steps::runs(list[0], "systemctl"@, seq!["stop"@, "hostapd"@])
                &&& steps::runs(list[1], "systemctl"@, seq!["stop"@, "dnsmasq"@])
                &&& steps::runs(list[2], "systemctl"@, seq!["stop"@, "camera-box-ip"@])
            }
            &&& forall|j: int|
                0 <= j < n + 7 && j != n + 5 ==> !steps::is_required(#[trigger] list[j])
        }),
{
    let leave = if net::first_name(names) == Some(iface) {
        hotspot::stop_steps()
    } else {
        Seq::empty()
    };
    let join = join_steps(iface, conf_path);
    let tail = address_steps(iface, dhcp, address, gateway, dns);
    let list = connect_steps(iface, names, conf_path, dhcp, address, gateway, dns);
    assert(list =~= leave + join + tail);
    let n = leave.len() as int;
    assert forall|j: int| 0 <= j < 7 implies #[trigger] list[n + j] == join[j] by {}
    assert forall|j: int| 0 <= j < n implies #[trigger] list[j] == leave[j] by {}
    assert(list[n + 0] == join[0] && list[n + 1] == join[1] && list[n + 2] == join[2] && list[n + 3]
        == join[3] && list[n + 4] == join[4] && list[n + 5] == join[5] && list[n + 6] == join[6]);
    assert forall|j: int| 0 <= j < n + 7 && j != n + 5 implies !steps::is_required(
        #[trigger] list[j],
    ) by {
        if j >= n {
            assert(list[j] == join[j - n]);
        }
    }
}

/// The configuration of a request is kept in the interface's own private file, that
/// file is the one that `wpa_supplicant` reads, and the rest is what connecting with it
/// takes. It is saved as a profile exactly where that was asked for; a name that no
/// profile can have ends the list.
#[verifier::spinoff_prover]
#[verifier::rlimit(50)]
pub proof fn a_request_uses_the_configuration_that_it_keeps(
    p: ConnectParams,
    names: Seq<Seq<char>>,
    conf: Seq<char>,
)
    ensures
        ({
            let list = request_steps(p, names, conf);
            let file = "/run/camera-box-wpa-"@ + p.iface@ + ".conf"@;
            let plan = connect_steps(
                p.iface@,
                names,
                file,
                p.dhcp,
                text::opt_text(p.address),
                text::opt_text(p.gateway),
                text::opt_text(p.dns),
            );
            &&& steps::writes(list[0], file, conf, true) && steps::is_required(list[0])
            &&& match p.save_as {
                None => list == seq![list[0]] + plan,
                Some(name) => if valid_profile(name@) {
                    &&& list == seq![list[0], list[1], list[2]] + plan
                    &&& list[1] == (steps::StepView::PrivateDir { path: "/etc/camera-box/wifi"@ })
                    &&& steps::writes(
                        list[2],
                        "/etc/camera-box/wifi/"@ + name@ + ".conf"@,
                        conf,
                        true,
                    )
                    &&& steps::is_required(list[2])
                } else {
                    &&& list == seq![list[0], list[1]] + plan
                    &&& list[1] == (steps::StepView::Fail {
                        error: "invalid profile name (use letters, digits, '-' or '_')"@,
                    })
                },
            }
        }),
{
    let list = request_steps(p, names, conf);
    let plan = connect_steps(
        p.iface@,
        names,
        conf_file(p.iface@),
        p.dhcp,
        text::opt_text(p.address),
        text::opt_text(p.gateway),
        text::opt_text(p.dns),
    );
    match p.save_as {
        None => {
            assert(list =~= seq![list[0]] + plan);
        },
        Some(name) => {
            if valid_profile(name@) {
                assert(list =~= seq![list[0], list[1], list[2]] + plan);
            } else {
                assert(list =~= seq![list[0], list[1]] + plan);
            }
        },
    }
}

/// A request is refused exactly where the interface is unknown, the network has no name,
/// static addressing comes without an address, or the password has fewer than eight
/// bytes.
pub proof fn which_requests_are_refused(p: ConnectParams, names: Seq<Seq<char>>)
    ensures
        connect_fault(p, names) is None <==> {
            &&& names.contains(p.iface@)
            &&& p.ssid@.len() > 0
            &&& p.dhcp || p.address is Some
            &&& encode_utf8(p.password@).len() >= 8
        },
        !names.contains(p.iface@) ==> connect_fault(p, names) == Some(
            "unknown wireless interface: "@ + p.iface@,
        ),
        names.contains(p.iface@) && p.ssid@.len() == 0 ==> connect_fault(p, names) == Some(
            "ssid is required"@,
        ),
        names.contains(p.iface@) && p.ssid@.len() > 0 && !p.dhcp && p.address is None
            ==> connect_fault(p, names) == Some("static addressing requires an address"@),
{
}

/// A profile name is one or more ASCII letters, digits, hyphens and underscores; a
/// profile is refused for another name, an unknown interface or a missing file only.
pub proof fn which_profiles_are_refused(
    iface: Seq<char>,
    names: Seq<Seq<char>>,
    name: Seq<char>,
    exists_file: bool,
)
    ensures
        valid_profile(name) <==> name.len() > 0 && forall|i: int|
            #![trigger name[i]]
            0 <= i < name.len() ==> {
                ||| 'a' <= name[i] <= 'z'
                ||| 'A' <= name[i] <= 'Z'
                ||| '0' <= name[i] <= '9'
                ||| name[i] == '-'
                ||| name[i] == '_'
            },
        profile_fault(iface, names, name, exists_file) is None <==> names.contains(iface)
            && valid_profile(name) && exists_file,
        names.contains(iface) && valid_profile(name) && !exists_file ==> profile_fault(
            iface,
            names,
            name,
            exists_file,
        ) == Some("profile not found: "@ + name),
{
}

/// The listed profiles are the files with the ending `.conf`, without it, and no other.
pub proof fn a_profile_is_listed_for_its_file_only(files: Seq<Seq<char>>, name: Seq<char>)
    ensures
        profile_names(files).contains(name) <==> files.contains(name + ".conf"@),
    decreases files.len(),
{
    if files.contains(name + ".conf"@) {
        a_saved_profile_is_listed(files, name);
    }
    if profile_names(files).contains(name) {
        let front = files.drop_last();
        let i = choose|i: int| 0 <= i < profile_names(files).len() && profile_names(files)[i] == name;
        if i < profile_names(front).len() {
            assert(profile_names(front)[i] == name);
            a_profile_is_listed_for_its_file_only(front, name);
            let k = choose|k: int| 0 <= k < front.len() && front[k] == name + ".conf"@;
            assert(files[k] == name + ".conf"@);
        } else {
            let last = files.last();
            let n = last.len() - ".conf"@.len();
            assert(last =~= last.take(n) + last.skip(n));
            assert(files[files.len() - 1] == name + ".conf"@);
        }
    }
}

/// Stopping a client asks the process that its file names to terminate, where it names
/// one, removes the file where there is one, and in any case has every other
/// `wpa_supplicant` of the interface killed and its lease given up. None of it has to
/// succeed.
#[verifier::spinoff_prover]
#[verifier::rlimit(50)]
pub proof fn a_client_is_stopped_whoever_started_it(
    iface: Seq<char>,
    contents: Option<Seq<char>>,
    pid: nat,
)
    requires
        pid <= i32::MAX,
    ensures
        ({
            let list = stop_client_steps(iface, contents);
            let n = list.len();
            &&& n >= 2
            &&& steps::runs(list[n - 2], "pkill"@, seq!["-f"@, "wpa_supplicant.*"@ + iface])
            &&& steps::runs(list[n - 1], "dhclient"@, seq!["-r"@, iface])
            &&& contents is None <==> n == 2
            &&& contents is Some ==> (list[n - 3] matches steps::StepView::Remove { path, .. }
                && path == "/run/camera-box-wpa-"@ + iface + ".pid"@)
            &&& n <= 4
            &&& n == 4 ==> list[0] is Terminate
            &&& forall|j: int| 0 <= j < n ==> !steps::is_required(#[trigger] list[j])
        }),
        stop_client_steps(iface, Some(numeral::decimal(pid) + "\n"@))[0] == (
        steps::StepView::Terminate { pid: pid as i32 }),
        stop_client_steps(iface, Some(numeral::decimal(pid))).len() == 4,
{
    let d = numeral::decimal(pid);
    numeral::decimal_reads_back(pid);
    reveal_strlit("\n");
    let s = d + "\n"@;
    assert(numeral::is_digit(d[0]) && numeral::is_digit(d[d.len() - 1]));
    assert(s.drop_last() =~= d);
    assert(s.last() == '\n');
    assert(text::trim_start(s) == s);
    assert(text::trim_start(d) == d);
    assert(text::trim_end(d) == d);
    reveal_with_fuel(text::trim_end, 2);
    assert(text::trim(s) == d);
    assert(text::trim(d) == d);
    let list = stop_client_steps(iface, contents);
    let own = own_process_steps(iface, contents);
    assert forall|j: int| 0 <= j < own.len() implies #[trigger] list[j] == own[j] by {}
}

/// The process that is asked to terminate is the one that the file names, whatever
/// whitespace is around its number; a file that names none is only removed.
pub proof fn the_process_that_the_file_names(iface: Seq<char>, contents: Seq<char>)
    ensures
        ({
            let list = stop_client_steps(iface, Some(contents));
            match numeral::read_i32(text::trim(contents)) {
                Some(pid) => list.len() == 4 && list[0] == (steps::StepView::Terminate {
                    pid: pid as i32,
                }),
                None => list.len() == 3 && list[0] is Remove,
            }
        }),
{
}

} // verus!
