//! Configuration and the state that is kept between runs.
//!
//! Every key of the configuration file is optional: a missing or partial file
//! leaves the defaults in place.

use std::collections::BTreeMap;

use vstd::prelude::*;
use vstd::string::*;

use crate::text;

verus! {

// ---------------------------------------------------------------------------
// Configuration
// ---------------------------------------------------------------------------

#[derive(Debug, Clone)]
pub struct Config {
    /// Maximum number of cameras streaming at once (also the port pool size).
    pub max_cameras: usize,
    /// Port for the first stream; further streams use base + offset.
    pub base_stream_port: u16,
    /// Port for the status web UI / API.
    pub web_port: u16,
    /// Fallback host for stream/UI URLs when a request has no `Host` header
    /// (normally the address the client connected to is used instead).
    pub device_ip: String,
    /// Path to the `ustreamer` binary.
    pub ustreamer_path: String,
    /// Default capture resolution (e.g. `1280x720`).
    pub resolution: String,
    /// Default frames per second.
    pub fps: u32,
    /// GPIO line of the factory-reset button (e.g. `gpiochip0:17`); empty for none.
    pub reset_button: String,
    /// Does the line read low while the button is pressed?
    pub reset_active_low: bool,
    /// How long the button has to be held, in seconds.
    pub reset_hold_secs: u64,
}

/// The values of a [`Config`].
#[verifier::ext_equal]
pub struct ConfigView {
    pub max_cameras: usize,
    pub base_stream_port: u16,
    pub web_port: u16,
    pub device_ip: Seq<char>,
    pub ustreamer_path: Seq<char>,
    pub resolution: Seq<char>,
    pub fps: u32,
    pub reset_button: Seq<char>,
    pub reset_active_low: bool,
    pub reset_hold_secs: u64,
}

impl View for Config {
    type V = ConfigView;

    open spec fn view(&self) -> ConfigView {
        ConfigView {
            max_cameras: self.max_cameras,
            base_stream_port: self.base_stream_port,
            web_port: self.web_port,
            device_ip: self.device_ip@,
            ustreamer_path: self.ustreamer_path@,
            resolution: self.resolution@,
            fps: self.fps,
            reset_button: self.reset_button@,
            reset_active_low: self.reset_active_low,
            reset_hold_secs: self.reset_hold_secs,
        }
    }
}

/// The configuration that holds where nothing else is said.
pub open spec fn default_config() -> ConfigView {
    ConfigView {
        max_cameras: 2,
        base_stream_port: 8080,
        web_port: 80,
        device_ip: "192.168.4.1"@,
        ustreamer_path: "/usr/bin/ustreamer"@,
        resolution: "1280x720"@,
        fps: 30,
        reset_button: Seq::empty(),
        reset_active_low: true,
        reset_hold_secs: 5,
    }
}

impl Default for Config {
    fn default() -> (r: Self)
        ensures
            r@ == default_config(),
    {
        Config {
            max_cameras: 2,
            base_stream_port: 8080,
            web_port: 80,
            device_ip: "192.168.4.1".to_string(),
            ustreamer_path: "/usr/bin/ustreamer".to_string(),
            resolution: "1280x720".to_string(),
            fps: 30,
            reset_button: String::new(),
            reset_active_low: true,
            reset_hold_secs: 5,
        }
    }
}

/// What a configuration file says: a value for each key that it has.
#[derive(Debug, Clone)]
pub struct ConfigFile {
    pub max_cameras: Option<usize>,
    pub base_stream_port: Option<u16>,
    pub web_port: Option<u16>,
    pub device_ip: Option<String>,
    pub ustreamer_path: Option<String>,
    pub resolution: Option<String>,
    pub fps: Option<u32>,
    pub reset_button: Option<String>,
    pub reset_active_low: Option<bool>,
    pub reset_hold_secs: Option<u64>,
}

/// The given value, or else the other.
pub open spec fn given<T>(o: Option<T>, other: T) -> T {
    match o {
        Some(x) => x,
        None => other,
    }
}

impl ConfigFile {
    /// The configuration that the file stands for.
    pub open spec fn config(self) -> ConfigView {
        let d = default_config();
        ConfigView {
            max_cameras: given(self.max_cameras, d.max_cameras),
            base_stream_port: given(self.base_stream_port, d.base_stream_port),
            web_port: given(self.web_port, d.web_port),
            device_ip: given(text::opt_text(self.device_ip), d.device_ip),
            ustreamer_path: given(text::opt_text(self.ustreamer_path), d.ustreamer_path),
            resolution: given(text::opt_text(self.resolution), d.resolution),
            fps: given(self.fps, d.fps),
            reset_button: given(text::opt_text(self.reset_button), d.reset_button),
            reset_active_low: given(self.reset_active_low, d.reset_active_low),
            reset_hold_secs: given(self.reset_hold_secs, d.reset_hold_secs),
        }
    }
}

impl Config {
    /// The configuration that the file gives, each missing key at its default;
    /// the defaults where there is no file that can be read.
    pub fn load(file: Option<ConfigFile>) -> (r: Config)
        ensures
            r@ == (match file {
                Some(f) => f.config(),
                None => default_config(),
            }),
    {
        let d = Config::default();
        match file {
            Some(f) => Config {
                max_cameras: f.max_cameras.unwrap_or(d.max_cameras),
                base_stream_port: f.base_stream_port.unwrap_or(d.base_stream_port),
                web_port: f.web_port.unwrap_or(d.web_port),
                device_ip: f.device_ip.unwrap_or(d.device_ip),
                ustreamer_path: f.ustreamer_path.unwrap_or(d.ustreamer_path),
                resolution: f.resolution.unwrap_or(d.resolution),
                fps: f.fps.unwrap_or(d.fps),
                reset_button: f.reset_button.unwrap_or(d.reset_button),
                reset_active_low: f.reset_active_low.unwrap_or(d.reset_active_low),
                reset_hold_secs: f.reset_hold_secs.unwrap_or(d.reset_hold_secs),
            },
            None => d,
        }
    }
}

// ---------------------------------------------------------------------------
// Hotspot settings
// ---------------------------------------------------------------------------

/// The hotspot: its name, its passphrase and the address of the box in it.
#[derive(Debug, Clone)]
pub struct ApConfig {
    pub ssid: String,
    pub password: String,
    /// Address with prefix length, e.g. `192.168.4.1/24`.
    pub ip_cidr: String,
}

/// The texts of an [`ApConfig`].
#[verifier::ext_equal]
pub struct ApConfigView {
    pub ssid: Seq<char>,
    pub password: Seq<char>,
    pub ip_cidr: Seq<char>,
}

impl View for ApConfig {
    type V = ApConfigView;

    open spec fn view(&self) -> ApConfigView {
        ApConfigView { ssid: self.ssid@, password: self.password@, ip_cidr: self.ip_cidr@ }
    }
}

/// The hotspot that the box opens where nothing else is said.
pub open spec fn default_ap() -> ApConfigView {
    ApConfigView { ssid: "CameraBox"@, password: "CameraBox123"@, ip_cidr: "192.168.4.1/24"@ }
}

impl Default for ApConfig {
    fn default() -> (r: Self)
        ensures
            r@ == default_ap(),
    {
        ApConfig {
            ssid: "CameraBox".to_string(),
            password: "CameraBox123".to_string(),
            ip_cidr: "192.168.4.1/24".to_string(),
        }
    }
}

impl ApConfig {
    /// The stored settings; the defaults where none can be read.
    pub fn load(stored: Option<ApConfig>) -> (r: ApConfig)
        ensures
            r@ == (match stored {
                Some(ap) => ap@,
                None => default_ap(),
            }),
    {
        match stored {
            Some(ap) => ap,
            None => ApConfig::default(),
        }
    }
}

// ---------------------------------------------------------------------------
// Persisted per-camera state
// ---------------------------------------------------------------------------

/// What we remember about one physical camera between runs.
#[derive(Debug, Clone)]
pub struct CameraPersist {
    pub enabled: bool,
    pub resolution: String,
    pub fps: u32,
    /// Optional per-camera HTTP Basic Auth on the MJPEG stream.
    pub stream_user: Option<String>,
    pub stream_password: Option<String>,
}

/// On-disk state, keyed by a stable per-camera id (V4L2 `bus_info`).
#[derive(Debug)]
pub struct PersistState {
    pub cameras: BTreeMap<String, CameraPersist>,
}

impl Default for PersistState {
    fn default() -> (r: Self)
        ensures
            r.cameras@ == Map::<String, CameraPersist>::empty(),
    {
        PersistState { cameras: BTreeMap::new() }
    }
}

impl PersistState {
    /// The stored state; where none can be read, that no camera is known.
    pub fn load(stored: Option<PersistState>) -> (r: PersistState)
        ensures
            match stored {
                Some(s) => r == s,
                None => r.cameras@ == Map::<String, CameraPersist>::empty(),
            },
    {
        match stored {
            Some(s) => s,
            None => PersistState::default(),
        }
    }
}

// ---------------------------------------------------------------------------
// Laws
// ---------------------------------------------------------------------------

/// A file without any key stands for the defaults.
pub proof fn an_empty_file_changes_nothing(f: ConfigFile)
    requires
        f.max_cameras is None,
        f.base_stream_port is None,
        f.web_port is None,
        f.device_ip is None,
        f.ustreamer_path is None,
        f.resolution is None,
        f.fps is None,
        f.reset_button is None,
        f.reset_active_low is None,
        f.reset_hold_secs is None,
    ensures
        f.config() == default_config(),
{
}

/// Every key counts on its own: a key that the file has is taken from it, whatever the
/// file says else, and one that it lacks is at its default.
pub proof fn every_key_counts_on_its_own(f: ConfigFile)
    ensures
        ({
            let c = f.config();
            &&& c.max_cameras == if f.max_cameras is Some {
                f.max_cameras->0
            } else {
                2
            }
            &&& c.base_stream_port == if f.base_stream_port is Some {
                f.base_stream_port->0
            } else {
                8080
            }
            &&& c.web_port == if f.web_port is Some {
                f.web_port->0
            } else {
                80
            }
            &&& c.fps == if f.fps is Some {
                f.fps->0
            } else {
                30
            }
            &&& c.reset_active_low == if f.reset_active_low is Some {
                f.reset_active_low->0
            } else {
                true
            }
            &&& c.reset_hold_secs == if f.reset_hold_secs is Some {
                f.reset_hold_secs->0
            } else {
                5
            }
            &&& f.device_ip matches Some(s) ==> c.device_ip == s@
            &&& f.device_ip is None ==> c.device_ip == "192.168.4.1"@
            &&& f.ustreamer_path matches Some(s) ==> c.ustreamer_path == s@
            &&& f.ustreamer_path is None ==> c.ustreamer_path == "/usr/bin/ustreamer"@
            &&& f.resolution matches Some(s) ==> c.resolution == s@
            &&& f.resolution is None ==> c.resolution == "1280x720"@
            &&& f.reset_button matches Some(s) ==> c.reset_button == s@
            &&& f.reset_button is None ==> c.reset_button.len() == 0
        }),
{
}

/// The hotspot of a box that was never set up.
pub proof fn the_hotspot_of_a_fresh_box()
    ensures
        default_ap().ssid == "CameraBox"@,
        default_ap().password == "CameraBox123"@,
        default_ap().ip_cidr == "192.168.4.1/24"@,
{
}

} // verus!
