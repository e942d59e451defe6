//! Cameras: which video nodes are cameras, and which slot each one has.
//!
//! A camera holds the first slot that was free when it came, and its stream has
//! the port of that slot, until it goes. A connected camera never changes its
//! slot.

use vstd::prelude::*;
use vstd::string::*;

use crate::config;
use crate::net;
use crate::text;

verus! {

// ---------------------------------------------------------------------------
// Shared state
// ---------------------------------------------------------------------------

/// Liveness of one ustreamer process. Updated by its supervisor and read by the
/// status layer.
#[derive(Debug, Clone, Copy, PartialEq, Eq, Structural)]
pub struct StreamRuntime {
    pub running: bool,
    pub pid: Option<u32>,
    pub restarts: u32,
}

impl Default for StreamRuntime {
    fn default() -> (r: Self)
        ensures
            r == (StreamRuntime { running: false, pid: None, restarts: 0 }),
    {
        StreamRuntime { running: false, pid: None, restarts: 0 }
    }
}

/// A `/dev/videoN` node that supports video capture.
#[derive(Debug, Clone)]
pub struct CameraDevice {
    pub path: String,
    pub name: Option<String>,
    /// True if the device can emit MJPEG directly (enables zero-copy passthrough).
    pub mjpeg: bool,
}

/// The values of a [`CameraDevice`].
#[verifier::ext_equal]
pub struct CameraDeviceView {
    pub path: Seq<char>,
    pub name: Option<Seq<char>>,
    pub mjpeg: bool,
}

impl View for CameraDevice {
    type V = CameraDeviceView;

    open spec fn view(&self) -> CameraDeviceView {
        CameraDeviceView {
            path: self.path@,
            name: text::opt_text(self.name),
            mjpeg: self.mjpeg,
        }
    }
}

/// An occupied camera slot.
#[derive(Debug)]
pub struct Slot {
    pub device: CameraDevice,
    pub port: u16,
}

/// The values of a [`Slot`].
#[verifier::ext_equal]
pub struct SlotView {
    pub device: CameraDeviceView,
    pub port: u16,
}

impl View for Slot {
    type V = SlotView;

    open spec fn view(&self) -> SlotView {
        SlotView { device: self.device@, port: self.port }
    }
}

/// Application-wide state.
#[derive(Debug)]
pub struct AppState {
    pub config: config::Config,
    pub hostname: String,
    /// As many slots as `max_cameras`; `None` is a free slot.
    pub slots: Vec<Option<Slot>>,
}

/// The values of an [`AppState`].
pub struct AppStateView {
    pub config: config::ConfigView,
    pub hostname: Seq<char>,
    pub slots: Seq<Option<SlotView>>,
}

/// The values of the slots.
pub open spec fn slot_views(v: Seq<Option<Slot>>) -> Seq<Option<SlotView>> {
    Seq::new(
        v.len(),
        |i: int|
            match v[i] {
                Some(s) => Some(s@),
                None => None,
            },
    )
}

impl View for AppState {
    type V = AppStateView;

    open spec fn view(&self) -> AppStateView {
        AppStateView {
            config: self.config@,
            hostname: self.hostname@,
            slots: slot_views(self.slots@),
        }
    }
}

/// Does the slot hold the device at `path`?
pub open spec fn occupied_by(s: Option<SlotView>, path: Seq<char>) -> bool {
    match s {
        Some(slot) => slot.device.path == path,
        None => false,
    }
}

/// The first slot that holds the device at `path`; the number of slots where
/// none does.
pub open spec fn slot_of(slots: Seq<Option<SlotView>>, path: Seq<char>) -> int
    decreases slots.len(),
{
    if slots.len() == 0 || occupied_by(slots[0], path) {
        0
    } else {
        1 + slot_of(slots.drop_first(), path)
    }
}

/// The first free slot; the number of slots where none is free.
pub open spec fn free_slot(slots: Seq<Option<SlotView>>) -> int
    decreases slots.len(),
{
    if slots.len() == 0 || slots[0] is None {
        0
    } else {
        1 + free_slot(slots.drop_first())
    }
}

pub proof fn lemma_slot_of(slots: Seq<Option<SlotView>>, path: Seq<char>)
    ensures
        0 <= slot_of(slots, path) <= slots.len(),
        slot_of(slots, path) < slots.len() ==> occupied_by(slots[slot_of(slots, path)], path),
        forall|i: int| 0 <= i < slot_of(slots, path) ==> !occupied_by(#[trigger] slots[i], path),
    decreases slots.len(),
{
    if slots.len() == 0 || occupied_by(slots[0], path) {
    } else {
        let rest = slots.drop_first();
        lemma_slot_of(rest, path);
        assert forall|i: int| 0 <= i < slot_of(slots, path) implies !occupied_by(
            #[trigger] slots[i],
            path,
        ) by {
            if i > 0 {
                assert(slots[i] == rest[i - 1]);
            }
        }
    }
}

proof fn lemma_slot_of_unique(slots: Seq<Option<SlotView>>, path: Seq<char>, n: int)
    requires
        0 <= n <= slots.len(),
        n < slots.len() ==> occupied_by(slots[n], path),
        forall|i: int| 0 <= i < n ==> !occupied_by(#[trigger] slots[i], path),
    ensures
        slot_of(slots, path) == n,
{
    lemma_slot_of(slots, path);
    let m = slot_of(slots, path);
    if m < n {
        assert(!occupied_by(slots[m], path));
    } else if n < m {
        assert(!occupied_by(slots[n], path));
    }
}

pub proof fn lemma_free_slot(slots: Seq<Option<SlotView>>)
    ensures
        0 <= free_slot(slots) <= slots.len(),
        free_slot(slots) < slots.len() ==> slots[free_slot(slots)] is None,
        forall|i: int| 0 <= i < free_slot(slots) ==> (#[trigger] slots[i]) is Some,
    decreases slots.len(),
{
    if slots.len() == 0 || slots[0] is None {
    } else {
        let rest = slots.drop_first();
        lemma_free_slot(rest);
        assert forall|i: int| 0 <= i < free_slot(slots) implies (#[trigger] slots[i]) is Some by {
            if i > 0 {
                assert(slots[i] == rest[i - 1]);
            }
        }
    }
}

proof fn lemma_free_slot_unique(slots: Seq<Option<SlotView>>, n: int)
    requires
        0 <= n <= slots.len(),
        n < slots.len() ==> slots[n] is None,
        forall|i: int| 0 <= i < n ==> (#[trigger] slots[i]) is Some,
    ensures
        free_slot(slots) == n,
{
    lemma_free_slot(slots);
    let m = free_slot(slots);
    if m < n {
        assert(slots[m] is Some);
    } else if n < m {
        assert(slots[n] is Some);
    }
}

/// What became of a camera that was connected.
#[derive(Debug, Clone, Copy, PartialEq, Eq, Structural)]
pub enum Added {
    /// It has a slot already.
    Known,
    /// No slot is free.
    Full,
    /// It has this slot now, and its stream is to be started on this port.
    Assigned { slot: usize, port: u16 },
}

impl AppStateView {
    /// There are as many slots as the configuration says; each stream has the
    /// port of its slot; no device has two slots.
    pub open spec fn wf(self) -> bool {
        &&& self.slots.len() == self.config.max_cameras
        &&& forall|i: int|
            0 <= i < self.slots.len() ==> (#[trigger] self.slots[i] matches Some(s) ==> s.port
                == self.config.base_stream_port + i)
        &&& forall|i: int, j: int|
            #![trigger self.slots[i], self.slots[j]]
            0 <= i < j < self.slots.len() ==> (self.slots[i] matches Some(a) ==> !occupied_by(
                self.slots[j],
                a.device.path,
            ))
    }

    /// Would connecting the device at `path` give it a slot whose port is no
    /// port number?
    pub open spec fn port_overflows(self, path: Seq<char>) -> bool {
        &&& slot_of(self.slots, path) == self.slots.len()
        &&& free_slot(self.slots) < self.slots.len()
        &&& self.config.base_stream_port + free_slot(self.slots) > u16::MAX
    }

    /// The outcome of connecting a device.
    pub open spec fn add_outcome(self, device: CameraDeviceView) -> Added {
        if slot_of(self.slots, device.path) < self.slots.len() {
            Added::Known
        } else if free_slot(self.slots) == self.slots.len() {
            Added::Full
        } else {
            Added::Assigned {
                slot: free_slot(self.slots) as usize,
                port: (self.config.base_stream_port + free_slot(self.slots)) as u16,
            }
        }
    }

    /// The state after connecting a device.
    pub open spec fn added(self, device: CameraDeviceView) -> AppStateView {
        match self.add_outcome(device) {
            Added::Assigned { slot, port } => AppStateView {
                slots: self.slots.update(slot as int, Some(SlotView { device, port })),
                ..self
            },
            _ => self,
        }
    }

    /// The state after disconnecting the device at `path`.
    pub open spec fn removed(self, path: Seq<char>) -> AppStateView {
        let n = slot_of(self.slots, path);
        if n < self.slots.len() {
            AppStateView { slots: self.slots.update(n, None), ..self }
        } else {
            self
        }
    }
}

impl AppState {
    /// A state with every slot free. `hostname` is what the kernel says the
    /// host name is, where it could be read.
    pub fn new(config: config::Config, hostname: Option<String>) -> (r: AppState)
        ensures
            r@.wf(),
            r@.config == config@,
            r@.hostname == net::hostname_or_default(text::opt_text(hostname)),
            r@.slots == Seq::new(config.max_cameras as nat, |i: int| None::<SlotView>),
    {
        let mut slots: Vec<Option<Slot>> = Vec::new();
        let n: usize = config.max_cameras;
        while slots.len() < n
            invariant
                slots@.len() <= n,
                forall|i: int| 0 <= i < slots@.len() ==> (#[trigger] slots@[i]) is None,
            decreases n - slots.len(),
        {
            slots.push(None);
        }
        let r = AppState { config, hostname: net::current_hostname(hostname), slots };
        assert(r@.slots =~= Seq::new(n as nat, |i: int| None::<SlotView>));
        r
    }

    /// The index of the slot of the device at `path`.
    fn find_device(&self, path: &str) -> (r: usize)
        ensures
            r == slot_of(self@.slots, path@),
            r <= self.slots@.len(),
    {
        let mut i: usize = 0;
        while i < self.slots.len()
            invariant
                i <= self.slots@.len(),
                forall|k: int| 0 <= k < i ==> !occupied_by(#[trigger] self@.slots[k], path@),
            decreases self.slots.len() - i,
        {
            if let Some(s) = &self.slots[i] {
                if text::same(s.device.path.as_str(), path) {
                    proof {
                        assert(occupied_by(self@.slots[i as int], path@));
                        lemma_slot_of_unique(self@.slots, path@, i as int);
                    }
                    return i;
                }
            }
            assert(!occupied_by(self@.slots[i as int], path@));
            i += 1;
        }
        proof {
            lemma_slot_of_unique(self@.slots, path@, i as int);
        }
        i
    }

    /// The index of the first free slot.
    fn find_free(&self) -> (r: usize)
        ensures
            r == free_slot(self@.slots),
            r <= self.slots@.len(),
    {
        let mut i: usize = 0;
        while i < self.slots.len() && self.slots[i].is_some()
            invariant
                i <= self.slots@.len(),
                forall|k: int| 0 <= k < i ==> (#[trigger] self@.slots[k]) is Some,
            decreases self.slots.len() - i,
        {
            i += 1;
        }
        proof {
            lemma_free_slot_unique(self@.slots, i as int);
        }
        i
    }

    /// Would connecting the device at `path` give it a slot whose port is no
    /// port number?
    pub fn port_overflows(&self, path: &str) -> (r: bool)
        ensures
            r == self@.port_overflows(path@),
    {
        let n = self.find_free();
        self.find_device(path) == self.slots.len() && n < self.slots.len() && n > (u16::MAX
            - self.config.base_stream_port) as usize
    }

    /// Assign a freshly detected camera to the first free slot. A device that
    /// has a slot keeps it; where no slot is free the device is ignored.
    pub fn handle_add(&mut self, device: CameraDevice) -> (r: Added)
        requires
            old(self)@.wf(),
            !old(self)@.port_overflows(device@.path),
        ensures
            final(self)@.wf(),
            final(self)@ == old(self)@.added(device@),
            r == old(self)@.add_outcome(device@),
    {
        let ghost before = self@;
        proof {
            lemma_slot_of(before.slots, device@.path);
            lemma_free_slot(before.slots);
        }
        if self.find_device(device.path.as_str()) < self.slots.len() {
            return Added::Known;
        }
        let slot = self.find_free();
        if slot == self.slots.len() {
            return Added::Full;
        }
        let port: u16 = self.config.base_stream_port + slot as u16;
        let ghost d = device@;
        self.slots.set(slot, Some(Slot { device, port }));
        proof {
            assert(self@.slots =~= before.slots.update(
                slot as int,
                Some(SlotView { device: d, port }),
            ));
            assert forall|i: int, j: int|
                #![trigger self@.slots[i], self@.slots[j]]
                0 <= i < j < self@.slots.len() implies (self@.slots[i] matches Some(a)
                ==> !occupied_by(self@.slots[j], a.device.path)) by {
                assert(!occupied_by(before.slots[i], d.path));
                assert(!occupied_by(before.slots[j], d.path));
                assert(before.slots[i] matches Some(a) ==> !occupied_by(
                    before.slots[j],
                    a.device.path,
                ));
            }
        }
        Added::Assigned { slot, port }
    }

    /// Free the slot whose device is at `path`. Its number is returned: the
    /// stream there is to be stopped.
    pub fn handle_remove(&mut self, path: &str) -> (r: Option<usize>)
        requires
            old(self)@.wf(),
        ensures
            final(self)@.wf(),
            final(self)@ == old(self)@.removed(path@),
            r == (if slot_of(old(self)@.slots, path@) < old(self)@.slots.len() {
                Some(slot_of(old(self)@.slots, path@) as usize)
            } else {
                None
            }),
    {
        let ghost before = self@;
        let n = self.find_device(path);
        if n == self.slots.len() {
            return None;
        }
        self.slots.set(n, None);
        proof {
            assert(self@.slots =~= before.slots.update(n as int, None));
            assert forall|i: int, j: int|
                #![trigger self@.slots[i], self@.slots[j]]
                0 <= i < j < self@.slots.len() implies (self@.slots[i] matches Some(a)
                ==> !occupied_by(self@.slots[j], a.device.path)) by {
                assert(before.slots[i] matches Some(a) ==> !occupied_by(
                    before.slots[j],
                    a.device.path,
                ));
            }
        }
        Some(n)
    }
}

// ---------------------------------------------------------------------------
// Hotplug events
// ---------------------------------------------------------------------------

#[derive(Debug, Clone, Copy, PartialEq, Eq, Structural)]
pub enum EventKind {
    Add,
    Remove,
    Other,
}

/// What a kernel message says under `key`: the rest of the first of its pieces
/// that begins with it.
pub open spec fn said(pieces: Seq<Seq<char>>, key: Seq<char>) -> Option<Seq<char>>
    decreases pieces.len(),
{
    if pieces.len() == 0 {
        None
    } else {
        match text::strip_prefix(pieces[0], key) {
            Some(value) => Some(value),
            None => said(pieces.drop_first(), key),
        }
    }
}

fn find_said(pieces: &Vec<String>, key: &str) -> (r: Option<String>)
    ensures
        text::opt_text(r) == said(text::texts(pieces@), key@),
{
    let ghost all = text::texts(pieces@);
    let mut i: usize = 0;
    assert(all.skip(0) =~= all);
    while i < pieces.len()
        invariant
            i <= pieces@.len(),
            all == text::texts(pieces@),
            said(all, key@) == said(all.skip(i as int), key@),
        decreases pieces.len() - i,
    {
        assert(all[i as int] == pieces@[i as int]@);
        assert(all.skip(i as int)[0] == all[i as int]);
        if let Some(value) = text::after_prefix(pieces[i].as_str(), key) {
            return Some(value);
        }
        assert(all.skip(i as int).drop_first() =~= all.skip(i + 1));
        i += 1;
    }
    None
}

/// The kind of event that an action of the kernel is.
pub open spec fn kind_of(action: Option<Seq<char>>) -> EventKind {
    match action {
        Some(a) => if a == "add"@ {
            EventKind::Add
        } else if a == "remove"@ {
            EventKind::Remove
        } else {
            EventKind::Other
        },
        None => EventKind::Other,
    }
}

/// What a kernel message tells of a video node: what happened to it, and its
/// device node; nothing where the message is about something else.
pub open spec fn told(message: Seq<char>) -> Option<(EventKind, Option<Seq<char>>)> {
    let pieces = text::split(message, "\0"@);
    if said(pieces, "SUBSYSTEM="@) == Some("video4linux"@) {
        Some(
            (
                kind_of(said(pieces, "ACTION="@)),
                match said(pieces, "DEVNAME="@) {
                    Some(name) => Some("/dev/"@ + name),
                    None => None,
                },
            ),
        )
    } else {
        None
    }
}

/// Read a message of the kernel's uevent socket: NUL-separated settings, among
/// them the action, the subsystem and the name of the device.
pub fn read_uevent(message: &str) -> (r: Option<(EventKind, Option<String>)>)
    ensures
        match r {
            Some((kind, node)) => told(message@) == Some((kind, text::opt_text(node))),
            None => told(message@) is None,
        },
{
    let pieces = text::pieces(message, "\0");
    match find_said(&pieces, "SUBSYSTEM=") {
        Some(subsystem) => if !text::same(subsystem.as_str(), "video4linux") {
            return None;
        },
        None => return None,
    }
    let kind: EventKind = match find_said(&pieces, "ACTION=") {
        Some(action) => if text::same(action.as_str(), "add") {
            EventKind::Add
        } else if text::same(action.as_str(), "remove") {
            EventKind::Remove
        } else {
            EventKind::Other
        },
        None => EventKind::Other,
    };
    let node = match find_said(&pieces, "DEVNAME=") {
        Some(name) => {
            let mut path = "/dev/".to_string();
            path.append(name.as_str());
            Some(path)
        },
        None => None,
    };
    Some((kind, node))
}

/// One hotplug event: its device node, and for an added node the camera that
/// probing it found.
#[derive(Debug)]
pub struct HotplugEvent {
    pub kind: EventKind,
    pub devnode: Option<String>,
    pub camera: Option<CameraDevice>,
}

/// What a hotplug event asks for.
#[derive(Debug)]
pub enum Action {
    Add(CameraDevice),
    Remove(String),
}

/// The values of an [`Action`].
pub enum ActionView {
    Add(CameraDeviceView),
    Remove(Seq<char>),
}

impl View for Action {
    type V = ActionView;

    open spec fn view(&self) -> ActionView {
        match self {
            Action::Add(d) => ActionView::Add(d@),
            Action::Remove(p) => ActionView::Remove(p@),
        }
    }
}

impl HotplugEvent {
    /// A camera that came is to be added, a node that went to be removed;
    /// nothing else asks for anything.
    pub open spec fn action(self) -> Option<ActionView> {
        match self.kind {
            EventKind::Add => match self.camera {
                Some(d) => Some(ActionView::Add(d@)),
                None => None,
            },
            EventKind::Remove => match self.devnode {
                Some(p) => Some(ActionView::Remove(p@)),
                None => None,
            },
            EventKind::Other => None,
        }
    }
}

/// What a sequence of events asks for, in order.
pub open spec fn actions(events: Seq<HotplugEvent>) -> Seq<ActionView>
    decreases events.len(),
{
    if events.len() == 0 {
        Seq::empty()
    } else {
        let rest = actions(events.drop_last());
        match events.last().action() {
            Some(a) => rest.push(a),
            None => rest,
        }
    }
}

pub open spec fn action_views(v: Seq<Action>) -> Seq<ActionView> {
    Seq::new(v.len(), |i: int| v[i]@)
}

/// Turn the queued events into the actions they ask for.
pub fn drain_events(events: Vec<HotplugEvent>) -> (r: Vec<Action>)
    ensures
        action_views(r@) == actions(events@),
{
    let ghost all = events@;
    let mut rest: Vec<HotplugEvent> = events;
    let mut out: Vec<Action> = Vec::new();
    let n: usize = rest.len();
    let mut done: usize = 0;
    assert(action_views(out@) =~= actions(all.take(0)));
    while done < n
        invariant
            done <= n == all.len(),
            rest@ == all.skip(done as int),
            action_views(out@) == actions(all.take(done as int)),
        decreases n - done,
    {
        let e = rest.remove(0);
        assert(e == all[done as int]);
        assert(rest@ =~= all.skip(done + 1));
        assert(all.take(done + 1).drop_last() =~= all.take(done as int));
        let ghost before = out@;
        match e.kind {
            EventKind::Add => {
                if let Some(d) = e.camera {
                    out.push(Action::Add(d));
                }
            },
            EventKind::Remove => {
                if let Some(p) = e.devnode {
                    out.push(Action::Remove(p));
                }
            },
            EventKind::Other => {},
        }
        assert(action_views(out@) =~= actions(all.take(done + 1)));
        done += 1;
    }
    assert(all.take(done as int) =~= all);
    out
}

/// What is to be done to the streams after an action.
#[derive(Debug, Clone, Copy, PartialEq, Eq, Structural)]
pub enum Effect {
    Nothing,
    /// Start the stream of the camera in this slot on this port.
    Start { slot: usize, port: u16 },
    /// Stop the stream that the camera in this slot had.
    Stop { slot: usize },
}

impl AppStateView {
    /// Would the action give a slot whose port is no port number?
    pub open spec fn action_overflows(self, a: ActionView) -> bool {
        match a {
            ActionView::Add(d) => self.port_overflows(d.path),
            ActionView::Remove(_) => false,
        }
    }

    /// The state after an action.
    pub open spec fn after(self, a: ActionView) -> AppStateView {
        match a {
            ActionView::Add(d) => self.added(d),
            ActionView::Remove(p) => self.removed(p),
        }
    }

    /// What an action does to the streams.
    pub open spec fn effect(self, a: ActionView) -> Effect {
        match a {
            ActionView::Add(d) => match self.add_outcome(d) {
                Added::Assigned { slot, port } => Effect::Start { slot, port },
                _ => Effect::Nothing,
            },
            ActionView::Remove(p) => if slot_of(self.slots, p) < self.slots.len() {
                Effect::Stop { slot: slot_of(self.slots, p) as usize }
            } else {
                Effect::Nothing
            },
        }
    }
}

impl AppState {
    /// Would the action give a slot whose port is no port number?
    pub fn action_overflows(&self, action: &Action) -> (r: bool)
        ensures
            r == self@.action_overflows(action@),
    {
        match action {
            Action::Add(d) => self.port_overflows(d.path.as_str()),
            Action::Remove(_) => false,
        }
    }

    /// Carry out an action; what it does to the streams is returned.
    pub fn apply(&mut self, action: Action) -> (r: Effect)
        requires
            old(self)@.wf(),
            !old(self)@.action_overflows(action@),
        ensures
            final(self)@.wf(),
            final(self)@ == old(self)@.after(action@),
            r == old(self)@.effect(action@),
    {
        match action {
            Action::Add(d) => match self.handle_add(d) {
                Added::Assigned { slot, port } => Effect::Start { slot, port },
                Added::Known => Effect::Nothing,
                Added::Full => Effect::Nothing,
            },
            Action::Remove(p) => match self.handle_remove(p.as_str()) {
                Some(slot) => Effect::Stop { slot },
                None => Effect::Nothing,
            },
        }
    }
}

// ---------------------------------------------------------------------------
// Probing
// ---------------------------------------------------------------------------

pub const V4L2_CAP_VIDEO_CAPTURE: u32 = 0x0000_0001;

pub const V4L2_CAP_DEVICE_CAPS: u32 = 0x8000_0000;

/// fourcc 'M''J''P''G'
pub const V4L2_PIX_FMT_MJPEG: u32 = 0x4750_4a4d;

/// How many formats of a device are asked for.
pub const MAX_FORMATS: u32 = 64;

/// The capabilities of a node: those of the node where it advertises them, else
/// those of the whole device.
pub open spec fn node_caps(capabilities: u32, device_caps: u32) -> u32 {
    if capabilities & V4L2_CAP_DEVICE_CAPS != 0 {
        device_caps
    } else {
        capabilities
    }
}

/// Is the bus a USB bus? Its name then begins with `usb-`.
pub open spec fn usb_bus(bus_info: Seq<u8>) -> bool {
    &&& bus_info.len() >= 4
    &&& bus_info[0] == 117
    &&& bus_info[1] == 115
    &&& bus_info[2] == 98
    &&& bus_info[3] == 45
}

/// A step of probing a node.
#[derive(Debug, Clone, Copy, PartialEq, Eq, Structural)]
pub enum Probe {
    /// Ask for the format with this index.
    Ask(u32),
    /// The node is a camera or is not, and offers MJPEG or does not.
    Done { capture: bool, mjpeg: bool },
}

/// Begin to probe a node with these capabilities on this bus. Where it can capture
/// video and hangs on a USB bus it is a camera, and its formats are asked for; any
/// other node is none, and offers nothing.
pub fn inspect(capabilities: u32, device_caps: u32, bus_info: &[u8]) -> (r: Probe)
    ensures
        r == (if node_caps(capabilities, device_caps) & V4L2_CAP_VIDEO_CAPTURE != 0 && usb_bus(
            bus_info@,
        ) {
            Probe::Ask(0)
        } else {
            Probe::Done { capture: false, mjpeg: false }
        }),
{
    let caps: u32 = if capabilities & V4L2_CAP_DEVICE_CAPS != 0 {
        device_caps
    } else {
        capabilities
    };
    if caps & V4L2_CAP_VIDEO_CAPTURE != 0 && bus_info.len() >= 4 && bus_info[0] == 117
        && bus_info[1] == 115 && bus_info[2] == 98 && bus_info[3] == 45 {
        Probe::Ask(0)
    } else {
        Probe::Done { capture: false, mjpeg: false }
    }
}

/// The step after a camera's answer for the format `index`; no answer means
/// that it has no such format.
pub open spec fn next_probe(index: u32, reply: Option<u32>) -> Probe {
    match reply {
        Some(f) => if f == V4L2_PIX_FMT_MJPEG {
            Probe::Done { capture: true, mjpeg: true }
        } else if index + 1 < MAX_FORMATS {
            Probe::Ask((index + 1) as u32)
        } else {
            Probe::Done { capture: true, mjpeg: false }
        },
        None => Probe::Done { capture: true, mjpeg: false },
    }
}

pub fn supports_mjpeg(index: u32, reply: Option<u32>) -> (r: Probe)
    requires
        index < MAX_FORMATS,
    ensures
        r == next_probe(index, reply),
{
    match reply {
        Some(f) => if f == V4L2_PIX_FMT_MJPEG {
            Probe::Done { capture: true, mjpeg: true }
        } else if index + 1 < MAX_FORMATS {
            Probe::Ask(index + 1)
        } else {
            Probe::Done { capture: true, mjpeg: false }
        },
        None => Probe::Done { capture: true, mjpeg: false },
    }
}

/// The camera that a video node is. `probe` is whether the node can capture
/// video and whether it offers MJPEG, where it could be probed; `name` is the
/// name that the kernel gives it.
pub open spec fn camera_of(
    devnode: Option<Seq<char>>,
    probe: Option<(bool, bool)>,
    name: Option<Seq<char>>,
) -> Option<CameraDeviceView> {
    match (devnode, probe) {
        (Some(path), Some((true, mjpeg))) => Some(
            CameraDeviceView {
                path,
                name: match name {
                    Some(n) => if text::trim(n).len() > 0 {
                        Some(text::trim(n))
                    } else {
                        None
                    },
                    None => None,
                },
                mjpeg,
            },
        ),
        _ => None,
    }
}

/// The camera that a video node is, if it is one. Metadata-only nodes and nodes
/// that could not be probed are none.
pub fn evaluate_device(
    devnode: Option<String>,
    probe: Option<(bool, bool)>,
    name: Option<String>,
) -> (r: Option<CameraDevice>)
    ensures
        match r {
            Some(d) => camera_of(text::opt_text(devnode), probe, text::opt_text(name)) == Some(d@),
            None => camera_of(text::opt_text(devnode), probe, text::opt_text(name)) is None,
        },
{
    match (devnode, probe) {
        (Some(path), Some((true, mjpeg))) => {
            let label: Option<String> = match name {
                Some(n) => {
                    let t = text::trimmed(n.as_str());
                    if t.as_str().is_empty() {
                        None
                    } else {
                        Some(t)
                    }
                },
                None => None,
            };
            Some(CameraDevice { path, name: label, mjpeg })
        },
        _ => None,
    }
}

// ---------------------------------------------------------------------------
// Laws
// ---------------------------------------------------------------------------

/// No two streams share a port.
pub proof fn streams_have_their_own_ports(s: AppStateView, i: int, j: int)
    requires
        s.wf(),
        0 <= i < j < s.slots.len(),
        s.slots[i] is Some,
        s.slots[j] is Some,
    ensures
        s.slots[i]->0.port != s.slots[j]->0.port,
{
    assert(s.slots[i] matches Some(a) ==> a.port == s.config.base_stream_port + i);
    assert(s.slots[j] matches Some(a) ==> a.port == s.config.base_stream_port + j);
}

/// A connected camera keeps its slot and its port, whatever other camera comes
/// or goes.
pub proof fn a_connected_camera_keeps_its_slot(s: AppStateView, a: ActionView, i: int)
    requires
        s.wf(),
        !s.action_overflows(a),
        0 <= i < s.slots.len(),
        s.slots[i] is Some,
        a matches ActionView::Remove(p) ==> p != s.slots[i]->0.device.path,
    ensures
        s.after(a).slots[i] == s.slots[i],
{
    match a {
        ActionView::Add(d) => {
            lemma_free_slot(s.slots);
            lemma_slot_of(s.slots, d.path);
        },
        ActionView::Remove(p) => {
            lemma_slot_of(s.slots, p);
        },
    }
}

/// A camera that came and went leaves no trace.
pub proof fn removing_undoes_adding(s: AppStateView, d: CameraDeviceView)
    requires
        s.wf(),
        !s.port_overflows(d.path),
        s.add_outcome(d) is Assigned,
    ensures
        s.added(d).removed(d.path) == s,
{
    lemma_slot_of(s.slots, d.path);
    lemma_free_slot(s.slots);
    let n = free_slot(s.slots);
    let t = s.added(d);
    assert forall|i: int| 0 <= i < n implies !occupied_by(#[trigger] t.slots[i], d.path) by {
        assert(t.slots[i] == s.slots[i]);
        assert(!occupied_by(s.slots[i], d.path));
    }
    lemma_slot_of_unique(t.slots, d.path, n);
    assert(t.removed(d.path).slots =~= s.slots);
}

/// After a removal the device has no slot.
pub proof fn a_removed_camera_has_no_slot(s: AppStateView, path: Seq<char>)
    requires
        s.wf(),
    ensures
        slot_of(s.removed(path).slots, path) == s.slots.len(),
{
    lemma_slot_of(s.slots, path);
    let n = slot_of(s.slots, path);
    let t = s.removed(path);
    assert forall|i: int| 0 <= i < t.slots.len() implies !occupied_by(
        #[trigger] t.slots[i],
        path,
    ) by {
        if i < n {
            assert(!occupied_by(s.slots[i], path));
        } else if n < i {
            assert(s.slots[n] matches Some(a) ==> !occupied_by(s.slots[i], a.device.path));
        }
    }
    lemma_slot_of_unique(t.slots, path, t.slots.len() as int);
}

/// Where probing a device with these formats ends, from the format `index` on.
pub open spec fn probe_from(formats: Seq<u32>, index: u32) -> bool
    decreases MAX_FORMATS - index,
{
    let reply = if index < formats.len() {
        Some(formats[index as int])
    } else {
        None
    };
    match next_probe(index, reply) {
        Probe::Ask(next) => if next > index && index < MAX_FORMATS {
            probe_from(formats, next)
        } else {
            false
        },
        Probe::Done { mjpeg, .. } => mjpeg,
    }
}

proof fn lemma_probe(formats: Seq<u32>, index: u32)
    requires
        index < MAX_FORMATS,
    ensures
        probe_from(formats, index) <==> exists|i: int|
            index <= i < MAX_FORMATS && i < formats.len() && formats[i] == V4L2_PIX_FMT_MJPEG,
    decreases MAX_FORMATS - index,
{
    if index < formats.len() && formats[index as int] != V4L2_PIX_FMT_MJPEG && index + 1
        < MAX_FORMATS {
        lemma_probe(formats, (index + 1) as u32);
    }
}

/// Probing finds MJPEG exactly where it is among the formats that are asked
/// for.
pub proof fn probing_finds_mjpeg(formats: Seq<u32>)
    ensures
        probe_from(formats, 0) <==> exists|i: int|
            0 <= i < MAX_FORMATS && i < formats.len() && formats[i] == V4L2_PIX_FMT_MJPEG,
{
    lemma_probe(formats, 0);
}

/// Is `i` the lowest slot that is free?
pub open spec fn is_lowest_free(slots: Seq<Option<SlotView>>, i: int) -> bool {
    &&& 0 <= i < slots.len()
    &&& slots[i] is None
    &&& forall|j: int| 0 <= j < i ==> (#[trigger] slots[j]) is Some
}

/// Has some slot a camera with this path?
pub open spec fn is_connected(slots: Seq<Option<SlotView>>, path: Seq<char>) -> bool {
    exists|j: int|
        0 <= j < slots.len() && (#[trigger] slots[j] matches Some(s) && s.device.path == path)
}

/// A camera that comes takes the lowest free slot, as it is, with the port that is as
/// far from the first one as its slot is, and its stream is started there. Every other
/// slot stays as it was. One that is connected already, or finds no free slot, changes
/// nothing.
#[verifier::spinoff_prover]
#[verifier::rlimit(50)]
pub proof fn a_camera_takes_the_lowest_free_slot(s: AppStateView, d: CameraDeviceView, i: int)
    requires
        s.wf(),
        !s.port_overflows(d.path),
    ensures
        is_connected(s.slots, d.path) ==> s.added(d) == s && s.add_outcome(d) is Known && s.effect(
            ActionView::Add(d),
        ) is Nothing,
        !is_connected(s.slots, d.path) && (forall|j: int|
            0 <= j < s.slots.len() ==> (#[trigger] s.slots[j]) is Some) ==> s.added(d) == s
            && s.add_outcome(d) is Full && s.effect(ActionView::Add(d)) is Nothing,
        !is_connected(s.slots, d.path) && is_lowest_free(s.slots, i) ==> {
            let after = s.added(d);
            let port = (s.config.base_stream_port + i) as u16;
            &&& s.config.base_stream_port + i <= u16::MAX
            &&& after.config == s.config && after.hostname == s.hostname
            &&& after.slots.len() == s.slots.len()
            &&& after.slots[i] matches Some(slot) && slot.device == d && slot.port == port
            &&& forall|j: int|
                0 <= j < s.slots.len() && j != i ==> #[trigger] after.slots[j] == s.slots[j]
            &&& s.add_outcome(d) == (Added::Assigned { slot: i as usize, port })
            &&& s.effect(ActionView::Add(d)) == (Effect::Start { slot: i as usize, port })
            &&& s.after(ActionView::Add(d)) == after
        },
{
    lemma_slot_of(s.slots, d.path);
    lemma_free_slot(s.slots);
    let n = slot_of(s.slots, d.path);
    if is_connected(s.slots, d.path) {
        let j = choose|j: int|
            0 <= j < s.slots.len() && (#[trigger] s.slots[j] matches Some(a) && a.device.path
                == d.path);
        if n == s.slots.len() {
            assert(!occupied_by(s.slots[j], d.path));
        }
    } else {
        if n < s.slots.len() {
            assert(occupied_by(s.slots[n], d.path));
            assert(s.slots[n] matches Some(a) && a.device.path == d.path);
        }
        if is_lowest_free(s.slots, i) {
            lemma_free_slot_unique(s.slots, i);
        }
    }
}

/// A camera that goes frees its slot, and its stream is stopped; every other slot stays
/// as it was. A device without a slot changes nothing.
pub proof fn a_camera_that_goes_frees_its_slot(s: AppStateView, path: Seq<char>, i: int)
    requires
        s.wf(),
    ensures
        !is_connected(s.slots, path) ==> s.removed(path) == s && s.effect(
            ActionView::Remove(path),
        ) is Nothing,
        0 <= i < s.slots.len() && (s.slots[i] matches Some(a) && a.device.path == path) ==> {
            let after = s.removed(path);
            &&& after.config == s.config && after.hostname == s.hostname
            &&& after.slots.len() == s.slots.len()
            &&& after.slots[i] is None
            &&& forall|j: int|
                0 <= j < s.slots.len() && j != i ==> #[trigger] after.slots[j] == s.slots[j]
            &&& s.effect(ActionView::Remove(path)) == (Effect::Stop { slot: i as usize })
            &&& s.after(ActionView::Remove(path)) == after
        },
{
    lemma_slot_of(s.slots, path);
    let n = slot_of(s.slots, path);
    if !is_connected(s.slots, path) {
        if n < s.slots.len() {
            assert(s.slots[n] matches Some(a) && a.device.path == path);
        }
    }
    if 0 <= i < s.slots.len() && (s.slots[i] matches Some(a) && a.device.path == path) {
        assert forall|j: int| 0 <= j < i implies !occupied_by(#[trigger] s.slots[j], path) by {
            assert(s.slots[j] matches Some(b) ==> !occupied_by(s.slots[i], b.device.path));
        }
        lemma_slot_of_unique(s.slots, path, i);
    }
}

/// An event adds the camera that was found, removes the node that went, or asks for
/// nothing; events are taken in their order, and none depends on another.
pub proof fn an_event_asks_for_one_thing(events: Seq<HotplugEvent>, e: HotplugEvent)
    ensures
        actions(Seq::<HotplugEvent>::empty()) == Seq::<ActionView>::empty(),
        e.kind is Add && e.camera is Some ==> actions(events.push(e)) == actions(events).push(
            ActionView::Add(e.camera->0@),
        ),
        e.kind is Remove && e.devnode is Some ==> actions(events.push(e)) == actions(events).push(
            ActionView::Remove(e.devnode->0@),
        ),
        e.kind is Other || (e.kind is Add && e.camera is None) || (e.kind is Remove && e.devnode
            is None) ==> actions(events.push(e)) == actions(events),
{
    assert(events.push(e).drop_last() =~= events);
}

/// What is said under a key is the rest of the first piece that begins with it.
pub proof fn the_first_piece_with_a_key_counts(
    before: Seq<Seq<char>>,
    key: Seq<char>,
    value: Seq<char>,
    behind: Seq<Seq<char>>,
)
    requires
        forall|i: int| 0 <= i < before.len() ==> !key.is_prefix_of(#[trigger] before[i]),
    ensures
        said(before, key) is None,
        said(before.push(key + value) + behind, key) == Some(value),
    decreases before.len(),
{
    let all = before.push(key + value) + behind;
    if before.len() == 0 {
        text::stripping_leaves_the_rest(key + value, key, value);
        assert(all[0] == key + value);
    } else {
        let rest = before.drop_first();
        assert(!key.is_prefix_of(before[0]));
        assert forall|i: int| 0 <= i < rest.len() implies !key.is_prefix_of(
            #[trigger] rest[i],
        ) by {
            assert(rest[i] == before[i + 1]);
        }
        the_first_piece_with_a_key_counts(rest, key, value, behind);
        assert(all.drop_first() =~= rest.push(key + value) + behind);
        assert(all[0] == before[0]);
    }
}

/// A message is about a video node exactly where it says so under `SUBSYSTEM`; the node
/// came or went by what it says under `ACTION`, and it is the one in `/dev` that it names
/// under `DEVNAME`.
pub proof fn what_a_kernel_message_tells(message: Seq<char>)
    ensures
        ({
            let pieces = text::split(message, "\0"@);
            let subsystem = said(pieces, "SUBSYSTEM="@);
            let action = said(pieces, "ACTION="@);
            let name = said(pieces, "DEVNAME="@);
            &&& told(message) is Some <==> subsystem == Some("video4linux"@)
            &&& told(message) matches Some((kind, node)) ==> {
                &&& kind is Add <==> action == Some("add"@)
                &&& kind is Remove <==> action == Some("remove"@)
                &&& name matches Some(n) ==> node == Some("/dev/"@ + n)
                &&& name is None ==> node is None
            }
        }),
{
    reveal_strlit("add");
    reveal_strlit("remove");
    assert("add"@.len() != "remove"@.len());
}

/// A node is a camera where the capabilities that count have the lowest bit set and its
/// bus begins with `usb-`; those of the node count where the highest bit says that they
/// are given. MJPEG is the format with the letters M, J, P and G, and sixty-four formats
/// are looked at.
pub proof fn what_makes_a_node_a_camera(capabilities: u32, device_caps: u32, bus: Seq<u8>)
    ensures
        node_caps(capabilities, device_caps) == if capabilities >= 0x8000_0000 {
            device_caps
        } else {
            capabilities
        },
        (capabilities & V4L2_CAP_VIDEO_CAPTURE != 0) == (capabilities % 2 == 1),
        usb_bus(bus) <==> seq!['u' as u8, 's' as u8, 'b' as u8, '-' as u8].is_prefix_of(bus),
        V4L2_PIX_FMT_MJPEG == ('M' as u32) + ('J' as u32) * 256 + ('P' as u32) * 65_536 + (
        'G' as u32) * 16_777_216,
        MAX_FORMATS == 64,
{
    assert((capabilities & 0x8000_0000u32 != 0) == (capabilities >= 0x8000_0000u32)) by (bit_vector);
    assert((capabilities & 0x0000_0001u32 != 0) == (capabilities % 2 == 1)) by (bit_vector);
    let p = seq!['u' as u8, 's' as u8, 'b' as u8, '-' as u8];
    if usb_bus(bus) {
        assert(bus.subrange(0, 4) =~= p);
    }
    if p.is_prefix_of(bus) {
        let t = bus.subrange(0, 4);
        assert(t == p);
        assert(t[0] == bus[0] && t[1] == bus[1] && t[2] == bus[2] && t[3] == bus[3]);
    }
}

/// A node that was probed and can capture is the camera at its path, with MJPEG as it was
/// found, under the kernel's name for it without the whitespace around; a blank name is
/// none. Any other node is no camera.
pub proof fn the_camera_that_a_node_is(
    path: Seq<char>,
    mjpeg: bool,
    name: Seq<char>,
    before: Seq<char>,
    behind: Seq<char>,
)
    requires
        text::is_blank(before),
        text::is_blank(behind),
        name.len() > 0 ==> !text::is_whitespace(name[0]) && !text::is_whitespace(name.last()),
    ensures
        ({
            let found = camera_of(
                Some(path),
                Some((true, mjpeg)),
                Some(before + name + behind),
            );
            &&& found matches Some(d) && d.path == path && d.mjpeg == mjpeg && d.name == if name.len()
                > 0 {
                Some(name)
            } else {
                None
            }
        }),
        camera_of(Some(path), Some((true, mjpeg)), None) matches Some(d) && d.path == path
            && d.mjpeg == mjpeg && d.name is None,
        camera_of(Some(path), Some((false, mjpeg)), Some(name)) is None,
        camera_of(Some(path), None, Some(name)) is None,
        camera_of(None, Some((true, mjpeg)), Some(name)) is None,
{
    text::trimming_takes_the_whitespace_at_both_ends(before + name + behind, before, name, behind);
}

/// A port is out of range exactly where the camera would take a slot that is too far from
/// the first port.
pub proof fn which_ports_are_out_of_range(s: AppStateView, path: Seq<char>, i: int)
    requires
        is_lowest_free(s.slots, i),
    ensures
        s.port_overflows(path) <==> !is_connected(s.slots, path) && s.config.base_stream_port + i
            > 65_535,
{
    lemma_slot_of(s.slots, path);
    lemma_free_slot_unique(s.slots, i);
    let n = slot_of(s.slots, path);
    if n < s.slots.len() {
        assert(s.slots[n] matches Some(a) && a.device.path == path);
    }
    if is_connected(s.slots, path) {
        let j = choose|j: int|
            0 <= j < s.slots.len() && (#[trigger] s.slots[j] matches Some(a) && a.device.path
                == path);
        if n == s.slots.len() {
            assert(!occupied_by(s.slots[j], path));
        }
    }
}

/// A camera is asked for one format after the other, until it names MJPEG, has no more,
/// or has been asked for sixty-four.
pub proof fn how_formats_are_asked_for(index: u32, format: u32)
    requires
        index < 64,
    ensures
        next_probe(index, None) == (Probe::Done { capture: true, mjpeg: false }),
        next_probe(index, Some(0x4750_4a4d)) == (Probe::Done { capture: true, mjpeg: true }),
        format != 0x4750_4a4d && index < 63 ==> next_probe(index, Some(format)) == Probe::Ask(
            (index + 1) as u32,
        ),
        format != 0x4750_4a4d && index == 63 ==> next_probe(index, Some(format)) == (Probe::Done {
            capture: true,
            mjpeg: false,
        }),
{
}

} // verus!
