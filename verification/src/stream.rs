//! Streams: the `ustreamer` command line of a camera, and the supervision of
//! the process.
//!
//! A supervisor starts `ustreamer`, starts it again when it ends, and stops it
//! when the camera goes. It is a state machine: each [`Phase`] waits for an
//! event, and each event gives the next phase and the next thing to do.

use vstd::prelude::*;
use vstd::string::*;

use crate::camera;
use crate::command;
use crate::config;
use crate::numeral;
use crate::text;

verus! {

/// Seconds to wait before restarting a stream that ended.
pub const RESTART_BACKOFF: u64 = 2;

/// Seconds to wait before trying again where the program could not be started.
pub const SPAWN_BACKOFF: u64 = 3;

// ---------------------------------------------------------------------------
// Command line
// ---------------------------------------------------------------------------

/// The arguments of `ustreamer` for a device: frames are forwarded untouched
/// where the device emits MJPEG, and encoded on the CPU where it does not.
pub open spec fn stream_args(
    config: config::ConfigView,
    device: camera::CameraDeviceView,
    port: u16,
) -> Seq<Seq<char>> {
    let common = seq![
        "--device="@ + device.path,
        "--host=0.0.0.0"@,
        "--port="@ + numeral::decimal(port as nat),
        "--resolution="@ + config.resolution,
        "--desired-fps="@ + numeral::decimal(config.fps as nat),
        "--drop-same-frames=30"@,
    ];
    if device.mjpeg {
        common + seq!["--format=MJPEG"@, "--encoder=NOOP"@]
    } else {
        common + seq!["--encoder=CPU"@]
    }
}

/// Build the `ustreamer` command with low-latency MJPEG settings.
pub fn build_command(
    config: &config::Config,
    device: &camera::CameraDevice,
    port: u16,
) -> (r: command::CommandLine)
    ensures
        r@.program == config@.ustreamer_path,
        r@.args == stream_args(config@, device@, port),
{
    let mut args: Vec<String> = Vec::new();
    let mut a = "--device=".to_string();
    a.append(device.path.as_str());
    args.push(a);
    args.push("--host=0.0.0.0".to_string());
    let mut a = "--port=".to_string();
    numeral::push_decimal(&mut a, port as u64);
    args.push(a);
    let mut a = "--resolution=".to_string();
    a.append(config.resolution.as_str());
    args.push(a);
    let mut a = "--desired-fps=".to_string();
    numeral::push_decimal(&mut a, config.fps as u64);
    args.push(a);
    args.push("--drop-same-frames=30".to_string());
    if device.mjpeg {
        args.push("--format=MJPEG".to_string());
        args.push("--encoder=NOOP".to_string());
    } else {
        args.push("--encoder=CPU".to_string());
    }
    assert(text::texts(args@) =~= stream_args(config@, device@, port));
    command::CommandLine { program: config.ustreamer_path.clone(), args }
}

// ---------------------------------------------------------------------------
// Supervision
// ---------------------------------------------------------------------------

/// What a supervisor waits for.
#[derive(Debug, Clone, Copy, PartialEq, Eq, Structural)]
pub enum Phase {
    /// To begin.
    Start,
    /// For the process to be started.
    Spawning,
    /// For the process to end, or the camera to go.
    Running,
    /// For the process to be gone, after the camera went.
    Stopping,
    /// For a pause to pass, or the camera to go.
    Backoff,
    /// For nothing more.
    Done,
}

/// What happened. `cancelled` says whether the camera is known to be gone.
#[derive(Debug, Clone, Copy, PartialEq, Eq, Structural)]
pub enum StreamEvent {
    Begin { cancelled: bool },
    Spawned { pid: Option<u32> },
    SpawnFailed,
    Exited { cancelled: bool },
    Killed,
    Elapsed { cancelled: bool },
    /// The camera went.
    Cancelled,
}

/// What to do next.
#[derive(Debug, Clone, Copy, PartialEq, Eq, Structural)]
pub enum StreamAction {
    /// Start the process.
    Spawn,
    /// Wait for the process to end or the camera to go.
    Wait,
    /// Kill the process and wait until it is gone.
    Kill,
    /// Wait so many seconds, or until the camera goes.
    Sleep { secs: u64 },
    /// Supervision is over.
    Finish,
}

impl Phase {
    /// Is this one of the events that the phase waits for?
    pub open spec fn expects(self, event: StreamEvent) -> bool {
        match self {
            Phase::Start => event is Begin,
            Phase::Spawning => event is Spawned || event is SpawnFailed,
            Phase::Running => event is Exited || event is Cancelled,
            Phase::Stopping => event is Killed,
            Phase::Backoff => event is Elapsed || event is Cancelled,
            Phase::Done => false,
        }
    }

    /// Does a process run in this phase?
    pub open spec fn has_process(self) -> bool {
        self is Running || self is Stopping
    }
}

/// The recorded liveness is that of the phase.
pub open spec fn truthful(phase: Phase, runtime: camera::StreamRuntime) -> bool {
    &&& runtime.running == phase.has_process()
    &&& !runtime.running ==> runtime.pid is None
}

/// The phase after an event, and what to do in it.
pub open spec fn next_step(phase: Phase, event: StreamEvent) -> (Phase, StreamAction) {
    match event {
        StreamEvent::Begin { cancelled } | StreamEvent::Elapsed { cancelled } => if cancelled {
            (Phase::Done, StreamAction::Finish)
        } else {
            (Phase::Spawning, StreamAction::Spawn)
        },
        StreamEvent::Spawned { .. } => (Phase::Running, StreamAction::Wait),
        StreamEvent::SpawnFailed => (
            Phase::Backoff,
            StreamAction::Sleep { secs: SPAWN_BACKOFF },
        ),
        StreamEvent::Exited { cancelled } => if cancelled {
            (Phase::Done, StreamAction::Finish)
        } else {
            (Phase::Backoff, StreamAction::Sleep { secs: RESTART_BACKOFF })
        },
        StreamEvent::Killed => (Phase::Done, StreamAction::Finish),
        StreamEvent::Cancelled => if phase is Running {
            (Phase::Stopping, StreamAction::Kill)
        } else {
            (Phase::Done, StreamAction::Finish)
        },
    }
}

/// The liveness to record after an event.
pub open spec fn next_runtime(
    runtime: camera::StreamRuntime,
    event: StreamEvent,
) -> camera::StreamRuntime {
    match event {
        StreamEvent::Spawned { pid } => camera::StreamRuntime { running: true, pid, ..runtime },
        StreamEvent::SpawnFailed | StreamEvent::Killed => camera::StreamRuntime {
            running: false,
            pid: None,
            ..runtime
        },
        StreamEvent::Exited { .. } => camera::StreamRuntime {
            running: false,
            pid: None,
            restarts: (runtime.restarts + 1) as u32,
        },
        _ => runtime,
    }
}

/// Record whether the process runs, and its id.
pub fn set_running(runtime: &mut camera::StreamRuntime, running: bool, pid: Option<u32>)
    ensures
        *final(runtime) == (camera::StreamRuntime { running, pid, ..*old(runtime) }),
{
    runtime.running = running;
    runtime.pid = pid;
}

/// Record that the process ended by itself.
pub fn mark_exited(runtime: &mut camera::StreamRuntime)
    requires
        old(runtime).restarts < u32::MAX,
    ensures
        *final(runtime) == (camera::StreamRuntime {
            running: false,
            pid: None,
            restarts: (old(runtime).restarts + 1) as u32,
        }),
{
    runtime.running = false;
    runtime.pid = None;
    runtime.restarts = runtime.restarts + 1;
}

/// One step of supervision: record what happened, and say what to do next.
pub fn supervise(phase: Phase, event: StreamEvent, runtime: &mut camera::StreamRuntime) -> (r: (
    Phase,
    StreamAction,
))
    requires
        phase.expects(event),
        truthful(phase, *old(runtime)),
        event is Exited ==> old(runtime).restarts < u32::MAX,
    ensures
        r == next_step(phase, event),
        *final(runtime) == next_runtime(*old(runtime), event),
        truthful(r.0, *final(runtime)),
{
    match event {
        StreamEvent::Begin { cancelled } | StreamEvent::Elapsed { cancelled } => {
            if cancelled {
                (Phase::Done, StreamAction::Finish)
            } else {
                (Phase::Spawning, StreamAction::Spawn)
            }
        },
        StreamEvent::Spawned { pid } => {
            set_running(runtime, true, pid);
            (Phase::Running, StreamAction::Wait)
        },
        StreamEvent::SpawnFailed => {
            set_running(runtime, false, None);
            (Phase::Backoff, StreamAction::Sleep { secs: SPAWN_BACKOFF })
        },
        StreamEvent::Exited { cancelled } => {
            mark_exited(runtime);
            if cancelled {
                (Phase::Done, StreamAction::Finish)
            } else {
                (Phase::Backoff, StreamAction::Sleep { secs: RESTART_BACKOFF })
            }
        },
        StreamEvent::Killed => {
            set_running(runtime, false, None);
            (Phase::Done, StreamAction::Finish)
        },
        StreamEvent::Cancelled => {
            if phase == Phase::Running {
                (Phase::Stopping, StreamAction::Kill)
            } else {
                (Phase::Done, StreamAction::Finish)
            }
        },
    }
}

// ---------------------------------------------------------------------------
// Laws
// ---------------------------------------------------------------------------

/// Does the event tell that the camera is gone?
pub open spec fn tells_of_removal(event: StreamEvent) -> bool {
    match event {
        StreamEvent::Begin { cancelled } => cancelled,
        StreamEvent::Exited { cancelled } => cancelled,
        StreamEvent::Elapsed { cancelled } => cancelled,
        StreamEvent::Cancelled => true,
        _ => false,
    }
}

/// The phase after a sequence of events.
pub open spec fn phase_after(phase: Phase, events: Seq<StreamEvent>) -> Phase
    decreases events.len(),
{
    if events.len() == 0 {
        phase
    } else {
        next_step(phase_after(phase, events.drop_last()), events.last()).0
    }
}

/// The recorded liveness after a sequence of events.
pub open spec fn runtime_after(
    runtime: camera::StreamRuntime,
    events: Seq<StreamEvent>,
) -> camera::StreamRuntime
    decreases events.len(),
{
    if events.len() == 0 {
        runtime
    } else {
        next_runtime(runtime_after(runtime, events.drop_last()), events.last())
    }
}

/// Can the events happen one after the other?
pub open spec fn possible(phase: Phase, events: Seq<StreamEvent>) -> bool
    decreases events.len(),
{
    events.len() == 0 || {
        &&& possible(phase, events.drop_last())
        &&& phase_after(phase, events.drop_last()).expects(events.last())
    }
}

/// Whatever happened before, a stream whose process ended by itself is started again
/// after a pause, unless the camera goes.
pub proof fn a_crashed_stream_is_restarted(events: Seq<StreamEvent>)
    requires
        possible(Phase::Start, events),
        phase_after(Phase::Start, events) is Running,
    ensures
        ({
            let crash = events.push(StreamEvent::Exited { cancelled: false });
            let pause = crash.push(StreamEvent::Elapsed { cancelled: false });
            &&& possible(Phase::Start, pause)
            &&& next_step(Phase::Running, crash.last()) == (
                Phase::Backoff,
                StreamAction::Sleep { secs: RESTART_BACKOFF },
            )
            &&& phase_after(Phase::Start, crash) is Backoff
            &&& next_step(Phase::Backoff, pause.last()) == (Phase::Spawning, StreamAction::Spawn)
            &&& phase_after(Phase::Start, pause) is Spawning
        }),
{
    let crash = events.push(StreamEvent::Exited { cancelled: false });
    let pause = crash.push(StreamEvent::Elapsed { cancelled: false });
    assert(crash.drop_last() =~= events);
    assert(pause.drop_last() =~= crash);
    assert(phase_after(Phase::Start, crash) is Backoff);
    assert(possible(Phase::Start, crash));
}

/// Supervision stops a process, or ends, only after it was told that the camera is
/// gone.
pub proof fn supervision_ends_only_on_removal(events: Seq<StreamEvent>)
    requires
        possible(Phase::Start, events),
        phase_after(Phase::Start, events) is Done || phase_after(Phase::Start, events) is Stopping,
    ensures
        exists|i: int| 0 <= i < events.len() && tells_of_removal(#[trigger] events[i]),
    decreases events.len(),
{
    let front = events.drop_last();
    if tells_of_removal(events.last()) {
        assert(tells_of_removal(events[events.len() - 1]));
    } else {
        supervision_ends_only_on_removal(front);
        let i = choose|i: int| 0 <= i < front.len() && tells_of_removal(#[trigger] front[i]);
        assert(events[i] == front[i]);
    }
}

/// Once the camera is known to be gone, the process is stopped if it runs, and
/// is never started again: whatever happens next, supervision ends.
pub proof fn a_removed_camera_is_not_restarted(phase: Phase, event: StreamEvent, next: StreamEvent)
    requires
        phase.expects(event),
        tells_of_removal(event),
    ensures
        next_step(phase, event).0 is Done || next_step(phase, event).0 is Stopping,
        next_step(phase, event).0 is Stopping ==> next_step(phase, event).1 is Kill,
        next_step(phase, event).0.expects(next) ==> next_step(
            next_step(phase, event).0,
            next,
        ) == (Phase::Done, StreamAction::Finish),
        !Phase::Done.expects(next),
{
}

/// At every moment the recorded liveness is that of the process.
pub proof fn liveness_is_truthful(events: Seq<StreamEvent>)
    requires
        possible(Phase::Start, events),
    ensures
        truthful(
            phase_after(Phase::Start, events),
            runtime_after(
                camera::StreamRuntime { running: false, pid: None, restarts: 0 },
                events,
            ),
        ),
    decreases events.len(),
{
    if events.len() > 0 {
        liveness_is_truthful(events.drop_last());
    }
}

/// How often the process ended by itself.
pub open spec fn exits(events: Seq<StreamEvent>) -> nat
    decreases events.len(),
{
    if events.len() == 0 {
        0
    } else {
        exits(events.drop_last()) + if events.last() is Exited {
            1nat
        } else {
            0nat
        }
    }
}

/// `restarts` counts how often the process ended by itself.
pub proof fn restarts_count_exits(runtime: camera::StreamRuntime, events: Seq<StreamEvent>)
    requires
        runtime.restarts + exits(events) <= u32::MAX,
    ensures
        runtime_after(runtime, events).restarts == runtime.restarts + exits(events),
    decreases events.len(),
{
    if events.len() > 0 {
        restarts_count_exits(runtime, events.drop_last());
    }
}

/// Is it the one argument that begins with `flag`, and does `value` follow there?
pub open spec fn only_setting(
    args: Seq<Seq<char>>,
    flag: Seq<char>,
    value: Seq<char>,
) -> bool {
    exists|i: int|
        #![trigger args[i]]
        0 <= i < args.len() && args[i] == flag + value && forall|j: int|
            0 <= j < args.len() && flag.is_prefix_of(#[trigger] args[j]) ==> j == i
}

proof fn lemma_only_setting(args: Seq<Seq<char>>, flag: Seq<char>, value: Seq<char>, i: int)
    requires
        0 <= i < args.len(),
        args[i] == flag + value,
        forall|j: int|
            0 <= j < args.len() && j != i ==> exists|k: int|
                0 <= k < flag.len() && (k >= args[j].len() || #[trigger] flag[k] != (
                #[trigger] args[j])[k]),
    ensures
        only_setting(args, flag, value),
{
    assert forall|j: int| 0 <= j < args.len() && flag.is_prefix_of(#[trigger] args[j]) implies j
        == i by {
        if j != i {
            let k = choose|k: int|
                0 <= k < flag.len() && (k >= args[j].len() || #[trigger] flag[k] != args[j][k]);
            assert(args[j].subrange(0, flag.len() as int) == flag);
            assert(args[j].subrange(0, flag.len() as int)[k] == args[j][k]);
        }
    }
}

/// The command has each setting once, and it is the configured one: the device and the
/// port of the camera, and the resolution and the frame rate of the configuration.
/// Frames are forwarded untouched exactly where the camera emits MJPEG.
#[verifier::spinoff_prover]
#[verifier::rlimit(50)]
pub proof fn the_command_has_the_configured_settings(
    config: config::ConfigView,
    device: camera::CameraDeviceView,
    port: u16,
)
    ensures
        ({
            let args = stream_args(config, device, port);
            &&& only_setting(args, "--device="@, device.path)
            &&& only_setting(args, "--port="@, numeral::decimal(port as nat))
            &&& only_setting(args, "--resolution="@, config.resolution)
            &&& only_setting(args, "--desired-fps="@, numeral::decimal(config.fps as nat))
            &&& args.contains("--host=0.0.0.0"@)
            &&& args.contains("--drop-same-frames=30"@)
            &&& args.contains("--encoder=NOOP"@) == device.mjpeg
            &&& args.contains("--format=MJPEG"@) == device.mjpeg
            &&& args.contains("--encoder=CPU"@) != device.mjpeg
        }),
{
    let args = stream_args(config, device, port);
    reveal_strlit("--device=");
    reveal_strlit("--host=0.0.0.0");
    reveal_strlit("--port=");
    reveal_strlit("--resolution=");
    reveal_strlit("--desired-fps=");
    reveal_strlit("--drop-same-frames=30");
    reveal_strlit("--format=MJPEG");
    reveal_strlit("--encoder=NOOP");
    reveal_strlit("--encoder=CPU");
    let tell = seq!['d', 'h', 'p', 'r', 'd', 'd', if device.mjpeg { 'f' } else { 'e' }, 'e'];
    assert forall|j: int| 0 <= j < args.len() implies args[j].len() >= 5 && #[trigger] args[j][2]
        == tell[j] by {}
    assert(args[0][4] == 'v' && args[4][4] == 's' && args[5][3] == 'r' && args[0][3] == 'e'
        && args[4][3] == 'e');
    assert("--device="@[2] == 'd' && "--device="@[3] == 'e' && "--device="@[4] == 'v');
    assert("--desired-fps="@[2] == 'd' && "--desired-fps="@[3] == 'e' && "--desired-fps="@[4]
        == 's');
    assert("--port="@[2] == 'p' && "--resolution="@[2] == 'r');
    lemma_only_setting(args, "--device="@, device.path, 0);
    lemma_only_setting(args, "--port="@, numeral::decimal(port as nat), 2);
    lemma_only_setting(args, "--resolution="@, config.resolution, 3);
    lemma_only_setting(args, "--desired-fps="@, numeral::decimal(config.fps as nat), 4);
    assert(args[1] == "--host=0.0.0.0"@ && args[5] == "--drop-same-frames=30"@);
    assert("--encoder=NOOP"@[2] == 'e' && "--encoder=NOOP"@.len() == 14);
    assert("--encoder=CPU"@[2] == 'e' && "--encoder=CPU"@.len() == 13);
    assert("--format=MJPEG"@[2] == 'f');
    if device.mjpeg {
        assert(args[6] == "--format=MJPEG"@ && args[7] == "--encoder=NOOP"@);
        assert forall|j: int| 0 <= j < args.len() implies #[trigger] args[j]
            != "--encoder=CPU"@ by {}
    } else {
        assert(args[6] == "--encoder=CPU"@);
        assert forall|j: int| 0 <= j < args.len() implies #[trigger] args[j] != "--encoder=NOOP"@
            && args[j] != "--format=MJPEG"@ by {}
    }
}

/// Commands with other settings are other commands: a difference in the resolution, the
/// frame rate, the device or the port shows.
#[verifier::spinoff_prover]
#[verifier::rlimit(50)]
pub proof fn other_settings_give_another_command(
    c1: config::ConfigView,
    c2: config::ConfigView,
    d1: camera::CameraDeviceView,
    d2: camera::CameraDeviceView,
    p1: u16,
    p2: u16,
)
    requires
        stream_args(c1, d1, p1) == stream_args(c2, d2, p2),
    ensures
        c1.resolution == c2.resolution,
        c1.fps == c2.fps,
        d1.path == d2.path,
        d1.mjpeg == d2.mjpeg,
        p1 == p2,
{
    let a = stream_args(c1, d1, p1);
    let b = stream_args(c2, d2, p2);
    let f0 = "--device="@;
    let f2 = "--port="@;
    let f3 = "--resolution="@;
    let f4 = "--desired-fps="@;
    assert(a[0] == b[0] && a[2] == b[2] && a[3] == b[3] && a[4] == b[4]);
    assert((f0 + d1.path).skip(f0.len() as int) =~= d1.path);
    assert((f0 + d2.path).skip(f0.len() as int) =~= d2.path);
    assert((f3 + c1.resolution).skip(f3.len() as int) =~= c1.resolution);
    assert((f3 + c2.resolution).skip(f3.len() as int) =~= c2.resolution);
    let n1 = numeral::decimal(p1 as nat);
    let n2 = numeral::decimal(p2 as nat);
    assert((f2 + n1).skip(f2.len() as int) =~= n1);
    assert((f2 + n2).skip(f2.len() as int) =~= n2);
    numeral::decimal_reads_back(p1 as nat);
    numeral::decimal_reads_back(p2 as nat);
    let m1 = numeral::decimal(c1.fps as nat);
    let m2 = numeral::decimal(c2.fps as nat);
    assert((f4 + m1).skip(f4.len() as int) =~= m1);
    assert((f4 + m2).skip(f4.len() as int) =~= m2);
    numeral::decimal_reads_back(c1.fps as nat);
    numeral::decimal_reads_back(c2.fps as nat);
    assert(a.len() == b.len());
}

/// What is recorded of a process: its id from its start to its end, and one restart
/// more each time that it ends by itself. Nothing else changes what is recorded.
pub proof fn the_record_follows_the_process(
    runtime: camera::StreamRuntime,
    pid: Option<u32>,
    event: StreamEvent,
)
    requires
        runtime.restarts < u32::MAX,
    ensures
        ({
            let started = next_runtime(runtime, StreamEvent::Spawned { pid });
            &&& started.running && started.pid == pid && started.restarts == runtime.restarts
        }),
        ({
            let after = next_runtime(runtime, event);
            &&& event is Exited ==> !after.running && after.pid is None && after.restarts
                == runtime.restarts + 1
            &&& event is Killed || event is SpawnFailed ==> !after.running && after.pid is None
                && after.restarts == runtime.restarts
            &&& event is Begin || event is Elapsed || event is Cancelled ==> after == runtime
        }),
{
}

/// What is done next: a camera that is there has its process started, at the beginning
/// and after each pause; one that could not be started is tried again after three
/// seconds, one that ended after two; and a running process whose camera goes is
/// killed.
pub proof fn what_supervision_does_next(phase: Phase, event: StreamEvent)
    requires
        phase.expects(event),
    ensures
        ({
            let (next, action) = next_step(phase, event);
            &&& action is Spawn <==> event == (StreamEvent::Begin { cancelled: false }) || event
                == (StreamEvent::Elapsed { cancelled: false })
            &&& action is Wait <==> event is Spawned
            &&& action == (StreamAction::Sleep { secs: 3 }) <==> event is SpawnFailed
            &&& action == (StreamAction::Sleep { secs: 2 }) <==> event == (StreamEvent::Exited {
                cancelled: false,
            })
            &&& action is Kill <==> event is Cancelled && phase is Running
            &&& action is Sleep ==> event is SpawnFailed || event is Exited
            &&& action is Spawn <==> next is Spawning
            &&& action is Wait <==> next is Running
            &&& action is Sleep <==> next is Backoff
            &&& action is Kill <==> next is Stopping
            &&& action is Finish <==> next is Done
        }),
{
}

/// What each phase waits for, and in which of them a process runs.
pub proof fn what_each_phase_waits_for(event: StreamEvent)
    ensures
        Phase::Start.expects(event) <==> event is Begin,
        Phase::Spawning.expects(event) <==> event is Spawned || event is SpawnFailed,
        Phase::Running.expects(event) <==> event is Exited || event is Cancelled,
        Phase::Stopping.expects(event) <==> event is Killed,
        Phase::Backoff.expects(event) <==> event is Elapsed || event is Cancelled,
        !Phase::Done.expects(event),
        Phase::Running.has_process() && Phase::Stopping.has_process(),
        !Phase::Start.has_process() && !Phase::Spawning.has_process()
            && !Phase::Backoff.has_process() && !Phase::Done.has_process(),
{
}

} // verus!
