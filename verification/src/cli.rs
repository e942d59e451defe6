//! The command line, and the factory reset.

use vstd::prelude::*;
use vstd::string::*;

use crate::client;
use crate::steps;
use crate::text;

verus! {

/// Where per-camera choices (enabled / resolution / fps) are persisted.
pub const STATE_PATH: &'static str = "/var/lib/camera-box/state.toml";

/// Where the web-UI credentials are stored.
pub const AUTH_PATH: &'static str = "/var/lib/camera-box/auth.toml";

/// Where the hotspot (AP) SSID/password/IP are persisted.
pub const AP_PATH: &'static str = "/var/lib/camera-box/network.toml";

/// What the program was called to do.
#[derive(Debug)]
pub enum Invocation {
    /// Print the version (the self-updater also confirms by it that a fresh
    /// download runs on this CPU).
    Version,
    /// Reset the login.
    ResetPassword { user: String, pass: String },
    /// Wipe all saved state and reboot.
    FactoryReset,
    /// Run the daemon.
    Serve,
}

/// The values of an [`Invocation`].
#[verifier::ext_equal]
pub enum InvocationView {
    Version,
    ResetPassword { user: Seq<char>, pass: Seq<char> },
    FactoryReset,
    Serve,
}

impl View for Invocation {
    type V = InvocationView;

    open spec fn view(&self) -> InvocationView {
        match self {
            Invocation::Version => InvocationView::Version,
            Invocation::ResetPassword { user, pass } => InvocationView::ResetPassword {
                user: user@,
                pass: pass@,
            },
            Invocation::FactoryReset => InvocationView::FactoryReset,
            Invocation::Serve => InvocationView::Serve,
        }
    }
}

/// The argument at `index`; `default` where there is none.
pub open spec fn arg_or(args: Seq<Seq<char>>, index: int, default: Seq<char>) -> Seq<char> {
    if index < args.len() {
        args[index]
    } else {
        default
    }
}

/// What the arguments ask for; the first of them is the program.
pub open spec fn asked(args: Seq<Seq<char>>) -> InvocationView {
    if args.len() < 2 {
        InvocationView::Serve
    } else if args[1] == "version"@ || args[1] == "--version"@ || args[1] == "-V"@ {
        InvocationView::Version
    } else if args[1] == "reset-password"@ {
        InvocationView::ResetPassword {
            user: arg_or(args, 2, "admin"@),
            pass: arg_or(args, 3, "password"@),
        }
    } else if args[1] == "factory-reset"@ {
        InvocationView::FactoryReset
    } else {
        InvocationView::Serve
    }
}

fn arg(args: &Vec<String>, index: usize, default: &str) -> (r: String)
    ensures
        r@ == arg_or(text::texts(args@), index as int, default@),
{
    if index < args.len() {
        args[index].clone()
    } else {
        default.to_string()
    }
}

/// What the program was called to do. The first argument is the program.
pub fn invocation(args: &Vec<String>) -> (r: Invocation)
    ensures
        r@ == asked(text::texts(args@)),
{
    if args.len() < 2 {
        return Invocation::Serve;
    }
    let verb = args[1].as_str();
    assert(text::texts(args@)[1] == verb@);
    if text::same(verb, "version") || text::same(verb, "--version") || text::same(verb, "-V") {
        Invocation::Version
    } else if text::same(verb, "reset-password") {
        Invocation::ResetPassword { user: arg(args, 2, "admin"), pass: arg(args, 3, "password") }
    } else if text::same(verb, "factory-reset") {
        Invocation::FactoryReset
    } else {
        Invocation::Serve
    }
}

/// The removal of those of the names that can be profiles.
pub open spec fn profile_removals(profiles: Seq<Seq<char>>) -> Seq<steps::StepView>
    decreases profiles.len(),
{
    if profiles.len() == 0 {
        Seq::empty()
    } else {
        let rest = profile_removals(profiles.drop_last());
        if client::valid_profile(profiles.last()) {
            rest.push(steps::StepView::Remove {
                path: client::profile_file(profiles.last()),
                required: true,
            })
        } else {
            rest
        }
    }
}

/// The removal of the saved settings.
pub open spec fn settings_removals() -> Seq<steps::StepView> {
    seq![
        steps::StepView::Remove { path: STATE_PATH@, required: true },
        steps::StepView::Remove { path: AUTH_PATH@, required: true },
        steps::StepView::Remove { path: AP_PATH@, required: true },
    ]
}

/// Wipe all saved state: the per-camera choices, the login, the hotspot's settings
/// and the saved profiles. What cannot be wiped is an error.
pub fn factory_reset(profiles: &Vec<String>) -> (r: Vec<steps::Step>)
    ensures
        steps::step_views(r@) == settings_removals() + profile_removals(text::texts(profiles@)),
{
    let mut out: Vec<steps::Step> = Vec::new();
    steps::push(&mut out, steps::Step::Remove { path: STATE_PATH.to_string(), required: true });
    steps::push(&mut out, steps::Step::Remove { path: AUTH_PATH.to_string(), required: true });
    steps::push(&mut out, steps::Step::Remove { path: AP_PATH.to_string(), required: true });
    let ghost names = text::texts(profiles@);
    assert(steps::step_views(out@) =~= settings_removals() + profile_removals(names.take(0)));
    let mut i: usize = 0;
    while i < profiles.len()
        invariant
            i <= profiles@.len(),
            names == text::texts(profiles@),
            steps::step_views(out@) == settings_removals() + profile_removals(
                names.take(i as int),
            ),
        decreases profiles.len() - i,
    {
        assert(names.take(i + 1).drop_last() =~= names.take(i as int));
        assert(names.take(i + 1).last() == profiles@[i as int]@);
        if let Ok(path) = client::profile_path(profiles[i].as_str()) {
            let ghost before = profile_removals(names.take(i as int));
            let step = steps::Step::Remove { path, required: true };
            steps::push(&mut out, step);
            assert((settings_removals() + before).push(step@) =~= settings_removals()
                + before.push(step@));
        }
        i += 1;
    }
    assert(names.take(i as int) =~= names);
    out
}

/// What the first argument asks for, whatever follows it: the version under each of its
/// names, a new login with the given or else the first-run user and password, or the
/// factory reset. Anything else, or nothing, runs the daemon.
pub proof fn the_first_argument_decides(args: Seq<Seq<char>>)
    ensures
        asked(args) is Version <==> args.len() >= 2 && (args[1] == "version"@ || args[1]
            == "--version"@ || args[1] == "-V"@),
        asked(args) is ResetPassword <==> args.len() >= 2 && args[1] == "reset-password"@,
        asked(args) is FactoryReset <==> args.len() >= 2 && args[1] == "factory-reset"@,
        asked(args) matches InvocationView::ResetPassword { user, pass } ==> {
            &&& user == if args.len() >= 3 {
                args[2]
            } else {
                "admin"@
            }
            &&& pass == if args.len() >= 4 {
                args[3]
            } else {
                "password"@
            }
        },
{
    reveal_strlit("version");
    reveal_strlit("--version");
    reveal_strlit("-V");
    reveal_strlit("reset-password");
    reveal_strlit("factory-reset");
    assert("version"@.len() == 7 && "--version"@.len() == 9 && "-V"@.len() == 2
        && "reset-password"@.len() == 14 && "factory-reset"@.len() == 13);
}

/// Is it the file of one of the profiles?
pub open spec fn is_profile_file(profiles: Seq<Seq<char>>, path: Seq<char>) -> bool {
    exists|k: int|
        0 <= k < profiles.len() && path == "/etc/camera-box/wifi/"@ + (#[trigger] profiles[k])
            + ".conf"@
}

/// A factory reset removes the per-camera choices, the login and the hotspot's settings,
/// and the file of every saved profile; each removal has to succeed, and nothing else is
/// done.
pub proof fn a_factory_reset_removes_all_saved_state(profiles: Seq<Seq<char>>, name: Seq<char>)
    ensures
        ({
            let list = settings_removals() + profile_removals(profiles);
            let removal = |p: Seq<char>| steps::StepView::Remove { path: p, required: true };
            &&& list.contains(removal("/var/lib/camera-box/state.toml"@))
            &&& list.contains(removal("/var/lib/camera-box/auth.toml"@))
            &&& list.contains(removal("/var/lib/camera-box/network.toml"@))
            &&& profiles.contains(name) && client::valid_profile(name) ==> list.contains(
                removal("/etc/camera-box/wifi/"@ + name + ".conf"@),
            )
            &&& forall|i: int|
                0 <= i < list.len() ==> (#[trigger] list[i] matches steps::StepView::Remove {
                    path,
                    required,
                } && required && (path == "/var/lib/camera-box/state.toml"@ || path
                    == "/var/lib/camera-box/auth.toml"@ || path
                    == "/var/lib/camera-box/network.toml"@ || is_profile_file(profiles, path)))
        }),
{
    let s = settings_removals();
    let list = s + profile_removals(profiles);
    assert(list[0] == s[0] && list[1] == s[1] && list[2] == s[2]);
    lemma_profile_removals(profiles, name);
    let r = profile_removals(profiles);
    if profiles.contains(name) && client::valid_profile(name) {
        let k = choose|k: int|
            0 <= k < r.len() && r[k] == (steps::StepView::Remove {
                path: client::profile_file(name),
                required: true,
            });
        assert(list[3 + k] == r[k]);
    }
    assert forall|i: int| 0 <= i < list.len() implies (
    #[trigger] list[i] matches steps::StepView::Remove { path, required } && required && (path
        == "/var/lib/camera-box/state.toml"@ || path == "/var/lib/camera-box/auth.toml"@ || path
        == "/var/lib/camera-box/network.toml"@ || is_profile_file(profiles, path))) by {
        if i >= 3 {
            assert(list[i] == r[i - 3]);
        }
    }
}

proof fn lemma_profile_removals(profiles: Seq<Seq<char>>, name: Seq<char>)
    ensures
        ({
            let r = profile_removals(profiles);
            &&& profiles.contains(name) && client::valid_profile(name) ==> r.contains(
                steps::StepView::Remove { path: client::profile_file(name), required: true },
            )
            &&& forall|i: int|
                0 <= i < r.len() ==> (#[trigger] r[i] matches steps::StepView::Remove {
                    path,
                    required,
                } && required && is_profile_file(profiles, path))
        }),
    decreases profiles.len(),
{
    if profiles.len() > 0 {
        let front = profiles.drop_last();
        lemma_profile_removals(front, name);
        let r = profile_removals(profiles);
        let f = profile_removals(front);
        assert forall|i: int| 0 <= i < f.len() implies r[i] == #[trigger] f[i] by {}
        assert forall|i: int| 0 <= i < r.len() implies (
        #[trigger] r[i] matches steps::StepView::Remove { path, required } && required
            && is_profile_file(profiles, path)) by {
            if i < f.len() {
                assert(r[i] == f[i]);
                let path = f[i]->Remove_path;
                assert(is_profile_file(front, path));
                let k = choose|k: int|
                    0 <= k < front.len() && path == "/etc/camera-box/wifi/"@ + (
                    #[trigger] front[k]) + ".conf"@;
                assert(profiles[k] == front[k]);
            } else {
                assert(profiles[profiles.len() - 1] == profiles.last());
            }
        }
        if profiles.contains(name) && client::valid_profile(name) {
            let step = steps::StepView::Remove {
                path: client::profile_file(name),
                required: true,
            };
            let k = choose|k: int| 0 <= k < profiles.len() && profiles[k] == name;
            if k < front.len() {
                assert(front[k] == name);
                let j = choose|j: int| 0 <= j < f.len() && f[j] == step;
                assert(r[j] == step);
            } else {
                assert(r[r.len() - 1] == step);
            }
        }
    }
}

} // verus!
