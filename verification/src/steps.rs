//! Steps: what is to be done to the system, in order.
//!
//! A change of the network is a list of steps. They are carried out one after
//! the other; a step that has to succeed and fails ends the list with its
//! error, any other failure is passed over.

use vstd::prelude::*;
use vstd::string::*;

use crate::command;
use crate::text;

verus! {

#[derive(Debug, Clone)]
pub enum Step {
    /// Run a command.
    Run { command: command::CommandLine, required: bool },
    /// Wait so many seconds.
    Sleep { secs: u64 },
    /// Write a file; a private one is readable by its owner only.
    Write { path: String, body: String, private: bool, required: bool },
    /// Make a directory that only its owner can enter.
    PrivateDir { path: String },
    /// Stop the client session on an interface: see `stop_client`.
    StopClient { iface: String },
    /// Ask a process to terminate.
    Terminate { pid: i32 },
    /// Remove a file; one that is not there needs no removing.
    Remove { path: String, required: bool },
    /// Point the hosts file at a host name: see `update_etc_hosts`.
    UpdateHosts { name: String },
    /// End with this error.
    Fail { error: String },
}

/// The values of a [`Step`].
#[verifier::ext_equal]
pub enum StepView {
    Run { command: command::CommandView, required: bool },
    Sleep { secs: u64 },
    Write { path: Seq<char>, body: Seq<char>, private: bool, required: bool },
    PrivateDir { path: Seq<char> },
    StopClient { iface: Seq<char> },
    Terminate { pid: i32 },
    Remove { path: Seq<char>, required: bool },
    UpdateHosts { name: Seq<char> },
    Fail { error: Seq<char> },
}

impl View for Step {
    type V = StepView;

    open spec fn view(&self) -> StepView {
        match self {
            Step::Run { command, required } => StepView::Run {
                command: command@,
                required: *required,
            },
            Step::Sleep { secs } => StepView::Sleep { secs: *secs },
            Step::Write { path, body, private, required } => StepView::Write {
                path: path@,
                body: body@,
                private: *private,
                required: *required,
            },
            Step::PrivateDir { path } => StepView::PrivateDir { path: path@ },
            Step::StopClient { iface } => StepView::StopClient { iface: iface@ },
            Step::Terminate { pid } => StepView::Terminate { pid: *pid },
            Step::Remove { path, required } => StepView::Remove {
                path: path@,
                required: *required,
            },
            Step::UpdateHosts { name } => StepView::UpdateHosts { name: name@ },
            Step::Fail { error } => StepView::Fail { error: error@ },
        }
    }
}

/// The values of a list of steps.
pub open spec fn step_views(v: Seq<Step>) -> Seq<StepView> {
    Seq::new(v.len(), |i: int| v[i]@)
}

/// Run a command that has to succeed.
pub open spec fn must(program: Seq<char>, args: Seq<Seq<char>>) -> StepView {
    StepView::Run { command: command::CommandView { program, args }, required: true }
}

/// Run a command whose failure is passed over.
pub open spec fn may(program: Seq<char>, args: Seq<Seq<char>>) -> StepView {
    StepView::Run { command: command::CommandView { program, args }, required: false }
}

/// Append a command that has to succeed.
pub fn push_must(steps: &mut Vec<Step>, program: &str, args: Vec<&str>)
    ensures
        step_views(final(steps)@) == step_views(old(steps)@).push(
            must(program@, command::str_texts(args@)),
        ),
{
    let step = Step::Run { command: command::command(program, args), required: true };
    push(steps, step);
}

/// Append a command whose failure is passed over.
pub fn push_may(steps: &mut Vec<Step>, program: &str, args: Vec<&str>)
    ensures
        step_views(final(steps)@) == step_views(old(steps)@).push(
            may(program@, command::str_texts(args@)),
        ),
{
    let step = Step::Run { command: command::command(program, args), required: false };
    push(steps, step);
}

/// Append a step.
pub fn push(steps: &mut Vec<Step>, step: Step)
    ensures
        step_views(final(steps)@) == step_views(old(steps)@).push(step@),
{
    let ghost before = step_views(steps@);
    steps.push(step);
    assert(step_views(steps@) =~= before.push(step@));
}

/// Append the steps of another list.
pub fn push_all(steps: &mut Vec<Step>, more: Vec<Step>)
    ensures
        step_views(final(steps)@) == step_views(old(steps)@) + step_views(more@),
{
    let ghost before = step_views(steps@);
    let mut more = more;
    let ghost added = step_views(more@);
    steps.append(&mut more);
    assert(step_views(steps@) =~= before + added);
}

/// Does a failure of the step end the list?
pub open spec fn is_required(s: StepView) -> bool {
    match s {
        StepView::Run { required, .. } => required,
        StepView::Write { required, .. } => required,
        StepView::Remove { required, .. } => required,
        StepView::PrivateDir { .. } => true,
        StepView::UpdateHosts { .. } => true,
        StepView::Fail { .. } => true,
        _ => false,
    }
}

/// What a step that gave `result` means for the list: to go on, or to end with
/// an error.
pub fn proceed(step: &Step, result: Result<(), String>) -> (r: Result<(), String>)
    ensures
        match result {
            Ok(_) => r is Ok,
            Err(e) => if is_required(step@) {
                r matches Err(m) && m@ == e@
            } else {
                r is Ok
            },
        },
{
    let required: bool = match step {
        Step::Run { required, .. } => *required,
        Step::Write { required, .. } => *required,
        Step::Remove { required, .. } => *required,
        Step::PrivateDir { .. } => true,
        Step::UpdateHosts { .. } => true,
        Step::Fail { .. } => true,
        _ => false,
    };
    match result {
        Ok(_) => Ok(()),
        Err(e) => if required {
            Err(e)
        } else {
            Ok(())
        },
    }
}

// ---------------------------------------------------------------------------
// Carrying out a list
// ---------------------------------------------------------------------------

/// Does a step with this error, if it has one, end its list?
pub open spec fn ends(step: StepView, fault: Option<Seq<char>>) -> bool {
    fault is Some && is_required(step)
}

/// How many steps of a list are carried out, and with which error it ends, if it
/// does; `faults` are the errors of its steps.
pub open spec fn carried_out(list: Seq<StepView>, faults: Seq<Option<Seq<char>>>) -> (
    nat,
    Option<Seq<char>>,
)
    decreases list.len(),
{
    if list.len() == 0 {
        (0, None)
    } else if ends(list[0], faults[0]) {
        (1, faults[0])
    } else {
        let (n, error) = carried_out(list.drop_first(), faults.drop_first());
        (n + 1, error)
    }
}

/// A list of steps that is being carried out: those that are left, and the error
/// that ended it.
#[derive(Debug)]
pub struct Course {
    rest: Vec<Step>,
    error: Option<String>,
}

/// The values of a [`Course`].
#[verifier::ext_equal]
pub struct CourseView {
    pub rest: Seq<StepView>,
    pub error: Option<Seq<char>>,
}

impl View for Course {
    type V = CourseView;

    closed spec fn view(&self) -> CourseView {
        CourseView { rest: step_views(self.rest@), error: text::opt_text(self.error) }
    }
}

/// The course of a list that has not begun.
pub open spec fn course_of(list: Seq<StepView>) -> CourseView {
    CourseView { rest: list, error: None }
}

impl CourseView {
    /// The step to carry out next; none where the list is through or has ended.
    pub open spec fn next(self) -> Option<StepView> {
        if self.error is None && self.rest.len() > 0 {
            Some(self.rest[0])
        } else {
            None
        }
    }

    /// The course after its next step gave this error, if it gave one.
    pub open spec fn reported(self, fault: Option<Seq<char>>) -> CourseView {
        CourseView {
            rest: self.rest.drop_first(),
            error: if ends(self.rest[0], fault) {
                fault
            } else {
                None
            },
        }
    }
}

impl Course {
    /// Begin to carry out a list.
    pub fn begin(list: Vec<Step>) -> (r: Course)
        ensures
            r@ == course_of(step_views(list@)),
    {
        Course { rest: list, error: None }
    }

    /// The step to carry out next; none where the list is through or has ended.
    pub fn next(&self) -> (r: Option<&Step>)
        ensures
            match r {
                Some(step) => self@.next() == Some(step@),
                None => self@.next() is None,
            },
    {
        if self.error.is_none() && self.rest.len() > 0 {
            Some(&self.rest[0])
        } else {
            None
        }
    }

    /// Take note of what came of the next step.
    pub fn report(&mut self, result: Result<(), String>)
        requires
            old(self)@.next() is Some,
        ensures
            final(self)@ == old(self)@.reported(text::fault_of(result)),
    {
        let ghost before = step_views(self.rest@);
        let step = self.rest.remove(0);
        assert(step_views(self.rest@) =~= before.drop_first());
        assert(step@ == before[0]);
        match proceed(&step, result) {
            Ok(_) => {},
            Err(e) => {
                self.error = Some(e);
            },
        }
    }

    /// How the list ended.
    pub fn outcome(self) -> (r: Result<(), String>)
        ensures
            text::fault_of(r) == self@.error,
    {
        match self.error {
            Some(e) => Err(e),
            None => Ok(()),
        }
    }
}

// ---------------------------------------------------------------------------
// Laws
// ---------------------------------------------------------------------------

/// The first failure of a step that has to succeed ends the list with its error,
/// and nothing after it is carried out. Without such a failure the whole list is
/// carried out, and it ends well.
pub proof fn the_first_required_failure_ends_a_list(
    list: Seq<StepView>,
    faults: Seq<Option<Seq<char>>>,
)
    requires
        faults.len() == list.len(),
    ensures
        ({
            let (n, error) = carried_out(list, faults);
            match error {
                None => {
                    &&& n == list.len()
                    &&& forall|i: int| 0 <= i < n ==> !ends(#[trigger] list[i], faults[i])
                },
                Some(e) => {
                    &&& 0 < n <= list.len()
                    &&& ends(list[n - 1], faults[n - 1])
                    &&& faults[n - 1] == Some(e)
                    &&& forall|i: int| 0 <= i < n - 1 ==> !ends(#[trigger] list[i], faults[i])
                },
            }
        }),
    decreases list.len(),
{
    if list.len() > 0 && !ends(list[0], faults[0]) {
        let rest = list.drop_first();
        let later = faults.drop_first();
        the_first_required_failure_ends_a_list(rest, later);
        let (n, error) = carried_out(list, faults);
        let clean = if error is None {
            n as int
        } else {
            n - 1
        };
        assert forall|i: int| 0 <= i < clean implies !ends(#[trigger] list[i], faults[i]) by {
            if i > 0 {
                assert(!ends(rest[i - 1], later[i - 1]));
            }
        }
    }
}

/// The course of a list after these reports.
pub open spec fn after_reports(list: Seq<StepView>, faults: Seq<Option<Seq<char>>>) -> CourseView
    decreases faults.len(),
{
    if faults.len() == 0 {
        course_of(list)
    } else {
        after_reports(list, faults.drop_last()).reported(faults.last())
    }
}

proof fn lemma_clean_reports(list: Seq<StepView>, faults: Seq<Option<Seq<char>>>, k: int)
    requires
        faults.len() == list.len(),
        0 <= k <= list.len(),
        forall|i: int| 0 <= i < k ==> !ends(#[trigger] list[i], faults[i]),
    ensures
        after_reports(list, faults.take(k)) == course_of(list.skip(k)),
    decreases k,
{
    if k == 0 {
        assert(list.skip(0) =~= list);
    } else {
        lemma_clean_reports(list, faults, k - 1);
        assert(faults.take(k).drop_last() =~= faults.take(k - 1));
        assert(list.skip(k - 1)[0] == list[k - 1]);
        assert(list.skip(k - 1).drop_first() =~= list.skip(k));
    }
}

/// A course hands out the steps that are to be carried out, in their order, then no
/// more; and it ends as its list does.
pub proof fn a_course_carries_out_its_list(list: Seq<StepView>, faults: Seq<Option<Seq<char>>>)
    requires
        faults.len() == list.len(),
    ensures
        ({
            let (n, error) = carried_out(list, faults);
            &&& forall|k: int|
                0 <= k < n ==> (#[trigger] after_reports(list, faults.take(k))).next() == Some(
                    list[k],
                )
            &&& after_reports(list, faults.take(n as int)).next() is None
            &&& after_reports(list, faults.take(n as int)).error == error
        }),
{
    the_first_required_failure_ends_a_list(list, faults);
    let (n, error) = carried_out(list, faults);
    assert forall|k: int| 0 <= k < n implies (#[trigger] after_reports(
        list,
        faults.take(k),
    )).next() == Some(list[k]) by {
        lemma_clean_reports(list, faults, k);
    }
    match error {
        None => {
            lemma_clean_reports(list, faults, n as int);
        },
        Some(_) => {
            lemma_clean_reports(list, faults, n - 1);
            assert(faults.take(n as int).drop_last() =~= faults.take(n - 1));
        },
    }
}

/// Does the step run this command?
pub open spec fn runs(s: StepView, program: Seq<char>, args: Seq<Seq<char>>) -> bool {
    s matches StepView::Run { command, .. } && command.program == program && command.args == args
}

/// Does the step write this text to this file?
pub open spec fn writes(s: StepView, file: Seq<char>, text: Seq<char>, for_owner: bool) -> bool {
    s matches StepView::Write { path, body, private, .. } && path == file && body == text
        && private == for_owner
}

/// Does the step write to this file, whatever it writes?
pub open spec fn writes_to(s: StepView, file: Seq<char>) -> bool {
    s matches StepView::Write { path, .. } && path == file
}

/// Which steps have to succeed: those that say so, making a directory, pointing the
/// hosts file at a name, and the step that fails.
pub proof fn which_steps_have_to_succeed(s: StepView, program: Seq<char>, args: Seq<Seq<char>>)
    ensures
        s matches StepView::Run { required, .. } ==> is_required(s) == required,
        s matches StepView::Write { required, .. } ==> is_required(s) == required,
        s matches StepView::Remove { required, .. } ==> is_required(s) == required,
        s is PrivateDir || s is UpdateHosts || s is Fail ==> is_required(s),
        s is Sleep || s is StopClient || s is Terminate ==> !is_required(s),
        runs(must(program, args), program, args) && is_required(must(program, args)),
        runs(may(program, args), program, args) && !is_required(may(program, args)),
{
}

} // verus!
