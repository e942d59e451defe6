//! Command lines, and what comes of running one.

use vstd::prelude::*;
use vstd::string::*;

use crate::text;

verus! {

/// A program and its arguments.
#[derive(Debug, Clone)]
pub struct CommandLine {
    pub program: String,
    pub args: Vec<String>,
}

/// The texts of a [`CommandLine`].
#[verifier::ext_equal]
pub struct CommandView {
    pub program: Seq<char>,
    pub args: Seq<Seq<char>>,
}

impl View for CommandLine {
    type V = CommandView;

    open spec fn view(&self) -> CommandView {
        CommandView { program: self.program@, args: text::texts(self.args@) }
    }
}

/// The texts of a list of string slices.
pub open spec fn str_texts(v: Seq<&str>) -> Seq<Seq<char>> {
    Seq::new(v.len(), |i: int| v[i]@)
}

/// The command line of `program` with `args`.
pub fn command(program: &str, args: Vec<&str>) -> (r: CommandLine)
    ensures
        r@.program == program@,
        r@.args == str_texts(args@),
{
    let mut list: Vec<String> = Vec::new();
    let mut i: usize = 0;
    while i < args.len()
        invariant
            i <= args@.len(),
            list@.len() == i,
            forall|k: int| 0 <= k < i ==> (#[trigger] list@[k])@ == args@[k]@,
        decreases args.len() - i,
    {
        list.push(args[i].to_string());
        i += 1;
    }
    assert(text::texts(list@) =~= str_texts(args@));
    CommandLine { program: program.to_string(), args: list }
}

/// What came of running a command.
#[derive(Debug, Clone)]
pub enum Outcome {
    /// It could not be started.
    NotStarted(String),
    /// It ended, with success or without, having written this.
    Ended { success: bool, stdout: String, stderr: String },
}

/// The texts of `list`, with `sep` between each two.
pub open spec fn join(list: Seq<Seq<char>>, sep: Seq<char>) -> Seq<char>
    decreases list.len(),
{
    if list.len() == 0 {
        Seq::empty()
    } else if list.len() == 1 {
        list[0]
    } else {
        join(list.drop_last(), sep) + sep + list.last()
    }
}

pub fn joined(list: &Vec<String>, sep: &str) -> (r: String)
    ensures
        r@ == join(text::texts(list@), sep@),
{
    let mut r = String::new();
    let mut i: usize = 0;
    let ghost t = text::texts(list@);
    assert(t.take(0) =~= Seq::<Seq<char>>::empty());
    while i < list.len()
        invariant
            i <= list@.len(),
            t == text::texts(list@),
            r@ == join(t.take(i as int), sep@),
        decreases list.len() - i,
    {
        if i > 0 {
            r.append(sep);
        }
        r.append(list[i].as_str());
        proof {
            assert(t.take(i + 1).drop_last() =~= t.take(i as int));
            assert(t.take(i + 1).last() == list@[i as int]@);
            if i == 0 {
                assert(Seq::<char>::empty() + list@[0]@ =~= list@[0]@);
            }
        }
        i += 1;
    }
    assert(t.take(i as int) =~= t);
    r
}

/// The error of a command that failed: the whole command line and what it
/// wrote about it.
pub open spec fn failure(c: CommandView, stderr: Seq<char>) -> Seq<char> {
    c.program + " "@ + join(c.args, " "@) + ": "@ + text::trim(stderr)
}

/// The standard output of a command that succeeded; else what went wrong.
pub fn sh(c: &CommandLine, outcome: Outcome) -> (r: Result<String, String>)
    ensures
        match outcome {
            Outcome::NotStarted(e) => r matches Err(m) && m@ == "spawn "@ + c@.program + ": "@
                + e@,
            Outcome::Ended { success, stdout, stderr } => if success {
                r matches Ok(s) && s@ == stdout@
            } else {
                r matches Err(m) && m@ == failure(c@, stderr@)
            },
        },
{
    match outcome {
        Outcome::NotStarted(e) => {
            let mut m = "spawn ".to_string();
            m.append(c.program.as_str());
            m.append(": ");
            m.append(e.as_str());
            Err(m)
        },
        Outcome::Ended { success, stdout, stderr } => {
            if success {
                Ok(stdout)
            } else {
                let mut m = c.program.clone();
                m.append(" ");
                m.append(joined(&c.args, " ").as_str());
                m.append(": ");
                m.append(text::trimmed(stderr.as_str()).as_str());
                Err(m)
            }
        },
    }
}

/// The standard output of a command that succeeded; else what it wrote about
/// its failure.
pub fn sh_out(c: &CommandLine, outcome: Outcome) -> (r: Result<String, String>)
    ensures
        match outcome {
            Outcome::NotStarted(e) => r matches Err(m) && m@ == "spawn "@ + c@.program + ": "@
                + e@,
            Outcome::Ended { success, stdout, stderr } => if success {
                r matches Ok(s) && s@ == stdout@
            } else {
                r matches Err(m) && m@ == text::trim(stderr@)
            },
        },
{
    match outcome {
        Outcome::NotStarted(e) => sh(c, Outcome::NotStarted(e)),
        Outcome::Ended { success, stdout, stderr } => {
            if success {
                Ok(stdout)
            } else {
                Err(text::trimmed(stderr.as_str()))
            }
        },
    }
}

/// Joining puts the separator between each two texts, and nowhere else.
pub proof fn joining_puts_separators_between(list: Seq<Seq<char>>, last: Seq<char>, sep: Seq<char>)
    ensures
        join(Seq::<Seq<char>>::empty(), sep) == Seq::<char>::empty(),
        join(seq![last], sep) == last,
        list.len() > 0 ==> join(list.push(last), sep) == join(list, sep) + sep + last,
{
    assert(list.push(last).drop_last() =~= list);
}

/// The error of a command that failed names the program and all its arguments, and says
/// what it wrote, without the whitespace around it.
pub proof fn a_failure_tells_the_command_and_the_error(c: CommandView, stderr: Seq<char>)
    ensures
        failure(c, stderr) == c.program + " "@ + join(c.args, " "@) + ": "@ + text::trim(stderr),
{
}

} // verus!
