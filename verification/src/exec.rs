//! What is known of a finished subprocess.
//!
//! Commands are argument vectors, never shell strings, and every call has a
//! deadline. A call that hits it reports `Timeout`, which callers degrade to
//! "unknown" rather than "up to date".

use crate::text::{self, CharClass};
use vstd::prelude::*;
use vstd::string::*;

verus! {

#[derive(Debug)]
pub struct Output {
    pub code: i32,
    pub stdout: String,
    pub stderr: String,
}

#[derive(Debug)]
pub enum ExecError {
    /// The child outlived its deadline and was killed.
    Timeout { secs: u64 },
    /// The binary could not be spawned at all.
    Spawn(String),
}

impl Clone for Output {
    fn clone(&self) -> (r: Self)
        ensures
            r == *self,
    {
        Output { code: self.code, stdout: self.stdout.clone(), stderr: self.stderr.clone() }
    }
}

/// What is printed of a failed call.
pub open spec fn exec_error_text(error: ExecError) -> Seq<char> {
    match error {
        ExecError::Timeout { secs } => "timed out after "@ + text::decimal(secs as nat) + "s"@,
        ExecError::Spawn(e) => "could not run: "@ + e@,
    }
}

impl ExecError {
    pub fn describe(&self) -> (r: String)
        ensures
            r@ == exec_error_text(*self),
    {
        match self {
            ExecError::Timeout { secs } => "timed out after ".to_string().concat(
                text::number_text(*secs).as_str(),
            ).concat("s"),
            ExecError::Spawn(e) => "could not run: ".to_string().concat(e.as_str()),
        }
    }
}

/// Standard output without the line ends behind it.
pub open spec fn trimmed_output(output: Output) -> Seq<char> {
    text::drop_class(output.stdout@, CharClass::LineEnd)
}

impl Output {
    pub fn ok(&self) -> (r: bool)
        ensures
            r == (self.code == 0),
    {
        self.code == 0
    }

    /// Standard output without trailing line ends: the shape almost every
    /// caller wants when reading a single value back out of a command.
    pub fn trimmed(&self) -> (r: &str)
        ensures
            r@ == trimmed_output(*self),
    {
        text::drop_class_of(self.stdout.as_str(), CharClass::LineEnd)
    }
}

/// A call ran and succeeded.
pub open spec fn succeeded(result: Result<Output, ExecError>) -> bool {
    result matches Ok(output) && output.code == 0
}

/// The command that looks a program up on `PATH`.
pub fn lookup_program(windows: bool) -> (r: String)
    ensures
        r@ == if windows { "where"@ } else { "which"@ },
{
    if windows {
        "where".to_string()
    } else {
        "which".to_string()
    }
}

/// A program is there when the lookup ran and succeeded, so a missing tool
/// degrades a feature instead of aborting.
pub fn have(lookup: &Result<Output, ExecError>) -> (r: bool)
    ensures
        r == succeeded(*lookup),
{
    match lookup {
        Ok(output) => output.ok(),
        Err(_) => false,
    }
}

/// Where a program is: the first line that the lookup printed.
pub fn resolve(lookup: &Result<Output, ExecError>) -> (r: Option<String>)
    ensures
        text::opt_text(r) == match *lookup {
            Ok(output) if output.code == 0 && text::text_lines(output.stdout@).len() > 0 => Some(
                text::text_lines(output.stdout@)[0],
            ),
            _ => None,
        },
{
    match lookup {
        Ok(output) => {
            if !output.ok() {
                return None;
            }
            let lines = text::lines(output.stdout.as_str());
            if lines.len() == 0 {
                return None;
            }
            let first = lines[0].clone();
            assert(text::texts(lines@)[0] == first@);
            Some(first)
        },
        Err(_) => None,
    }
}

/// The message of a program that could not be started.
pub fn spawn_error(program: &str, error: &str) -> (r: ExecError)
    ensures
        r matches ExecError::Spawn(e) && e@ == program@ + ": "@ + error@,
{
    ExecError::Spawn(program.to_string().concat(": ").concat(error))
}

/// What a look at a child saw.
#[derive(Debug)]
pub enum Polled {
    /// It is over; a child that a signal ended has no code.
    Exited(Option<i32>),
    /// It still runs, and the deadline is past or not.
    Running { late: bool },
    /// It cannot be looked at.
    Lost(String),
}

/// What to do after a look at a child.
#[derive(Debug)]
pub enum Wait {
    /// Collect what it printed: it ended with this code.
    Done { code: i32 },
    /// Look again a little later.
    Again,
    /// Kill it, and report this.
    Kill(ExecError),
    /// Report this.
    Fail(ExecError),
}

/// What follows from a look at a child whose deadline is `secs` seconds.
pub open spec fn follows(program: Seq<char>, seen: Polled, secs: u64, next: Wait) -> bool {
    match seen {
        Polled::Exited(code) => next == (Wait::Done {
            code: match code {
                Some(c) => c,
                None => -1i32,
            },
        }),
        Polled::Running { late } => if late {
            next == Wait::Kill(ExecError::Timeout { secs })
        } else {
            next is Again
        },
        Polled::Lost(e) => next matches Wait::Fail(ExecError::Spawn(message)) && message@
            == program + ": "@ + e@,
    }
}

/// Decides what a look at a child means. The deadline is hard: a child that
/// outlives it is killed.
pub fn after_poll(program: &str, seen: Polled, secs: u64) -> (r: Wait)
    ensures
        follows(program@, seen, secs, r),
{
    match seen {
        Polled::Exited(Some(code)) => Wait::Done { code },
        Polled::Exited(None) => Wait::Done { code: -1 },
        Polled::Running { late } => if late {
            Wait::Kill(ExecError::Timeout { secs })
        } else {
            Wait::Again
        },
        Polled::Lost(e) => Wait::Fail(spawn_error(program, e.as_str())),
    }
}

/// Past its deadline a child is never waited for again, and what is reported
/// of it is no success.
pub proof fn law_deadline_is_hard(program: Seq<char>, seen: Polled, secs: u64, next: Wait)
    requires
        follows(program, seen, secs, next),
        seen == (Polled::Running { late: true }),
    ensures
        next matches Wait::Kill(error) && !succeeded(Err(error)) && exec_error_text(error)
            == "timed out after "@ + text::decimal(secs as nat) + "s"@,
{
}

/// A child that ended is reported with its own code, or as failed where it had
/// none; one that still runs within its deadline is looked at again; and one
/// that was lost is an error that names it.
pub proof fn law_child_is_reported_as_it_ended(
    program: Seq<char>,
    code: i32,
    e: String,
    secs: u64,
    next: Wait,
)
    ensures
        follows(program, Polled::Exited(Some(code)), secs, next) <==> next == (Wait::Done { code }),
        follows(program, Polled::Exited(None), secs, next) <==> next == (Wait::Done { code: -1i32 }),
        follows(program, Polled::Running { late: false }, secs, next) <==> next is Again,
        follows(program, Polled::Lost(e), secs, next) ==> (next matches Wait::Fail(error)
            && exec_error_text(error) == "could not run: "@ + (program + ": "@ + e@)),
{
}

/// Only a call that ran and ended with zero succeeded; its output is what it
/// printed, without the line ends behind it.
pub proof fn law_success_is_zero(result: Result<Output, ExecError>, output: Output)
    ensures
        succeeded(result) <==> (result matches Ok(out) && out.code == 0),
        output.stdout@.len() > 0 && output.stdout@.last() != '\n' && output.stdout@.last() != '\r'
            ==> trimmed_output(output) == output.stdout@,
        trimmed_output(output).len() > 0 ==> trimmed_output(output).last() != '\n'
            && trimmed_output(output).last() != '\r',
        trimmed_output(output) == output.stdout@.take(trimmed_output(output).len() as int),
{
    text::lemma_drop_class(output.stdout@, CharClass::LineEnd);
}

} // verus!
