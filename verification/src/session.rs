//! Decisions around a shell session: which shell to start and how, what its
//! reader reports after each read, and the title it shows.

use vstd::prelude::*;

use crate::render::{file_name_of, or_empty, path_file_name};
use crate::text::{ascii_lower_seq, chars_of, contains_chars, contains_seq, lower_chars, owned};
use crate::vt::PtyEvent;

verus! {

/// The title a session shows: the one the shell set, else the name of the
/// shell program.
pub fn display_title(title: &str, process_name: &str) -> (t: String)
    ensures
        t@ == (if title@.len() > 0 {
            title@
        } else {
            process_name@
        }),
{
    if !title.is_empty() {
        owned(title)
    } else {
        owned(process_name)
    }
}

/// Why no shell could be started.
#[derive(Debug, Clone, Copy, PartialEq, Eq, Structural)]
pub enum ShellError {
    NotFound,
}

impl ShellError {
    pub fn message(&self) -> (m: &'static str)
        ensures
            m@ == "could not find a shell"@,
    {
        "could not find a shell"
    }
}

/// The shell to start: the configured one, else `$SHELL`, else `/bin/bash`
/// or `/bin/sh`, whichever exists first.
pub fn resolve_shell(configured: Option<&str>, env_shell: Option<&str>, bin_bash_exists: bool, bin_sh_exists: bool) -> (r: Result<String, ShellError>)
    ensures
        r is Ok <==> (configured is Some || env_shell is Some || bin_bash_exists || bin_sh_exists),
        r is Err ==> r == Err::<String, ShellError>(ShellError::NotFound),
        r matches Ok(s) ==> s@ == (match (configured, env_shell) {
            (Some(c), _) => c@,
            (None, Some(e)) => e@,
            (None, None) => if bin_bash_exists {
                "/bin/bash"@
            } else {
                "/bin/sh"@
            },
        }),
{
    if let Some(s) = configured {
        return Ok(owned(s));
    }
    if let Some(shell) = env_shell {
        return Ok(owned(shell));
    }
    if bin_bash_exists {
        return Ok(owned("/bin/bash"));
    }
    if bin_sh_exists {
        return Ok(owned("/bin/sh"));
    }
    Err(ShellError::NotFound)
}

/// The extra arguments for a shell, by its program name: `-i` (interactive)
/// except for fish, which is interactive on a terminal anyway. Case is
/// ignored (ASCII).
pub fn shell_args(program_name: &str) -> (a: Vec<String>)
    ensures
        contains_seq(ascii_lower_seq(program_name@), "fish"@) ==> a@.len() == 0,
        !contains_seq(ascii_lower_seq(program_name@), "fish"@) ==> a@.len() == 1 && a@[0]@ == "-i"@,
{
    let name = lower_chars(chars_of(program_name).as_slice());
    let fish = chars_of("fish");
    let mut args: Vec<String> = Vec::new();
    if !contains_chars(name.as_slice(), fish.as_slice()) {
        args.push(owned("-i"));
    }
    args
}

/// The arguments to start the shell at `shell` with (see [`shell_args`]).
pub fn interactive_args(shell: &str) -> (a: Vec<String>)
    ensures
        contains_seq(ascii_lower_seq(or_empty(path_file_name(shell@))), "fish"@) ==> a@.len() == 0,
        !contains_seq(ascii_lower_seq(or_empty(path_file_name(shell@))), "fish"@) ==> a@.len() == 1
            && a@[0]@ == "-i"@,
{
    match file_name_of(shell) {
        Some(n) => shell_args(n.as_str()),
        None => {
            let empty = String::new();
            shell_args(empty.as_str())
        },
    }
}

/// The name a session is known by before the shell sets a title: the file
/// name of the shell program, or `shell`.
pub fn process_name(shell: &str) -> (n: String)
    ensures
        n@ == (match path_file_name(shell@) {
            Some(f) => f,
            None => "shell"@,
        }),
{
    match file_name_of(shell) {
        Some(f) => f,
        None => owned("shell"),
    }
}

/// How a read from the terminal ended.
#[derive(Debug, Clone, Copy, PartialEq, Eq, Structural)]
pub enum ReadOutcome {
    /// Some bytes arrived (and were fed to the grid).
    Data,
    /// The terminal was closed.
    Closed,
    /// The read failed.
    Failed,
}

/// What the reader reports after a read: new output, and a bell if one
/// rang in it; or that the session is over. The reader stops after `Exit`.
pub fn events_after_read(outcome: ReadOutcome, bell: bool) -> (ev: Vec<PtyEvent>)
    ensures
        outcome != ReadOutcome::Data ==> ev@.len() == 1 && ev@[0] is Exit,
        outcome == ReadOutcome::Data ==> ev@.len() == (if bell {
            2int
        } else {
            1int
        }) && ev@[0] is Output && (bell ==> ev@[1] is Bell),
{
    let mut ev: Vec<PtyEvent> = Vec::new();
    match outcome {
        ReadOutcome::Data => {
            ev.push(PtyEvent::Output);
            if bell {
                ev.push(PtyEvent::Bell);
            }
        },
        ReadOutcome::Closed | ReadOutcome::Failed => {
            ev.push(PtyEvent::Exit);
        },
    }
    ev
}

} // verus!
