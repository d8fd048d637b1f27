//! Command planning: decide what a typed line asks the shell to do —
//! a built-in, or a process to spawn — before any process is touched.
//! The surrounding program carries the decision out.

use vstd::prelude::*;
use crate::order::views_of;
use crate::text::eq_str;
use crate::text::first_match;
use crate::text::split_ws;
use crate::text::ws_tokens;
use vstd::string::StrSliceExecFns;

verus! {

/// What a command line asks for.
pub enum CommandAction {
    /// An empty line: nothing to do, exit code 0.
    DoNothing,
    /// The `exit` built-in.
    Exit,
    /// The `cd` built-in with its target directory.
    ChangeDir(String),
    /// The `edit` built-in with the file to open.
    Edit(String),
    /// `edit` without an argument: the no-file report.
    EditMissingFile,
    /// Any other command: spawn it with these tokens.
    RunSystem(Vec<String>),
}

/// Decide the action for a command line, from its whitespace tokens:
/// the first token selects a built-in, the `cd` target defaults to
/// `~`, and anything else is spawned as given.
pub fn plan_command(cmd: &str) -> (r: CommandAction)
    ensures
        ({
            let toks = ws_tokens(cmd@);
            match r {
                CommandAction::DoNothing => toks.len() == 0,
                CommandAction::Exit => toks.len() > 0 && toks[0] == "exit"@,
                CommandAction::ChangeDir(t) => toks.len() > 0 && toks[0] == "cd"@ && t@ == (
                if toks.len() >= 2 {
                    toks[1]
                } else {
                    "~"@
                }),
                CommandAction::Edit(f) => toks.len() >= 2 && toks[0] == "edit"@ && f@ == toks[1],
                CommandAction::EditMissingFile => toks.len() == 1 && toks[0] == "edit"@,
                CommandAction::RunSystem(parts) => toks.len() > 0 && toks[0] != "exit"@ && toks[0]
                    != "cd"@ && toks[0] != "edit"@ && views_of(parts@) == toks,
            }
        }),
{
    let toks = split_ws(cmd);
    if toks.len() == 0 {
        return CommandAction::DoNothing;
    }
    proof {
        assert(views_of(toks@)[0] == ws_tokens(cmd@)[0]);
    }
    let head = &toks[0];
    if eq_str(head.as_str(), "exit") {
        CommandAction::Exit
    } else if eq_str(head.as_str(), "cd") {
        if toks.len() >= 2 {
            proof {
                assert(views_of(toks@)[1] == ws_tokens(cmd@)[1]);
            }
            let target = toks[1].clone();
            CommandAction::ChangeDir(target)
        } else {
            CommandAction::ChangeDir("~".to_owned())
        }
    } else if eq_str(head.as_str(), "edit") {
        if toks.len() >= 2 {
            proof {
                assert(views_of(toks@)[1] == ws_tokens(cmd@)[1]);
            }
            let file = toks[1].clone();
            CommandAction::Edit(file)
        } else {
            CommandAction::EditMissingFile
        }
    } else {
        CommandAction::RunSystem(toks)
    }
}

/// Whether a failed built-in's report is the missing-file message that
/// ends the command with exit code 1, rather than falling through to
/// the shell.
pub fn is_missing_file_error(err: &str) -> (r: bool)
    ensures
        r == (first_match(err@, "No such file or directory"@, 0) is Some),
{
    crate::text::contains_sub(err, "No such file or directory")
}

} // verus!
