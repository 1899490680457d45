//! The operations a run can ask for, and how their result is written out.

use crate::edit::{added_list, appended_list, exec_add, exec_append, exec_new, exec_print, lines, new_list};
use crate::parse::{joined, to_string};
use vstd::prelude::*;

verus! {

/// An operation on the current list; the edits carry their arguments, each a
/// colon-separated list.
#[derive(Debug, PartialEq, Eq)]
pub enum Commands {
    Print,
    New { directories: Vec<String> },
    Add { directories: Vec<String> },
    Append { directories: Vec<String> },
    Analyze,
}

impl Commands {
    /// Whether the result goes out one entry per line: when asked for, and always
    /// for `Print`.
    pub fn prints_lines(&self, pretty: bool) -> (r: bool)
        ensures
            r == (pretty || self is Print),
    {
        pretty || match self {
            Commands::Print => true,
            _ => false,
        }
    }
}

/// The list that `command` leaves from `current`, before post-processing. `Analyze`
/// reports rather than edits, and leaves the empty list.
pub fn exec_command(command: Commands, current: Vec<String>) -> (r: Vec<String>)
    ensures
        command is Print ==> r == current,
        command is Analyze ==> r@.len() == 0,
        command is New ==> r.deep_view() == new_list(command->New_directories.deep_view()),
        command is Add ==> r.deep_view() == added_list(
            current.deep_view(),
            command->Add_directories.deep_view(),
        ),
        command is Append ==> r.deep_view() == appended_list(
            current.deep_view(),
            command->Append_directories.deep_view(),
        ),
{
    match command {
        Commands::Print => current,
        Commands::New { directories } => exec_new(directories),
        Commands::Add { directories } => exec_add(current.as_slice(), directories),
        Commands::Append { directories } => exec_append(current.as_slice(), directories),
        Commands::Analyze => Vec::new(),
    }
}

/// The text written for `path`: one entry per line when `pretty`, else the entries
/// joined by colons on one line.
pub fn render(path: Vec<String>, pretty: bool) -> (r: String)
    ensures
        pretty ==> r@ == lines(path.deep_view()),
        !pretty ==> r@ == joined(path.deep_view()) + seq!['\n'],
{
    if pretty {
        exec_print(path)
    } else {
        let mut out = to_string(path.as_slice());
        out.append("\n");
        proof {
            reveal_strlit("\n");
        }
        out
    }
}

} // verus!
