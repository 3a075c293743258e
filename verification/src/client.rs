//! The debugger's side of a session: what becomes of each line the user
//! enters.

use vstd::prelude::*;
use crate::command::{parse_error, Command};
use crate::text::{trim, trim_string};

verus! {

/// What the debugger does with a line the user has entered.
#[derive(Debug, PartialEq, Eq)]
pub enum Entry {
    /// It sends this command to the server.
    Send(Command),
    /// It shows this message and sends nothing.
    Reject(String),
}

/// An entry, as mathematics.
pub enum EntryView {
    Send(Command),
    Reject(Seq<char>),
}

impl View for Entry {
    type V = EntryView;

    open spec fn view(&self) -> EntryView {
        match self {
            Entry::Send(cmd) => EntryView::Send(*cmd),
            Entry::Reject(message) => EntryView::Reject(message@),
        }
    }
}

/// The line that is carried out when `line` is entered after `last`: `line`
/// without the white space around it, or `last` where that is empty.
pub open spec fn line_to_run(last: Seq<char>, line: Seq<char>) -> Seq<char> {
    if trim(line).len() == 0 {
        last
    } else {
        trim(line)
    }
}

/// What becomes of a line entered after `last`: the last line that named a
/// command afterwards, and what the debugger does.
pub open spec fn entered(last: Seq<char>, line: Seq<char>) -> (Seq<char>, EntryView) {
    let run_line = line_to_run(last, line);
    match Command::spec_parse(run_line) {
        Some(cmd) => (run_line, EntryView::Send(cmd)),
        None => (last, EntryView::Reject(parse_error(run_line))),
    }
}

/// The debugger's memory of the session: the last line that named a command.
pub struct Client {
    last_line: String,
}

impl View for Client {
    type V = Seq<char>;

    closed spec fn view(&self) -> Seq<char> {
        self.last_line@
    }
}

impl Client {
    /// A debugger that has not been given a command yet.
    pub fn new() -> (client: Client)
        ensures
            client@ == Seq::<char>::empty(),
    {
        Client { last_line: String::new() }
    }

    /// Takes a line from the user. White space around it counts for nothing.
    /// An empty line stands for the last line that named a command. A line
    /// that names a command is remembered and the command is to be sent; any
    /// other line is rejected and forgotten.
    pub fn enter(&mut self, line: &str) -> (entry: Entry)
        ensures
            (final(self)@, entry@) == entered(old(self)@, line@),
    {
        let typed = trim_string(line);
        let run_line = if typed.as_str().unicode_len() == 0 {
            self.last_line.clone()
        } else {
            typed
        };
        match Command::parse(run_line.as_str()) {
            Ok(cmd) => {
                self.last_line = run_line;
                Entry::Send(cmd)
            },
            Err(what) => Entry::Reject(what),
        }
    }
}

} // verus!
