//! The inbound command vocabulary.
//!
//! Inbound chat text is matched literally: `/status` asks for a summary,
//! `/stop` asks for termination, anything else is inert.

use vstd::prelude::*;
use vstd::string::StringExecFns;

verus! {

/// A recognized inbound command.
#[derive(Clone, Copy, PartialEq, Eq, Structural, Debug)]
pub enum Command {
    /// Reply with the current summary.
    Status,
    /// Ask the process to stop.
    Stop,
}

/// The command, if any, that a line of inbound text means.
pub open spec fn parse_command_spec(text: Seq<char>) -> Option<Command> {
    if text == "/status"@ {
        Some(Command::Status)
    } else if text == "/stop"@ {
        Some(Command::Stop)
    } else {
        None
    }
}

/// Maps inbound text to the command it means; unrecognized text maps to
/// nothing.
pub fn parse_command(text: &String) -> (r: Option<Command>)
    ensures
        r == parse_command_spec(text@),
{
    let status = String::from_str("/status");
    let stop = String::from_str("/stop");
    if text.eq(&status) {
        Some(Command::Status)
    } else if text.eq(&stop) {
        Some(Command::Stop)
    } else {
        None
    }
}

} // verus!
