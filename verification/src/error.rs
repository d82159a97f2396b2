//! The error types of the shell.

use vstd::prelude::*;

verus! {

/// The ways in which a line fails to tokenize.
#[derive(Debug, Clone, Copy, PartialEq, Eq)]
pub enum CmdParsingError {
    /// The line has more characters than a column number can count.
    LineTooLong,
}

impl CmdParsingError {
    /// The error's text: the name of the variant.
    pub fn to_string(&self) -> (text: String)
        ensures
            text@ == "LineTooLong"@,
    {
        match self {
            CmdParsingError::LineTooLong => "LineTooLong".to_owned(),
        }
    }
}

/// What went wrong when a command was run. Causes are carried as the text
/// of the underlying error.
#[derive(Debug, PartialEq, Eq)]
pub enum CommandError {
    /// Reading, writing or flushing a stream failed.
    IOError(String),
    /// A built-in reported a failure of its own.
    Custom { prog_name: String, message: String, status: i32 },
    /// The program could not be started: cause, program, status.
    ChildSpawnError(String, String, i32),
    /// The program could not be waited for: cause, status.
    ChildExit(String, i32),
}

/// The exit status that stands for a stream failure.
pub const IO_FAILURE_STATUS: i32 = 1;

impl CommandError {
    /// The exit status that the error stands for.
    pub open spec fn spec_status(&self) -> i32 {
        match self {
            CommandError::IOError(_) => IO_FAILURE_STATUS,
            CommandError::Custom { status, .. } => *status,
            CommandError::ChildSpawnError(_, _, status) => *status,
            CommandError::ChildExit(_, status) => *status,
        }
    }

    /// The error's text, with the component it came from in brackets.
    pub open spec fn message(&self) -> Seq<char> {
        match self {
            CommandError::IOError(cause) => "[io]: "@ + cause@,
            CommandError::Custom { prog_name, message, .. } => "["@ + prog_name@ + "]: "@
                + message@,
            CommandError::ChildSpawnError(cause, program, _) => "["@ + program@
                + "]: Unable to launch this program\nCause: "@ + cause@,
            CommandError::ChildExit(_, _) => Seq::empty(),
        }
    }

    /// The exit status that the error stands for.
    pub fn status(&self) -> (status: i32)
        ensures
            status == self.spec_status(),
    {
        match self {
            CommandError::IOError(_) => IO_FAILURE_STATUS,
            CommandError::Custom { status, .. } => *status,
            CommandError::ChildSpawnError(_, _, status) => *status,
            CommandError::ChildExit(_, status) => *status,
        }
    }

    /// The error's text.
    pub fn to_string(&self) -> (text: String)
        ensures
            text@ == self.message(),
    {
        match self {
            CommandError::IOError(cause) => {
                let mut text = "[io]: ".to_owned();
                text.append(cause.as_str());
                text
            },
            CommandError::Custom { prog_name, message, .. } => {
                let mut text = "[".to_owned();
                text.append(prog_name.as_str());
                text.append("]: ");
                text.append(message.as_str());
                text
            },
            CommandError::ChildSpawnError(cause, program, _) => {
                let mut text = "[".to_owned();
                text.append(program.as_str());
                text.append("]: Unable to launch this program\nCause: ");
                text.append(cause.as_str());
                text
            },
            CommandError::ChildExit(_, _) => String::new(),
        }
    }
}

} // verus!
