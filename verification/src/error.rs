//! The ways a client's input can be unusable, and their error replies.

use vstd::prelude::*;
use vstd::string::*;

use crate::response::Response;

verus! {

/// What went wrong with a client's input.  None of these ends the
/// session; each is surfaced to the client as an error line.
#[derive(Debug, PartialEq, Eq)]
pub enum Error {
    /// The peer sent nothing, or closed mid-read.
    Empty,
    /// The command line exceeded the read buffer.
    TooLong,
    /// The bytes read were not valid UTF-8.
    InvalidUtf8,
    /// The keyword was not recognized, or its arity was wrong.
    UnknownCommand(String),
    /// An argument failed validation.
    BadArgs(String),
}

/// The message text of an error reply.
pub open spec fn spec_error_msg(e: Error) -> Seq<char> {
    match e {
        Error::Empty => "ERR empty command"@,
        Error::TooLong => "ERR command too long"@,
        Error::InvalidUtf8 => "ERR invalid UTF-8"@,
        Error::UnknownCommand(cmd) => "ERR unknown command '"@ + cmd@ + "'"@,
        Error::BadArgs(msg) => "ERR "@ + msg@,
    }
}

impl Error {
    /// The error line sent back to the client; it always begins with the
    /// error marker.
    pub fn to_response(&self) -> (r: Response)
        ensures
            r matches Response::Error(m) && m@ == spec_error_msg(*self),
    {
        match self {
            Error::Empty => Response::Error("ERR empty command".to_owned()),
            Error::TooLong => Response::Error("ERR command too long".to_owned()),
            Error::InvalidUtf8 => Response::Error("ERR invalid UTF-8".to_owned()),
            Error::UnknownCommand(cmd) => {
                let m = "ERR unknown command '".to_owned().concat(cmd.as_str()).concat("'");
                Response::Error(m)
            },
            Error::BadArgs(msg) => {
                let m = "ERR ".to_owned().concat(msg.as_str());
                Response::Error(m)
            },
        }
    }
}

} // verus!
