//! Replies sent back to a client, and their single-line wire rendering.

use vstd::prelude::*;
use vstd::string::*;

verus! {

/// A reply to one command: a short status line, a value line (or a nil
/// marker), or a user-facing error line.
#[derive(Debug, PartialEq, Eq)]
pub enum Response {
    Simple(String),
    Bulk(Option<String>),
    Error(String),
}

/// A line of text as it goes on the wire: its UTF-8 bytes and a newline.
pub open spec fn line_bytes(text: Seq<char>) -> Seq<u8> {
    vstd::utf8::encode_utf8(text) + seq![10u8]
}

/// The wire rendering of a reply.  A nil bulk reply renders as a literal
/// nil marker, distinct from any real value line.
pub open spec fn spec_to_bytes(r: Response) -> Seq<u8> {
    match r {
        Response::Simple(s) => line_bytes(s@),
        Response::Bulk(Some(s)) => line_bytes(s@),
        Response::Bulk(None) => line_bytes("(nil)"@),
        Response::Error(e) => line_bytes(e@),
    }
}

impl Response {
    /// Serializes the reply to one newline-terminated line.
    pub fn to_bytes(&self) -> (b: Vec<u8>)
        ensures
            b@ == spec_to_bytes(*self),
    {
        match self {
            Response::Simple(s) => {
                let mut v = s.as_str().as_bytes_vec();
                v.push(10u8);
                proof {
                    assert(v@ =~= line_bytes(s@));
                }
                v
            },
            Response::Bulk(Some(s)) => {
                let mut v = s.as_str().as_bytes_vec();
                v.push(10u8);
                proof {
                    assert(v@ =~= line_bytes(s@));
                }
                v
            },
            Response::Bulk(None) => {
                let mut v = "(nil)".as_bytes_vec();
                v.push(10u8);
                proof {
                    assert(v@ =~= line_bytes("(nil)"@));
                }
                v
            },
            Response::Error(e) => {
                let mut v = e.as_str().as_bytes_vec();
                v.push(10u8);
                proof {
                    assert(v@ =~= line_bytes(e@));
                }
                v
            },
        }
    }
}

} // verus!
