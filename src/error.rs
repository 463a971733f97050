use vstd::prelude::*;

use crate::text::owned;

verus! {

/// What can go wrong while reading or writing a protocol line.
#[derive(Debug, PartialEq, Clone)]
pub enum Error {
    /// The line does not have the shape of a protocol line.
    NoMatch(String),
    /// The line holds no command token.
    NoCommand(String),
    /// The command token or the command's parameters are not acceptable.
    Invalid,
    /// A message-of-the-day line came out of its order.
    MotdOutOfOrder,
}

impl Error {
    /// A sentence that says what went wrong.
    pub fn to_text(&self) -> (r: String)
        ensures
            r@ == error_text(*self),
    {
        match self {
            Error::NoMatch(msg) => {
                let mut r = owned("Message \"");
                r.append(msg.as_str());
                r.append("\" did not match the line grammar!");
                r
            },
            Error::NoCommand(msg) => {
                let mut r = owned("Message \"");
                r.append(msg.as_str());
                r.append("\" is missing command!");
                r
            },
            Error::Invalid => owned("Invalid string!"),
            Error::MotdOutOfOrder => owned("Message of the day out of order!"),
        }
    }
}

/// The sentence for each error.
pub open spec fn error_text(e: Error) -> Seq<char> {
    match e {
        Error::NoMatch(msg) => "Message \""@ + msg@ + "\" did not match the line grammar!"@,
        Error::NoCommand(msg) => "Message \""@ + msg@ + "\" is missing command!"@,
        Error::Invalid => "Invalid string!"@,
        Error::MotdOutOfOrder => "Message of the day out of order!"@,
    }
}

} // verus!
