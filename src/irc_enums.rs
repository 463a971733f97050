//! What a background connection and its owner send each other.
use vstd::prelude::*;

verus! {

/// From the connection: a line it received.
#[derive(Debug, PartialEq, Clone)]
pub enum IrcEvent {
    ReceiveMessage(String),
}

/// To the connection: a line to send.
#[derive(Debug, PartialEq, Clone)]
pub enum IrcCommand {
    SendMessage(String),
}

} // verus!
