//! An engine for a line-oriented chat protocol: a codec between protocol
//! lines and typed commands, and the state machine of one client connection.
pub mod command;
pub mod config;
pub mod copy;
pub mod error;
pub mod event_handler;
pub mod generic;
pub mod irc_enums;
pub mod laws;
pub mod message;
pub mod messages;
pub mod session;
pub mod text;
pub mod users;

pub use command::IrcCommand;
pub use error::Error;
pub use event_handler::EventHandler;
pub use generic::{GenericIrcCommand, GenericIrcCommandType};
pub use message::IrcMessage;
pub use session::{ConnectionStatus, Context, Event, Motd, Reaction, Session};
