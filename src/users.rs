//! A user of the plain message form, and the commands that register it.
use vstd::prelude::*;

use crate::messages::{CmdModel, Command, Message, MsgModel};

verus! {

#[derive(Debug, Clone)]
pub struct User {
    pub nickname: String,
    pub username: String,
    pub hostname: String,
    pub servername: String,
    pub realname: String,
    pub flags: UserFlags,
}

#[derive(Debug, Default, Clone, PartialEq, Eq)]
pub struct UserFlags {
    pub invisible: bool,
    pub server_notices: bool,
    pub wallops: bool,
    pub operator: bool,
}

impl User {
    /// `NICK` with this user's nickname.
    pub fn nick_command(&self) -> (r: Message)
        ensures
            r@ == (MsgModel { prefix: None, command: CmdModel::Nick(self.nickname@) }),
    {
        Message { prefix: None, command: Command::Nick(self.nickname.clone()) }
    }

    /// `USER` with this user's username, hostname, server name and real name.
    pub fn user_command(&self) -> (r: Message)
        ensures
            r@ == (MsgModel {
                prefix: None,
                command: CmdModel::User(
                    self.username@,
                    self.hostname@,
                    self.servername@,
                    self.realname@,
                ),
            }),
    {
        Message {
            prefix: None,
            command: Command::User(
                self.username.clone(),
                self.hostname.clone(),
                self.servername.clone(),
                self.realname.clone(),
            ),
        }
    }
}

} // verus!
