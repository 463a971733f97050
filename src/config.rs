//! Where to connect and as whom. The address type is left to the caller:
//! the library only needs to know whether one was given.
use vstd::prelude::*;

use crate::generic::opt_view;

verus! {

#[derive(Debug, PartialEq, Clone)]
pub struct IrcConfig<A> {
    pub server_address: A,
    pub username: String,
    pub nickname: String,
    pub password: Option<String>,
}

#[derive(Debug, PartialEq, Eq, Clone, Copy, Structural)]
pub enum IrcConfigBuilderError {
    ServerAddressMissing,
    UsernameMissing,
}

#[derive(Debug, PartialEq, Clone)]
pub struct IrcConfigBuilder<A> {
    pub server_address: Option<A>,
    pub username: Option<String>,
    pub nickname: Option<String>,
    pub password: Option<String>,
}

impl<A> IrcConfigBuilder<A> {
    /// A builder with nothing set.
    pub fn new() -> (r: Self)
        ensures
            r.server_address is None,
            r.username is None,
            r.nickname is None,
            r.password is None,
    {
        IrcConfigBuilder { server_address: None, username: None, nickname: None, password: None }
    }

    pub fn username(&mut self, username: String)
        ensures
            final(self).username == Some(username),
            final(self).server_address == old(self).server_address,
            final(self).nickname == old(self).nickname,
            final(self).password == old(self).password,
    {
        self.username = Some(username);
    }

    pub fn nickname(&mut self, nickname: String)
        ensures
            final(self).nickname == Some(nickname),
            final(self).server_address == old(self).server_address,
            final(self).username == old(self).username,
            final(self).password == old(self).password,
    {
        self.nickname = Some(nickname);
    }

    pub fn password(&mut self, password: Option<String>)
        ensures
            final(self).password == password,
            final(self).server_address == old(self).server_address,
            final(self).username == old(self).username,
            final(self).nickname == old(self).nickname,
    {
        self.password = password;
    }

    /// The configuration. The address and the username are required; the
    /// nickname defaults to the username.
    pub fn build(self) -> (r: Result<IrcConfig<A>, IrcConfigBuilderError>)
        ensures
            self.server_address is None ==> r == Err::<IrcConfig<A>, IrcConfigBuilderError>(
                IrcConfigBuilderError::ServerAddressMissing,
            ),
            self.server_address is Some && self.username is None ==> r == Err::<
                IrcConfig<A>,
                IrcConfigBuilderError,
            >(IrcConfigBuilderError::UsernameMissing),
            self.server_address is Some && self.username is Some ==> (r matches Ok(c) && {
                &&& Some(c.server_address) == self.server_address
                &&& c.username@ == self.username->0@
                &&& c.nickname@ == match opt_view(self.nickname) {
                    Some(n) => n,
                    None => self.username->0@,
                }
                &&& c.password == self.password
            }),
    {
        let server_address = match self.server_address {
            Some(server_address) => server_address,
            None => {
                return Err(IrcConfigBuilderError::ServerAddressMissing);
            },
        };
        let username = match self.username {
            Some(username) => username,
            None => {
                return Err(IrcConfigBuilderError::UsernameMissing);
            },
        };
        let nickname = match self.nickname {
            Some(nickname) => nickname,
            None => username.clone(),
        };
        Ok(IrcConfig { server_address, username, nickname, password: self.password })
    }
}

} // verus!
