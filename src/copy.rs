//! Copies of messages, proved equal to what they copy.
use vstd::prelude::*;

use crate::command::IrcCommand;
use crate::generic::{opt_view, strings_view, GenericIrcCommand, GenericIrcCommandType};
use crate::message::{tag_view, tags_view, IrcMessage, Tag};

verus! {

pub fn copy_text(s: &Option<String>) -> (r: Option<String>)
    ensures
        opt_view(r) == opt_view(*s),
{
    match s {
        Some(t) => Some(t.clone()),
        None => None,
    }
}

pub fn copy_strings(v: &Vec<String>) -> (r: Vec<String>)
    ensures
        strings_view(r@) == strings_view(v@),
{
    let mut out: Vec<String> = Vec::new();
    let mut i: usize = 0;
    while i < v.len()
        invariant
            i <= v.len(),
            strings_view(out@) == strings_view(v@).take(i as int),
        decreases v.len() - i,
    {
        let ghost before = strings_view(out@);
        out.push(v[i].clone());
        assert(strings_view(out@) =~= before.push(v@[i as int]@));
        i = i + 1;
        assert(strings_view(out@) =~= strings_view(v@).take(i as int));
    }
    assert(strings_view(v@).take(v.len() as int) =~= strings_view(v@));
    out
}

fn copy_tags(v: &Vec<Tag>) -> (r: Vec<Tag>)
    ensures
        tags_view(r@) == tags_view(v@),
{
    let mut out: Vec<Tag> = Vec::new();
    let mut i: usize = 0;
    while i < v.len()
        invariant
            i <= v.len(),
            tags_view(out@) == tags_view(v@).take(i as int),
        decreases v.len() - i,
    {
        let ghost before = tags_view(out@);
        let t: Tag = (v[i].0.clone(), copy_text(&v[i].1));
        out.push(t);
        assert(tags_view(out@) =~= before.push(tag_view(v@[i as int])));
        i = i + 1;
        assert(tags_view(out@) =~= tags_view(v@).take(i as int));
    }
    assert(tags_view(v@).take(v.len() as int) =~= tags_view(v@));
    out
}

pub fn copy_generic(g: &GenericIrcCommand) -> (r: GenericIrcCommand)
    ensures
        r@ == g@,
{
    let command = match &g.command {
        GenericIrcCommandType::Text(t) => GenericIrcCommandType::Text(t.clone()),
        GenericIrcCommandType::Number(n) => GenericIrcCommandType::Number(*n),
    };
    let r = GenericIrcCommand {
        command,
        params: copy_strings(&g.params),
        trailing: copy_text(&g.trailing),
    };
    assert(r@ =~= g@);
    r
}

pub fn copy_command(c: &IrcCommand) -> (r: IrcCommand)
    ensures
        r@ == c@,
{
    match c {
        IrcCommand::Pass(a) => IrcCommand::Pass(a.clone()),
        IrcCommand::Nick(a) => IrcCommand::Nick(a.clone()),
        IrcCommand::User(a, b) => IrcCommand::User(a.clone(), b.clone()),
        IrcCommand::Ping(a) => IrcCommand::Ping(a.clone()),
        IrcCommand::Pong(a) => IrcCommand::Pong(a.clone()),
        IrcCommand::Notice(a, b) => IrcCommand::Notice(a.clone(), b.clone()),
        IrcCommand::ErrorMsg(a) => IrcCommand::ErrorMsg(a.clone()),
        IrcCommand::RplWelcome(a, b) => IrcCommand::RplWelcome(a.clone(), b.clone()),
        IrcCommand::RplYourHost(a, b) => IrcCommand::RplYourHost(a.clone(), b.clone()),
        IrcCommand::RplCreated(a, b) => IrcCommand::RplCreated(a.clone(), b.clone()),
        IrcCommand::RplMyInfo { client, server_name, server_version, umodes, cmodes, cmodes_params } => {
            IrcCommand::RplMyInfo {
                client: client.clone(),
                server_name: server_name.clone(),
                server_version: server_version.clone(),
                umodes: umodes.clone(),
                cmodes: cmodes.clone(),
                cmodes_params: copy_text(cmodes_params),
            }
        },
        IrcCommand::RplISupport(a, caps, b) => IrcCommand::RplISupport(
            a.clone(),
            copy_strings(caps),
            b.clone(),
        ),
        IrcCommand::RplLUserClient(a, b) => IrcCommand::RplLUserClient(a.clone(), b.clone()),
        IrcCommand::RplLUserOp(a, n, b) => IrcCommand::RplLUserOp(a.clone(), *n, b.clone()),
        IrcCommand::RplLUserUnknown(a, n, b) => IrcCommand::RplLUserUnknown(a.clone(), *n, b.clone()),
        IrcCommand::RplLUserChannels(a, n, b) => IrcCommand::RplLUserChannels(
            a.clone(),
            *n,
            b.clone(),
        ),
        IrcCommand::RplLUserMe(a, b) => IrcCommand::RplLUserMe(a.clone(), b.clone()),
        IrcCommand::RplLocalUsers(a, u, b) => IrcCommand::RplLocalUsers(a.clone(), *u, b.clone()),
        IrcCommand::RplGlobalUsers(a, u, b) => IrcCommand::RplGlobalUsers(a.clone(), *u, b.clone()),
        IrcCommand::RplMotdStart(a, b) => IrcCommand::RplMotdStart(a.clone(), b.clone()),
        IrcCommand::RplMotd(a, b) => IrcCommand::RplMotd(a.clone(), b.clone()),
        IrcCommand::RplEndOfMotd(a, b) => IrcCommand::RplEndOfMotd(a.clone(), b.clone()),
        IrcCommand::RplHostHidden(a, h, b) => IrcCommand::RplHostHidden(
            a.clone(),
            h.clone(),
            b.clone(),
        ),
        IrcCommand::Generic(g) => IrcCommand::Generic(copy_generic(g)),
    }
}

impl IrcMessage {
    /// A copy of this message.
    pub fn duplicate(&self) -> (r: IrcMessage)
        ensures
            r@ == self@,
    {
        let r = IrcMessage {
            tags: copy_tags(&self.tags),
            prefix: copy_text(&self.prefix),
            command: copy_command(&self.command),
        };
        assert(r@.tags == self@.tags);
        r
    }
}

} // verus!
