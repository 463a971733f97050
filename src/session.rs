//! The state of one connection, and what each received line does to it:
//! the new state, the events for observers, and the keepalive reply.
use vstd::prelude::*;

use crate::command::{demote, word_pong, CommandModel, IrcCommand};
use crate::error::Error;
use crate::generic::{opt_view, strings_view, writable};
use crate::message::{
    crlf, lemma_parsed_as_means_ok, line_text, parsed_as, IrcMessage, MessageModel,
};
use crate::text::{decimal, decimal_string, owned, same_text};

verus! {

#[derive(Debug, PartialEq, Eq, Clone, Copy, Structural)]
pub enum ConnectionStatus {
    Connecting,
    Connected,
    Disconnected,
}

/// The message of the day, as it arrives line by line.
#[derive(Debug, PartialEq, Clone)]
pub enum Motd {
    Empty,
    Building(String),
    Done(String),
}

pub enum MotdModel {
    Empty,
    Building(Seq<char>),
    Done(Seq<char>),
}

impl View for Motd {
    type V = MotdModel;

    open spec fn view(&self) -> MotdModel {
        match self {
            Motd::Empty => MotdModel::Empty,
            Motd::Building(s) => MotdModel::Building(s@),
            Motd::Done(s) => MotdModel::Done(s@),
        }
    }
}

/// What observers see of the connection when an event is raised.
#[derive(Debug, Clone)]
pub struct Context {
    pub status: ConnectionStatus,
    pub motd: Motd,
}

pub struct ContextModel {
    pub status: ConnectionStatus,
    pub motd: MotdModel,
}

impl View for Context {
    type V = ContextModel;

    open spec fn view(&self) -> ContextModel {
        ContextModel { status: self.status, motd: self.motd@ }
    }
}

/// What the connection tells its observers.
#[derive(Debug, PartialEq, Clone)]
pub enum Event {
    RawMessage(IrcMessage),
    StatusChange,
    WelcomeMsg(String),
    ErrorMsg(String),
    Notice(String),
    Motd,
    UnhandledMessage(IrcMessage),
    /// A line that could not be read, or a reply out of its order.
    Failure(Error),
}

pub enum EventModel {
    RawMessage(MessageModel),
    StatusChange,
    WelcomeMsg(Seq<char>),
    ErrorMsg(Seq<char>),
    Notice(Seq<char>),
    Motd,
    UnhandledMessage(MessageModel),
    Failure(Error),
}

impl View for Event {
    type V = EventModel;

    open spec fn view(&self) -> EventModel {
        match self {
            Event::RawMessage(m) => EventModel::RawMessage(m@),
            Event::StatusChange => EventModel::StatusChange,
            Event::WelcomeMsg(s) => EventModel::WelcomeMsg(s@),
            Event::ErrorMsg(s) => EventModel::ErrorMsg(s@),
            Event::Notice(s) => EventModel::Notice(s@),
            Event::Motd => EventModel::Motd,
            Event::UnhandledMessage(m) => EventModel::UnhandledMessage(m@),
            Event::Failure(e) => EventModel::Failure(*e),
        }
    }
}

pub open spec fn events_view(v: Seq<Event>) -> Seq<EventModel> {
    v.map_values(|e: Event| e@)
}

/// The state of one connection.
pub struct Session {
    pub nickname: String,
    pub username: String,
    pub realname: String,
    pub status: ConnectionStatus,
    pub motd: Motd,
    pub server_name: String,
    pub server_version: String,
    pub umodes: String,
    pub cmodes: String,
    pub cmodes_params: String,
}

pub struct SessionModel {
    pub nickname: Seq<char>,
    pub username: Seq<char>,
    pub realname: Seq<char>,
    pub status: ConnectionStatus,
    pub motd: MotdModel,
    pub server_name: Seq<char>,
    pub server_version: Seq<char>,
    pub umodes: Seq<char>,
    pub cmodes: Seq<char>,
    pub cmodes_params: Seq<char>,
}

impl View for Session {
    type V = SessionModel;

    open spec fn view(&self) -> SessionModel {
        SessionModel {
            nickname: self.nickname@,
            username: self.username@,
            realname: self.realname@,
            status: self.status,
            motd: self.motd@,
            server_name: self.server_name@,
            server_version: self.server_version@,
            umodes: self.umodes@,
            cmodes: self.cmodes@,
            cmodes_params: self.cmodes_params@,
        }
    }
}

/// What one step of the connection gives: a snapshot for observers, the
/// events in the order they are delivered, and a line to send back.
pub struct Reaction {
    pub context: Context,
    pub events: Vec<Event>,
    pub reply: Option<String>,
}

// ---- The rules ----

pub open spec fn context_of(st: SessionModel) -> ContextModel {
    ContextModel { status: st.status, motd: st.motd }
}

pub open spec fn wildcard() -> Seq<char> {
    seq!['*']
}

pub open spec fn newline() -> Seq<char> {
    seq!['\n']
}

/// The capabilities joined by `, `.
pub open spec fn joined_caps(caps: Seq<Seq<char>>) -> Seq<char>
    decreases caps.len(),
{
    if caps.len() == 0 {
        Seq::empty()
    } else if caps.len() == 1 {
        caps[0]
    } else {
        joined_caps(caps.drop_last()) + seq![',', ' '] + caps.last()
    }
}

/// A reply shown as a welcome line: what it carries, a space, its text.
pub open spec fn with_text(head: Seq<char>, text: Seq<char>) -> Seq<char> {
    head + seq![' '] + text
}

pub open spec fn set_status(st: SessionModel, s: ConnectionStatus) -> SessionModel {
    SessionModel { status: s, ..st }
}

pub open spec fn set_motd(st: SessionModel, m: MotdModel) -> SessionModel {
    SessionModel { motd: m, ..st }
}

/// The state after a command has been received.
pub open spec fn next_state(st: SessionModel, c: CommandModel) -> SessionModel {
    let nick = st.nickname;
    match c {
        CommandModel::RplWelcome(t, _) => if t == nick {
            set_status(st, ConnectionStatus::Connected)
        } else {
            st
        },
        CommandModel::RplMyInfo {
            client,
            server_name,
            server_version,
            umodes,
            cmodes,
            cmodes_params,
        } => if client == nick {
            SessionModel {
                server_name,
                server_version,
                umodes,
                cmodes,
                cmodes_params: match cmodes_params {
                    Some(p) => p,
                    None => st.cmodes_params,
                },
                ..st
            }
        } else {
            st
        },
        CommandModel::RplMotdStart(t, m) => if t == nick && st.motd is Empty {
            set_motd(st, MotdModel::Building(m + newline()))
        } else {
            st
        },
        CommandModel::RplMotd(t, m) => match st.motd {
            MotdModel::Building(b) => if t == nick {
                set_motd(st, MotdModel::Building(b + m + newline()))
            } else {
                st
            },
            _ => st,
        },
        CommandModel::RplEndOfMotd(t, m) => match st.motd {
            MotdModel::Building(b) => if t == nick {
                set_motd(st, MotdModel::Done(b + m))
            } else {
                st
            },
            _ => st,
        },
        _ => st,
    }
}

pub open spec fn welcome_if(ours: bool, text: Seq<char>) -> Seq<EventModel> {
    if ours {
        seq![EventModel::WelcomeMsg(text)]
    } else {
        Seq::empty()
    }
}

/// The events that a message gives after its raw delivery. Replies meant
/// for another client give none; a notice may also be meant for `*`.
pub open spec fn semantic_events(st: SessionModel, m: MessageModel) -> Seq<EventModel> {
    let nick = st.nickname;
    let out_of_order = seq![EventModel::Failure(Error::MotdOutOfOrder)];
    match m.command {
        CommandModel::Notice(t, x) => if t == nick || t == wildcard() {
            seq![EventModel::Notice(x)]
        } else {
            Seq::empty()
        },
        CommandModel::ErrorMsg(x) => seq![EventModel::ErrorMsg(x)],
        CommandModel::RplWelcome(t, x) => if t == nick {
            seq![EventModel::StatusChange, EventModel::WelcomeMsg(x)]
        } else {
            Seq::empty()
        },
        CommandModel::RplYourHost(t, x) => welcome_if(t == nick, x),
        CommandModel::RplCreated(t, x) => welcome_if(t == nick, x),
        CommandModel::RplMyInfo { .. } => Seq::empty(),
        CommandModel::RplISupport(t, caps, x) => welcome_if(
            t == nick,
            with_text(joined_caps(caps), x),
        ),
        CommandModel::RplLUserClient(t, x) => welcome_if(t == nick, x),
        CommandModel::RplLUserOp(t, n, x) => welcome_if(t == nick, with_text(decimal(n as nat), x)),
        CommandModel::RplLUserUnknown(t, n, x) => welcome_if(
            t == nick,
            with_text(decimal(n as nat), x),
        ),
        CommandModel::RplLUserChannels(t, n, x) => welcome_if(
            t == nick,
            with_text(decimal(n as nat), x),
        ),
        CommandModel::RplLUserMe(t, x) => welcome_if(t == nick, x),
        CommandModel::RplLocalUsers(t, _, x) => welcome_if(t == nick, x),
        CommandModel::RplGlobalUsers(t, _, x) => welcome_if(t == nick, x),
        CommandModel::RplMotdStart(t, _) => if t == nick && !(st.motd is Empty) {
            out_of_order
        } else {
            Seq::empty()
        },
        CommandModel::RplMotd(t, _) => if t == nick && !(st.motd is Building) {
            out_of_order
        } else {
            Seq::empty()
        },
        CommandModel::RplEndOfMotd(t, _) => if t == nick {
            if st.motd is Building {
                seq![EventModel::Motd]
            } else {
                out_of_order
            }
        } else {
            Seq::empty()
        },
        CommandModel::RplHostHidden(t, h, x) => welcome_if(t == nick, with_text(h, x)),
        CommandModel::Ping(_) => Seq::empty(),
        _ => seq![EventModel::UnhandledMessage(m)],
    }
}

/// The keepalive answer to `PING :token`: `PONG :token` and the line end.
pub open spec fn pong_line(token: Seq<char>) -> Seq<char> {
    word_pong() + seq![' ', ':'] + token + crlf()
}

pub open spec fn bare(c: CommandModel) -> MessageModel {
    MessageModel { tags: Seq::empty(), prefix: None, command: c }
}

// ---- Executable parts ----

fn joined_caps_string(caps: &Vec<String>) -> (r: String)
    ensures
        r@ == joined_caps(strings_view(caps@)),
{
    let ghost cs = strings_view(caps@);
    let mut out = String::new();
    let mut i: usize = 0;
    proof {
        reveal_strlit(", ");
    }
    while i < caps.len()
        invariant
            i <= caps.len(),
            cs == strings_view(caps@),
            out@ == joined_caps(cs.take(i as int)),
        decreases caps.len() - i,
    {
        proof {
            reveal_strlit(", ");
        }
        if i > 0 {
            out.append(", ");
        }
        out.append(caps[i].as_str());
        proof {
            assert(cs[i as int] == caps@[i as int]@);
            assert(cs.take(i as int + 1).drop_last() =~= cs.take(i as int));
            if i == 0 {
                assert(joined_caps(cs.take(0)) =~= Seq::<char>::empty());
                assert(out@ =~= joined_caps(cs.take(1)));
            } else {
                assert(out@ =~= joined_caps(cs.take(i as int + 1)));
            }
        }
        i = i + 1;
    }
    assert(cs.take(caps.len() as int) =~= cs);
    out
}

fn with_text_string(head: String, text: &String) -> (r: String)
    ensures
        r@ == with_text(head@, text@),
{
    let mut r = head;
    proof {
        reveal_strlit(" ");
    }
    r.append(" ");
    r.append(text.as_str());
    assert(r@ =~= with_text(head@, text@));
    r
}

fn welcome(ours: bool, text: String) -> (r: Vec<Event>)
    ensures
        events_view(r@) == welcome_if(ours, text@),
{
    let mut v: Vec<Event> = Vec::new();
    if ours {
        v.push(Event::WelcomeMsg(text));
    }
    assert(events_view(v@) =~= welcome_if(ours, text@));
    v
}

fn single(e: Event) -> (r: Vec<Event>)
    ensures
        events_view(r@) == seq![e@],
{
    let mut v: Vec<Event> = Vec::new();
    v.push(e);
    assert(events_view(v@) =~= seq![e@]);
    v
}

fn no_events() -> (r: Vec<Event>)
    ensures
        events_view(r@) == Seq::<EventModel>::empty(),
{
    let v: Vec<Event> = Vec::new();
    assert(events_view(v@) =~= Seq::<EventModel>::empty());
    v
}

fn copy_motd(m: &Motd) -> (r: Motd)
    ensures
        r@ == m@,
{
    match m {
        Motd::Empty => Motd::Empty,
        Motd::Building(s) => Motd::Building(s.clone()),
        Motd::Done(s) => Motd::Done(s.clone()),
    }
}

impl Session {
    /// A connection that has not been registered yet. The username and the
    /// real name default to the nickname.
    pub fn new(nickname: String, username: Option<String>, realname: Option<String>) -> (r: Session)
        ensures
            r@.nickname == nickname@,
            r@.username == (match opt_view(username) {
                Some(u) => u,
                None => nickname@,
            }),
            r@.realname == (match opt_view(realname) {
                Some(u) => u,
                None => nickname@,
            }),
            r@.status == ConnectionStatus::Connecting,
            r@.motd == MotdModel::Empty,
            r@.server_name.len() == 0,
            r@.server_version.len() == 0,
            r@.umodes.len() == 0,
            r@.cmodes.len() == 0,
            r@.cmodes_params.len() == 0,
    {
        let username = match username {
            Some(u) => u,
            None => nickname.clone(),
        };
        let realname = match realname {
            Some(u) => u,
            None => nickname.clone(),
        };
        Session {
            nickname,
            username,
            realname,
            status: ConnectionStatus::Connecting,
            motd: Motd::Empty,
            server_name: String::new(),
            server_version: String::new(),
            umodes: String::new(),
            cmodes: String::new(),
            cmodes_params: String::new(),
        }
    }

    /// A snapshot of the status and the message of the day.
    pub fn context(&self) -> (r: Context)
        ensures
            r@ == context_of(self@),
    {
        Context { status: self.status, motd: copy_motd(&self.motd) }
    }

    fn ours(&self, target: &String) -> (r: bool)
        ensures
            r == (target@ == self@.nickname),
    {
        same_text(target.as_str(), self.nickname.as_str())
    }

    /// The message-of-the-day replies.
    fn motd_step(&mut self, c: &IrcCommand) -> (r: Vec<Event>)
        requires
            c is RplMotdStart || c is RplMotd || c is RplEndOfMotd,
        ensures
            final(self)@ == next_state(old(self)@, c@),
            events_view(r@) == semantic_events(old(self)@, bare(c@)),
    {
        proof {
            reveal_strlit("\n");
        }
        match c {
            IrcCommand::RplMotdStart(t, x) => {
                if self.ours(t) {
                    if let Motd::Empty = self.motd {
                        let mut b = x.clone();
                        b.append("\n");
                        assert(b@ =~= x@ + newline());
                        self.motd = Motd::Building(b);
                        no_events()
                    } else {
                        single(Event::Failure(Error::MotdOutOfOrder))
                    }
                } else {
                    no_events()
                }
            },
            IrcCommand::RplMotd(t, x) => {
                if self.ours(t) {
                    let next = match &self.motd {
                        Motd::Building(b) => {
                            let mut nb = b.clone();
                            nb.append(x.as_str());
                            nb.append("\n");
                            assert(nb@ =~= b@ + x@ + newline());
                            Some(nb)
                        },
                        _ => None,
                    };
                    match next {
                        Some(nb) => {
                            self.motd = Motd::Building(nb);
                            no_events()
                        },
                        None => single(Event::Failure(Error::MotdOutOfOrder)),
                    }
                } else {
                    no_events()
                }
            },
            IrcCommand::RplEndOfMotd(t, x) => {
                if self.ours(t) {
                    let next = match &self.motd {
                        Motd::Building(b) => {
                            let mut nb = b.clone();
                            nb.append(x.as_str());
                            Some(nb)
                        },
                        _ => None,
                    };
                    match next {
                        Some(nb) => {
                            self.motd = Motd::Done(nb);
                            single(Event::Motd)
                        },
                        None => single(Event::Failure(Error::MotdOutOfOrder)),
                    }
                } else {
                    no_events()
                }
            },
            _ => no_events(),
        }
    }

    /// What a message does to the state, and the events it gives after its
    /// raw delivery.
    fn apply(&mut self, m: &IrcMessage) -> (r: Vec<Event>)
        ensures
            final(self)@ == next_state(old(self)@, m@.command),
            events_view(r@) == semantic_events(old(self)@, m@),
    {
        match &m.command {
            IrcCommand::Notice(t, x) => {
                proof {
                    reveal_strlit("*");
                    assert("*"@ =~= wildcard());
                }
                if self.ours(t) || same_text(t.as_str(), "*") {
                    single(Event::Notice(x.clone()))
                } else {
                    no_events()
                }
            },
            IrcCommand::ErrorMsg(x) => single(Event::ErrorMsg(x.clone())),
            IrcCommand::RplWelcome(t, x) => {
                if self.ours(t) {
                    self.status = ConnectionStatus::Connected;
                    let mut v = single(Event::StatusChange);
                    let ghost before = events_view(v@);
                    let e = Event::WelcomeMsg(x.clone());
                    v.push(e);
                    assert(events_view(v@) =~= before.push(e@));
                    assert(events_view(v@) =~= seq![EventModel::StatusChange, EventModel::WelcomeMsg(x@)]);
                    v
                } else {
                    no_events()
                }
            },
            IrcCommand::RplYourHost(t, x) => welcome(self.ours(t), x.clone()),
            IrcCommand::RplCreated(t, x) => welcome(self.ours(t), x.clone()),
            IrcCommand::RplLUserClient(t, x) => welcome(self.ours(t), x.clone()),
            IrcCommand::RplLUserMe(t, x) => welcome(self.ours(t), x.clone()),
            IrcCommand::RplLocalUsers(t, _, x) => welcome(self.ours(t), x.clone()),
            IrcCommand::RplGlobalUsers(t, _, x) => welcome(self.ours(t), x.clone()),
            IrcCommand::RplISupport(t, caps, x) => welcome(
                self.ours(t),
                with_text_string(joined_caps_string(caps), x),
            ),
            IrcCommand::RplLUserOp(t, n, x) => welcome(
                self.ours(t),
                with_text_string(decimal_string(*n), x),
            ),
            IrcCommand::RplLUserUnknown(t, n, x) => welcome(
                self.ours(t),
                with_text_string(decimal_string(*n), x),
            ),
            IrcCommand::RplLUserChannels(t, n, x) => welcome(
                self.ours(t),
                with_text_string(decimal_string(*n), x),
            ),
            IrcCommand::RplHostHidden(t, h, x) => welcome(
                self.ours(t),
                with_text_string(h.clone(), x),
            ),
            IrcCommand::RplMyInfo {
                client,
                server_name,
                server_version,
                umodes,
                cmodes,
                cmodes_params,
            } => {
                if self.ours(client) {
                    self.server_name = server_name.clone();
                    self.server_version = server_version.clone();
                    self.umodes = umodes.clone();
                    self.cmodes = cmodes.clone();
                    match cmodes_params {
                        Some(p) => {
                            self.cmodes_params = p.clone();
                        },
                        None => {},
                    }
                }
                no_events()
            },
            IrcCommand::RplMotdStart(_, _) => self.motd_step(&m.command),
            IrcCommand::RplMotd(_, _) => self.motd_step(&m.command),
            IrcCommand::RplEndOfMotd(_, _) => self.motd_step(&m.command),
            IrcCommand::Ping(_) => no_events(),
            _ => single(Event::UnhandledMessage(m.duplicate())),
        }
    }

    /// Dispatches one parsed message: the state changes first, then the
    /// snapshot is taken; the raw message comes before the events derived
    /// from it; a `PING` is answered with the matching `PONG` line.
    pub fn handle(&mut self, message: IrcMessage) -> (r: Reaction)
        ensures
            final(self)@ == next_state(old(self)@, message@.command),
            events_view(r.events@) == seq![EventModel::RawMessage(message@)] + semantic_events(
                old(self)@,
                message@,
            ),
            r.context@ == context_of(final(self)@),
            match message@.command {
                CommandModel::Ping(t) => r.reply matches Some(l) && l@ == pong_line(t),
                _ => r.reply is None,
            },
    {
        let mut events = single(Event::RawMessage(message.duplicate()));
        let ghost first = events_view(events@);
        let mut rest = self.apply(&message);
        let ghost second = events_view(rest@);
        events.append(&mut rest);
        assert(events_view(events@) =~= first + second);
        let reply = match &message.command {
            IrcCommand::Ping(t) => Some(pong_reply(t)),
            _ => None,
        };
        Reaction { context: self.context(), events, reply }
    }

    /// Reads one received line and dispatches it. A line that cannot be
    /// read is reported to observers and changes nothing.
    pub fn receive(&mut self, line: &str) -> (r: Reaction)
        ensures
            r.events@.len() >= 1,
            r.context@ == context_of(final(self)@),
            match r.events@[0]@ {
                EventModel::RawMessage(m) => {
                    &&& parsed_as(line@, m)
                    &&& final(self)@ == next_state(old(self)@, m.command)
                    &&& events_view(r.events@) == seq![EventModel::RawMessage(m)]
                        + semantic_events(old(self)@, m)
                    &&& match m.command {
                        CommandModel::Ping(t) => r.reply matches Some(l) && l@ == pong_line(t),
                        _ => r.reply is None,
                    }
                },
                EventModel::Failure(_) => {
                    &&& final(self)@ == old(self)@
                    &&& r.events@.len() == 1
                    &&& r.reply is None
                    &&& (forall|m: MessageModel| !parsed_as(line@, m))
                },
                _ => false,
            },
    {
        match IrcMessage::parse(line) {
            Ok(m) => {
                let ghost mv = m@;
                let r = self.handle(m);
                assert(events_view(r.events@).len() == r.events@.len());
                assert(r.events@[0]@ == events_view(r.events@)[0]);
                r
            },
            Err(e) => {
                proof {
                    assert forall|m: MessageModel| !parsed_as(line@, m) by {
                        if parsed_as(line@, m) {
                            lemma_parsed_as_means_ok(line@, m);
                        }
                    }
                }
                let r = self.failure(e);
                assert(events_view(r.events@).len() == r.events@.len());
                assert(r.events@[0]@ == events_view(r.events@)[0]);
                r
            },
        }
    }

    /// Reports a line that could not be read.
    pub fn failure(&self, e: Error) -> (r: Reaction)
        ensures
            events_view(r.events@) == seq![EventModel::Failure(e)],
            r.context@ == context_of(self@),
            r.reply is None,
    {
        Reaction { context: self.context(), events: single(Event::Failure(e)), reply: None }
    }

    /// The first event of a connection: its status, before any line is read.
    pub fn started(&self) -> (r: Reaction)
        ensures
            events_view(r.events@) == seq![EventModel::StatusChange],
            r.context@ == context_of(self@),
            r.reply is None,
    {
        Reaction { context: self.context(), events: single(Event::StatusChange), reply: None }
    }

    /// The transport failed or closed: the connection is over.
    pub fn disconnect(&mut self) -> (r: Reaction)
        ensures
            final(self)@ == set_status(old(self)@, ConnectionStatus::Disconnected),
            events_view(r.events@) == seq![EventModel::StatusChange],
            r.context@ == context_of(final(self)@),
            r.reply is None,
    {
        self.status = ConnectionStatus::Disconnected;
        Reaction { context: self.context(), events: single(Event::StatusChange), reply: None }
    }

    /// The registration lines, `NICK` then `USER`. Fails with `Invalid`
    /// where the username holds a space.
    pub fn registration(&self) -> (r: Result<(String, String), Error>)
        ensures
            r is Err <==> !writable(demote(CommandModel::User(self@.username, self@.realname))),
            r matches Ok((n, u)) ==> n@ == line_text(bare(CommandModel::Nick(self@.nickname)))
                && u@ == line_text(bare(CommandModel::User(self@.username, self@.realname))),
            r matches Err(e) ==> e == Error::Invalid,
    {
        let nick = IrcMessage {
            tags: Vec::new(),
            prefix: None,
            command: IrcCommand::Nick(self.nickname.clone()),
        };
        let user = IrcMessage {
            tags: Vec::new(),
            prefix: None,
            command: IrcCommand::User(self.username.clone(), self.realname.clone()),
        };
        assert(nick@.tags =~= Seq::empty());
        assert(user@.tags =~= Seq::empty());
        assert(nick@ == bare(CommandModel::Nick(self@.nickname)));
        assert(user@ == bare(CommandModel::User(self@.username, self@.realname)));
        let n = nick.to_line()?;
        let u = user.to_line()?;
        Ok((n, u))
    }
}

/// The line that answers `PING :token`.
fn pong_reply(token: &String) -> (r: String)
    ensures
        r@ == pong_line(token@),
{
    let m = IrcMessage { tags: Vec::new(), prefix: None, command: IrcCommand::Pong(token.clone()) };
    assert(m@.tags =~= Seq::empty());
    assert(m@ == bare(CommandModel::Pong(token@)));
    match m.to_line() {
        Ok(l) => {
            assert(l@ =~= pong_line(token@));
            l
        },
        Err(_) => owned(""),
    }
}

} // verus!
