use irc_client::messages::replys::{ErrorReply, Reply};
use irc_client::messages::Command;
use irc_client::users::{User, UserFlags};
use irc_client::{ConnectionStatus, Error, Event, IrcCommand, IrcMessage, Motd, Session};

fn session() -> Session {
    Session::new("nick".to_string(), None, None)
}

fn bare(command: IrcCommand) -> IrcMessage {
    IrcMessage { tags: vec![], prefix: None, command }
}

#[test]
fn new_session_defaults_to_nickname() {
    let s = Session::new("nick".to_string(), Some("user".to_string()), None);
    assert_eq!(s.username, "user");
    assert_eq!(s.realname, "nick");
    assert_eq!(s.status, ConnectionStatus::Connecting);
    assert_eq!(s.motd, Motd::Empty);
}

#[test]
fn notice_for_another_target_gives_only_the_raw_event() {
    let mut s = session();
    let m = bare(IrcCommand::Notice("someone".to_string(), "hi".to_string()));
    let r = s.handle(m.clone());
    assert_eq!(r.events, vec![Event::RawMessage(m)]);
}

#[test]
fn notice_for_us_or_everyone_gives_a_notice_event() {
    let mut s = session();
    let m = bare(IrcCommand::Notice("*".to_string(), "hi".to_string()));
    let r = s.handle(m.clone());
    assert_eq!(r.events, vec![Event::RawMessage(m), Event::Notice("hi".to_string())]);
    let m = bare(IrcCommand::Notice("nick".to_string(), "yo".to_string()));
    let r = s.handle(m.clone());
    assert_eq!(r.events, vec![Event::RawMessage(m), Event::Notice("yo".to_string())]);
}

#[test]
fn motd_accumulates_and_ends_once() {
    let mut s = session();
    let r1 = s.handle(bare(IrcCommand::RplMotdStart("nick".to_string(), "Welcome".to_string())));
    assert_eq!(s.motd, Motd::Building("Welcome\n".to_string()));
    let r2 = s.handle(bare(IrcCommand::RplMotd("nick".to_string(), "line2".to_string())));
    assert_eq!(s.motd, Motd::Building("Welcome\nline2\n".to_string()));
    let r3 = s.handle(bare(IrcCommand::RplEndOfMotd("nick".to_string(), "bye".to_string())));
    assert_eq!(s.motd, Motd::Done("Welcome\nline2\nbye".to_string()));
    let motd_events = |r: &irc_client::Reaction| r.events.iter().filter(|e| **e == Event::Motd).count();
    assert_eq!(motd_events(&r1), 0);
    assert_eq!(motd_events(&r2), 0);
    assert_eq!(motd_events(&r3), 1);
    assert_eq!(r3.context.motd, Motd::Done("Welcome\nline2\nbye".to_string()));
}

#[test]
fn motd_line_before_start_is_reported() {
    let mut s = session();
    let m = bare(IrcCommand::RplMotd("nick".to_string(), "line2".to_string()));
    let r = s.handle(m.clone());
    assert_eq!(r.events, vec![Event::RawMessage(m), Event::Failure(Error::MotdOutOfOrder)]);
    assert_eq!(s.motd, Motd::Empty);
}

#[test]
fn second_motd_start_is_reported_and_keeps_the_text() {
    let mut s = session();
    s.handle(bare(IrcCommand::RplMotdStart("nick".to_string(), "a".to_string())));
    let m = bare(IrcCommand::RplMotdStart("nick".to_string(), "b".to_string()));
    let r = s.handle(m.clone());
    assert_eq!(r.events, vec![Event::RawMessage(m), Event::Failure(Error::MotdOutOfOrder)]);
    assert_eq!(s.motd, Motd::Building("a\n".to_string()));
}

#[test]
fn ping_is_answered_with_pong() {
    let mut s = session();
    let r = s.receive("PING :token\r\n");
    assert_eq!(r.reply, Some("PONG :token\r\n".to_string()));
    assert_eq!(r.events, vec![Event::RawMessage(bare(IrcCommand::Ping("token".to_string())))]);
}

#[test]
fn welcome_connects() {
    let mut s = session();
    let r = s.receive(":srv 001 nick :Welcome here\r\n");
    assert_eq!(s.status, ConnectionStatus::Connected);
    assert_eq!(r.context.status, ConnectionStatus::Connected);
    assert_eq!(r.events.len(), 3);
    assert_eq!(r.events[1], Event::StatusChange);
    assert_eq!(r.events[2], Event::WelcomeMsg("Welcome here".to_string()));
}

#[test]
fn welcome_for_another_nick_changes_nothing() {
    let mut s = session();
    let r = s.receive(":srv 001 other :Welcome here\r\n");
    assert_eq!(s.status, ConnectionStatus::Connecting);
    assert_eq!(r.events.len(), 1);
}

#[test]
fn welcome_family_texts() {
    let mut s = session();
    let r = s.receive(":srv 005 nick A=1 B :are supported\r\n");
    assert_eq!(r.events[1], Event::WelcomeMsg("A=1, B are supported".to_string()));
    let r = s.receive(":srv 252 nick 7 :operators online\r\n");
    assert_eq!(r.events[1], Event::WelcomeMsg("7 operators online".to_string()));
    let r = s.receive(":srv 396 nick host.example :is now your host\r\n");
    assert_eq!(r.events[1], Event::WelcomeMsg("host.example is now your host".to_string()));
}

#[test]
fn my_info_fills_server_fields() {
    let mut s = session();
    let r = s.receive(":srv 004 nick irc.example v1.2 iw bklmt bkl\r\n");
    assert_eq!(r.events.len(), 1);
    assert_eq!(s.server_name, "irc.example");
    assert_eq!(s.server_version, "v1.2");
    assert_eq!(s.umodes, "iw");
    assert_eq!(s.cmodes, "bklmt");
    assert_eq!(s.cmodes_params, "bkl");
}

#[test]
fn unknown_command_is_unhandled() {
    let mut s = session();
    let r = s.receive("LEAVE\r\n");
    let m = IrcMessage::parse("LEAVE\r\n").unwrap();
    assert_eq!(r.events, vec![Event::RawMessage(m.clone()), Event::UnhandledMessage(m)]);
}

#[test]
fn unreadable_line_is_reported() {
    let mut s = session();
    let r = s.receive("NICK\r\n");
    assert_eq!(r.events, vec![Event::Failure(Error::Invalid)]);
    assert_eq!(r.reply, None);
}

#[test]
fn disconnect_reports_status() {
    let mut s = session();
    let r = s.disconnect();
    assert_eq!(s.status, ConnectionStatus::Disconnected);
    assert_eq!(r.events, vec![Event::StatusChange]);
    let r = s.started();
    assert_eq!(r.context.status, ConnectionStatus::Disconnected);
}

#[test]
fn registration_lines() {
    let s = Session::new("nick".to_string(), Some("user".to_string()), Some("Real Name".to_string()));
    let (n, u) = s.registration().unwrap();
    assert_eq!(n, "NICK nick\r\n");
    assert_eq!(u, "USER user 0 * :Real Name\r\n");
    let bad = Session::new("nick".to_string(), Some("us er".to_string()), None);
    assert_eq!(bad.registration(), Err(Error::Invalid));
}

#[test]
fn user_commands() {
    let u = User {
        nickname: "n".to_string(),
        username: "u".to_string(),
        hostname: "h".to_string(),
        servername: "s".to_string(),
        realname: "r".to_string(),
        flags: UserFlags::default(),
    };
    assert_eq!(u.nick_command().to_text(), "NICK n");
    assert_eq!(u.user_command().to_text(), "USER u h s r");
}

#[test]
fn replies_as_commands() {
    let r = Reply::Raw(1, vec!["a".to_string(), "b".to_string()]);
    assert_eq!(r.to_text(), "1 a b");
    assert_eq!(r.raw_command(), Command::Raw("1".to_string(), vec!["a".to_string(), "b".to_string()]));
    let e = ErrorReply::Raw(433, vec![]);
    assert_eq!(e.to_text(), "433");
    let c = Command::Reply(Err(ErrorReply::Raw(433, vec!["x".to_string()])));
    assert_eq!(c.to_text(), "433 x");
}
