use irc_client::messages::{Command, Message, ParseCommandError};
use irc_client::{Error, GenericIrcCommand, GenericIrcCommandType, IrcCommand, IrcMessage};

#[test]
fn unknown_command_passes_through() {
    let m = IrcMessage::parse("LEAVE\r\n").unwrap();
    assert_eq!(
        m.command,
        IrcCommand::Generic(GenericIrcCommand {
            command: GenericIrcCommandType::Text("LEAVE".to_string()),
            params: vec![],
            trailing: None,
        })
    );
    assert_eq!(m.to_line().unwrap(), "LEAVE\r\n");
}

#[test]
fn trailing_parameter_round_trips() {
    let line = ":server PRIVMSG #meme :11/10 cock\r\n";
    let m = IrcMessage::parse(line).unwrap();
    assert_eq!(m.prefix, Some("server".to_string()));
    assert_eq!(m.to_line().unwrap(), line);
}

#[test]
fn numeric_codes_are_padded() {
    let g = GenericIrcCommand { command: GenericIrcCommandType::Number(4), params: vec![], trailing: None };
    assert_eq!(g.to_text().unwrap(), "004");
    assert_eq!(GenericIrcCommandType::Number(42).to_text(), "042");
    assert_eq!(GenericIrcCommandType::Number(404).to_text(), "404");
}

#[test]
fn round_trip_of_typed_messages() {
    let commands = vec![
        IrcCommand::RplMyInfo {
            client: "me".to_string(),
            server_name: "srv".to_string(),
            server_version: "1.0".to_string(),
            umodes: "iw".to_string(),
            cmodes: "bk".to_string(),
            cmodes_params: Some("k".to_string()),
        },
        IrcCommand::RplLocalUsers("me".to_string(), Some((3, 10)), "local users".to_string()),
        IrcCommand::RplGlobalUsers("me".to_string(), None, "global".to_string()),
        IrcCommand::RplLUserOp("me".to_string(), 4294967295, "ops".to_string()),
        IrcCommand::RplISupport("me".to_string(), vec!["A=1".to_string(), "B".to_string()], "ok".to_string()),
        IrcCommand::User("u".to_string(), "Real Name".to_string()),
        IrcCommand::Ping("tok".to_string()),
    ];
    for c in commands {
        let m = IrcMessage {
            tags: vec![("k".to_string(), Some("v=1".to_string())), ("flag".to_string(), None)],
            prefix: Some("nick!user@host".to_string()),
            command: c,
        };
        let line = m.clone().to_line().unwrap();
        assert_eq!(IrcMessage::parse(&line), Ok(m));
    }
}

#[test]
fn typed_command_survives_generic_form() {
    let c = IrcCommand::RplLocalUsers("me".to_string(), Some((3, 10)), "users".to_string());
    let g = c.clone().into_generic();
    assert_eq!(g.params, vec!["me".to_string(), "3".to_string(), "10".to_string()]);
    assert_eq!(IrcCommand::from_generic(g), Ok(c));
}

#[test]
fn parse_errors() {
    assert_eq!(IrcMessage::parse("LEAVE"), Err(Error::NoMatch("LEAVE".to_string())));
    assert_eq!(IrcMessage::parse("A\0B\r\n"), Err(Error::NoMatch("A\0B\r\n".to_string())));
    assert_eq!(IrcMessage::parse("@ X\r\n"), Err(Error::NoMatch("@ X\r\n".to_string())));
    assert_eq!(IrcMessage::parse("\r\n"), Err(Error::NoCommand("\r\n".to_string())));
    assert_eq!(IrcMessage::parse(":srv  X\r\n"), Err(Error::NoCommand(":srv  X\r\n".to_string())));
    assert_eq!(IrcMessage::parse("Leave\r\n"), Err(Error::Invalid));
    assert_eq!(IrcMessage::parse("1234 x\r\n"), Err(Error::Invalid));
    assert_eq!(IrcMessage::parse("CMD  a\r\n"), Err(Error::NoMatch("CMD  a\r\n".to_string())));
    assert_eq!(IrcMessage::parse("CMD a :\r\n"), Err(Error::NoMatch("CMD a :\r\n".to_string())));
    assert_eq!(IrcMessage::parse("NICK\r\n"), Err(Error::Invalid));
    assert_eq!(IrcMessage::parse(":s 252 me x :ops\r\n"), Err(Error::Invalid));
    assert_eq!(IrcMessage::parse(":s 265 me 1 :users\r\n"), Err(Error::Invalid));
}

#[test]
fn command_level_parse() {
    assert_eq!(IrcCommand::parse("PING :abc"), Ok(IrcCommand::Ping("abc".to_string())));
    assert_eq!(IrcCommand::parse(""), Err(Error::NoCommand("".to_string())));
    assert_eq!(GenericIrcCommandType::parse("007"), Ok(GenericIrcCommandType::Number(7)));
    assert_eq!(GenericIrcCommandType::parse("ABc"), Err(Error::Invalid));
}

#[test]
fn serialize_rejects_space_in_middle_parameter() {
    let g = GenericIrcCommand {
        command: GenericIrcCommandType::Text("MSG".to_string()),
        params: vec!["a b".to_string(), "c".to_string()],
        trailing: None,
    };
    assert_eq!(g.to_text(), Err(Error::Invalid));
    let last = GenericIrcCommand {
        command: GenericIrcCommandType::Text("MSG".to_string()),
        params: vec!["a".to_string(), "c d".to_string()],
        trailing: None,
    };
    assert_eq!(last.to_text(), Ok("MSG a :c d".to_string()));
}

#[test]
fn counts_are_read_as_std_does() {
    assert_eq!(
        IrcMessage::parse(":s 252 me +07 :ops\r\n").unwrap().command,
        IrcCommand::RplLUserOp("me".to_string(), 7, "ops".to_string())
    );
    assert_eq!(IrcMessage::parse(":s 252 me 4294967296 :ops\r\n"), Err(Error::Invalid));
}

#[test]
fn plain_form_errors_and_raw() {
    assert_eq!(Message::from_str("   "), Err(ParseCommandError));
    assert_eq!(Message::from_str("NICK"), Err(ParseCommandError));
    assert_eq!(Message::from_str(":onlyprefix"), Err(ParseCommandError));
    assert_eq!(
        Message::from_str("FOO a\tb  :c d").unwrap(),
        Message {
            prefix: None,
            command: Command::Raw("FOO".to_string(), vec!["a".to_string(), "b".to_string(), ":c d".to_string()]),
        }
    );
    assert_eq!(
        Command::User("a".to_string(), "b".to_string(), "c".to_string(), "d".to_string()).raw(),
        Command::Raw("USER".to_string(), vec!["a".to_string(), "b".to_string(), "c".to_string(), "d".to_string()])
    );
}

#[test]
fn error_sentences() {
    assert_eq!(Error::NoMatch("x".to_string()).to_text(), "Message \"x\" did not match the line grammar!");
    assert_eq!(Error::NoCommand("y".to_string()).to_text(), "Message \"y\" is missing command!");
    assert_eq!(Error::Invalid.to_text(), "Invalid string!");
    assert_eq!(Error::MotdOutOfOrder.to_text(), "Message of the day out of order!");
}

#[test]
fn serialize_rejects_spaced_parameter_before_trailing() {
    let g = GenericIrcCommand {
        command: GenericIrcCommandType::Text("X".to_string()),
        params: vec!["a b".to_string()],
        trailing: Some("c".to_string()),
    };
    assert_eq!(g.clone().to_text(), Err(Error::Invalid));
    let m = IrcMessage { tags: vec![], prefix: None, command: IrcCommand::Generic(g) };
    assert_eq!(m.to_line(), Err(Error::Invalid));
    let fine = GenericIrcCommand {
        command: GenericIrcCommandType::Text("X".to_string()),
        params: vec!["a".to_string(), "b".to_string()],
        trailing: Some("c d".to_string()),
    };
    assert_eq!(fine.to_text(), Ok("X a b :c d".to_string()));
}
