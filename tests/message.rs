use irc_client::{GenericIrcCommand, GenericIrcCommandType, IrcCommand, IrcMessage};

fn generic(code: GenericIrcCommandType, params: Vec<&str>, trailing: Option<&str>) -> IrcCommand {
    IrcCommand::Generic(GenericIrcCommand {
        command: code,
        params: params.into_iter().map(|p| p.to_string()).collect(),
        trailing: trailing.map(|t| t.to_string()),
    })
}

#[test]
fn from_string() {
    assert_eq!(
        IrcMessage::parse("LEAVE\r\n"),
        Ok(IrcMessage {
            tags: vec![],
            prefix: None,
            command: generic(GenericIrcCommandType::Text("LEAVE".to_string()), vec![], None),
        })
    );

    assert_eq!(
        IrcMessage::parse(":server PRIVMSG #meme :11/10 cock\r\n"),
        Ok(IrcMessage {
            tags: vec![],
            prefix: Some("server".to_string()),
            command: generic(
                GenericIrcCommandType::Text("PRIVMSG".to_string()),
                vec!["#meme"],
                Some("11/10 cock"),
            ),
        })
    );

    assert_eq!(
        IrcMessage::parse(":server 404 :shit\r\n"),
        Ok(IrcMessage {
            tags: vec![],
            prefix: Some("server".to_string()),
            command: generic(GenericIrcCommandType::Number(404), vec![], Some("shit")),
        })
    );

    assert_eq!(
        IrcMessage::parse("@foo;bar;test_tag=plumbus :127.0.0.1 MSG #rust :rustaceans rise!\r\n"),
        Ok(IrcMessage {
            tags: vec![
                ("foo".to_string(), None),
                ("bar".to_string(), None),
                ("test_tag".to_string(), Some("plumbus".to_string())),
            ],
            prefix: Some("127.0.0.1".to_string()),
            command: generic(
                GenericIrcCommandType::Text("MSG".to_string()),
                vec!["#rust"],
                Some("rustaceans rise!"),
            ),
        })
    );

    assert_eq!(
        IrcMessage::parse(":*.freenode.net NOTICE * :*** Looking up your ident...\r\n"),
        Ok(IrcMessage {
            tags: vec![],
            prefix: Some("*.freenode.net".to_string()),
            command: IrcCommand::Notice("*".to_string(), "*** Looking up your ident...".to_string()),
        })
    );

    assert_eq!(
        IrcMessage::parse("ERROR :Closing link: (~mct33@220.233.11.197) [Registration timeout]\r\n"),
        Ok(IrcMessage {
            tags: vec![],
            prefix: None,
            command: IrcCommand::ErrorMsg(
                "Closing link: (~mct33@220.233.11.197) [Registration timeout]".to_string()
            ),
        })
    );
}

#[test]
fn to_string() {
    assert_eq!(
        "LEAVE\r\n".to_string(),
        IrcMessage {
            tags: vec![],
            prefix: None,
            command: generic(GenericIrcCommandType::Text("LEAVE".to_string()), vec![], None),
        }
        .to_line()
        .unwrap()
    );

    assert_eq!(
        ":server MSG #meme :11/10 cock\r\n".to_string(),
        IrcMessage {
            tags: vec![],
            prefix: Some("server".to_string()),
            command: generic(
                GenericIrcCommandType::Text("MSG".to_string()),
                vec!["#meme"],
                Some("11/10 cock"),
            ),
        }
        .to_line()
        .unwrap()
    );

    assert_eq!(
        ":server 404 :shit\r\n".to_string(),
        IrcMessage {
            tags: vec![],
            prefix: Some("server".to_string()),
            command: generic(GenericIrcCommandType::Number(404), vec![], Some("shit")),
        }
        .to_line()
        .unwrap()
    );

    assert_eq!(
        "@foo;bar;test_tag=plumbus :127.0.0.1 MSG #rust :rustaceans rise!\r\n".to_string(),
        IrcMessage {
            tags: vec![
                ("foo".to_string(), None),
                ("bar".to_string(), None),
                ("test_tag".to_string(), Some("plumbus".to_string())),
            ],
            prefix: Some("127.0.0.1".to_string()),
            command: generic(
                GenericIrcCommandType::Text("MSG".to_string()),
                vec!["#rust"],
                Some("rustaceans rise!"),
            ),
        }
        .to_line()
        .unwrap()
    );
}

#[test]
fn message_variants() {
    assert_eq!(
        IrcCommand::Pass("password123".to_string()),
        IrcCommand::from_generic(GenericIrcCommand {
            command: GenericIrcCommandType::Text("PASS".to_string()),
            params: vec!["password123".to_string()],
            trailing: None,
        })
        .unwrap()
    );

    assert_eq!(
        IrcCommand::Nick("Jimmy".to_string()),
        IrcCommand::from_generic(GenericIrcCommand {
            command: GenericIrcCommandType::Text("NICK".to_string()),
            params: vec!["Jimmy".to_string()],
            trailing: None,
        })
        .unwrap()
    );

    assert_eq!(
        IrcCommand::User("Jim1982".to_string(), "James Bond".to_string()),
        IrcCommand::from_generic(GenericIrcCommand {
            command: GenericIrcCommandType::Text("USER".to_string()),
            params: vec!["Jim1982".to_string(), "James Bond".to_string()],
            trailing: None,
        })
        .unwrap()
    );

    assert_eq!(
        IrcCommand::Pass("password123".to_string()).to_text().unwrap(),
        "PASS password123".to_string()
    );

    assert_eq!(IrcCommand::Nick("Jimmy".to_string()).to_text().unwrap(), "NICK Jimmy".to_string());

    assert_eq!(
        IrcCommand::User("Jim1982".to_string(), "James Bond".to_string()).to_text().unwrap(),
        "USER Jim1982 0 * :James Bond".to_string()
    );
}
