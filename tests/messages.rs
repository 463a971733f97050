use irc_client::messages::{Command, Message};

#[test]
fn command_fmt_with_prefix() {
    let result = Message {
        prefix: Some("tester".to_string()),
        command: Command::Notice("tester".to_string(), ":This is a test".to_string()),
    };
    assert_eq!(result.to_text(), ":tester NOTICE tester :This is a test");
}

#[test]
fn command_fmt_no_params() {
    let result = Message { prefix: None, command: Command::Quit };
    assert_eq!(result.to_text(), "QUIT");
}

#[test]
fn command_parse() {
    let result = Message::from_str("PRIVMSG #test :This is a test").unwrap();
    assert_eq!(
        result,
        Message {
            prefix: None,
            command: Command::PrivMsg("#test".to_string(), ":This is a test".to_string()),
        }
    )
}

#[test]
fn command_parse_with_prefix() {
    let result = Message::from_str(":tester NOTICE tester :This is a test").unwrap();
    assert_eq!(
        result,
        Message {
            prefix: Some("tester".to_string()),
            command: Command::Notice("tester".to_string(), ":This is a test".to_string()),
        }
    )
}

#[test]
fn command_parse_no_params() {
    let result = Message::from_str("QUIT").unwrap();
    assert_eq!(result, Message { prefix: None, command: Command::Quit })
}
