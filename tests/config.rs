use irc_client::config::{IrcConfigBuilder, IrcConfigBuilderError};

#[test]
fn build_needs_address_and_username() {
    let b: IrcConfigBuilder<u32> = IrcConfigBuilder::new();
    assert_eq!(b.build(), Err(IrcConfigBuilderError::ServerAddressMissing));
    let mut b: IrcConfigBuilder<u32> = IrcConfigBuilder::new();
    b.server_address = Some(6667);
    assert_eq!(b.clone().build(), Err(IrcConfigBuilderError::UsernameMissing));
    b.username("user".to_string());
    let c = b.clone().build().unwrap();
    assert_eq!(c.server_address, 6667);
    assert_eq!(c.username, "user");
    assert_eq!(c.nickname, "user");
    assert_eq!(c.password, None);
    b.nickname("nick".to_string());
    b.password(Some("pw".to_string()));
    let c = b.build().unwrap();
    assert_eq!(c.nickname, "nick");
    assert_eq!(c.password, Some("pw".to_string()));
}
