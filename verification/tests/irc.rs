use twitch_chat::error::MessageParseError;
use twitch_chat::irc::{parse_message, parse_source, split_line, IRCMessage, LineParts, Source};
use twitch_chat::tags::{Badge, UserType};

#[test]
fn test_parse_source() {
    let expected = Source {
        nick: Some(String::from("bytebot_0x0f")),
        host: String::from("bytebot_0x0f@bytebot_0x0f.tmi.twitch.tv"),
    };

    let actual = parse_source("bytebot_0x0f!bytebot_0x0f@bytebot_0x0f.tmi.twitch.tv");

    assert_eq!(expected, actual);
}

#[test]
fn test_is_not_mod() {
    let actual = parse_message(
        "@user-type=;user-id=1;badges=;mod=0;returning-chatter=0;first-msg=1;turbo=0;subscriber=0;display-name=abc \
        :abc!abc@abc.tmi.twitch.tv PRIVMSG #xyz :HeyGuys"
    )
        .unwrap();

    assert!(matches!(actual, IRCMessage::Privmsg { .. }));
    if let IRCMessage::Privmsg { user_context, .. } = actual {
        assert_eq!(user_context.is_mod, false);
    }
}

#[test]
fn test_is_mod() {
    let actual = parse_message(
        "@user-type=;user-id=1;badges=broadcaster/1;mod=1;returning-chatter=0;first-msg=1;turbo=0;subscriber=0;display-name=abc \
        :abc!abc@abc.tmi.twitch.tv PRIVMSG #xyz :HeyGuys"
    )
        .unwrap();

    assert!(matches!(actual, IRCMessage::Privmsg { .. }));
    if let IRCMessage::Privmsg { user_context, .. } = actual {
        assert_eq!(user_context.is_mod, true);
    }
}

#[test]
fn test_is_not_broadcaster() {
    let actual = parse_message(
        "@user-type=;user-id=1;badges=;mod=0;returning-chatter=1;first-msg=0;turbo=0;subscriber=0;display-name=abc \
        :abc!abc@abc.tmi.twitch.tv PRIVMSG #xyz :HeyGuys"
    )
        .unwrap();

    assert!(matches!(actual, IRCMessage::Privmsg { .. }));
    if let IRCMessage::Privmsg { user_context, .. } = actual {
        assert_eq!(user_context.is_broadcaster, false);
    }
}

#[test]
fn test_is_broadcaster() {
    let actual = parse_message(
        "@user-type=;user-id=1;badges=broadcaster/1;mod=0;returning-chatter=1;first-msg=0;turbo=0;subscriber=0;display-name=abc \
        :abc!abc@abc.tmi.twitch.tv PRIVMSG #xyz :HeyGuys"
    )
        .unwrap();

    assert!(matches!(actual, IRCMessage::Privmsg { .. }));
    if let IRCMessage::Privmsg { user_context, .. } = actual {
        assert_eq!(user_context.is_broadcaster, true);
    }
}

#[test]
fn test_user_details() {
    let actual = parse_message(
        "@user-type=;user-id=1;badges=;mod=0;returning-chatter=1;first-msg=0;turbo=1;subscriber=1;display-name=abc \
        :abc!abc@abc.tmi.twitch.tv PRIVMSG #xyz :HeyGuys"
    )
        .unwrap();

    assert!(matches!(actual, IRCMessage::Privmsg { .. }));
    if let IRCMessage::Privmsg { user_context, .. } = actual {
        assert_eq!(user_context.username, "abc".to_string());
        assert_eq!(user_context.user_id, "1".to_string());
        assert_eq!(user_context.is_returning_chatter, true);
        assert_eq!(user_context.is_first_message, false);
        assert_eq!(user_context.is_turbo, true);
        assert_eq!(user_context.is_subscriber, true);
    }
}

const CHAT_TAGS: &str =
    "@user-type=;user-id=1;badges=broadcaster/1;mod=0;returning-chatter=1;first-msg=0;turbo=0;subscriber=0;display-name=abc";

fn parts(
    tags: Option<&str>,
    source: Option<&str>,
    command: &str,
    trailing: Option<&str>,
) -> LineParts {
    LineParts {
        tags: tags.map(String::from),
        source: source.map(String::from),
        command: String::from(command),
        trailing: trailing.map(String::from),
    }
}

#[test]
fn source_with_nick() {
    let source = parse_source("nick!nick@host.example");
    assert_eq!(source.nick, Some(String::from("nick")));
    assert_eq!(source.host, String::from("nick@host.example"));
}

#[test]
fn source_without_nick() {
    let source = parse_source("host.example");
    assert_eq!(source.nick, None);
    assert_eq!(source.host, String::from("host.example"));
}

#[test]
fn source_splits_at_first_bang_only() {
    let source = parse_source("a!b!c");
    assert_eq!(source.nick, Some(String::from("a")));
    assert_eq!(source.host, String::from("b!c"));
}

#[test]
fn source_edges() {
    assert_eq!(parse_source(""), Source { nick: None, host: String::new() });
    assert_eq!(parse_source("!"), Source { nick: Some(String::new()), host: String::new() });
    assert_eq!(parse_source("n!"), Source { nick: Some(String::from("n")), host: String::new() });
}

#[test]
fn split_line_full() {
    assert_eq!(
        split_line("@a=b;c=d :nick!host PRIVMSG #chan :hello world"),
        parts(Some("a=b;c=d"), Some("nick!host"), "PRIVMSG #chan", Some("hello world"))
    );
}

#[test]
fn split_line_without_tags_or_source() {
    assert_eq!(
        split_line("PING :tmi.twitch.tv"),
        parts(None, None, "PING", Some("tmi.twitch.tv"))
    );
}

#[test]
fn split_line_command_only() {
    assert_eq!(split_line("RECONNECT"), parts(None, None, "RECONNECT", None));
    assert_eq!(split_line(":tmi.twitch.tv RECONNECT"), parts(None, Some("tmi.twitch.tv"), "RECONNECT", None));
}

#[test]
fn split_line_trailing_is_verbatim() {
    assert_eq!(
        split_line(":h NOTICE * :a :b  c: "),
        parts(None, Some("h"), "NOTICE *", Some("a :b  c: "))
    );
    assert_eq!(split_line("PING :"), parts(None, None, "PING", Some("")));
}

#[test]
fn split_line_trims_spaces_behind_the_command() {
    assert_eq!(split_line("PING   :x"), parts(None, None, "PING", Some("x")));
    assert_eq!(split_line("JOIN #a  "), parts(None, None, "JOIN #a", None));
}

#[test]
fn split_line_colon_without_space_is_part_of_the_command() {
    assert_eq!(split_line("CAP:x"), parts(None, None, "CAP:x", None));
}

#[test]
fn split_line_segments_without_a_command() {
    assert_eq!(split_line(""), parts(None, None, "", None));
    assert_eq!(split_line("@a=b"), parts(Some("a=b"), None, "", None));
    assert_eq!(split_line("@a=b "), parts(Some("a=b"), None, "", None));
    assert_eq!(split_line("@a=b :src"), parts(Some("a=b"), Some("src"), "", None));
    assert_eq!(split_line(":src"), parts(None, Some("src"), "", None));
    assert_eq!(split_line(" :text"), parts(None, None, "", Some("text")));
    assert_eq!(split_line("@ : X"), parts(Some(""), Some(""), "X", None));
}

#[test]
fn split_line_keeps_characters_beyond_ascii() {
    assert_eq!(
        split_line("@n=\u{e9}t\u{e9} :s\u{fc}d PRIVMSG #\u{4e2d} :\u{1f600} ok"),
        parts(Some("n=\u{e9}t\u{e9}"), Some("s\u{fc}d"), "PRIVMSG #\u{4e2d}", Some("\u{1f600} ok"))
    );
}

#[test]
fn ping_is_read() {
    match parse_message("PING :tmi.twitch.tv").unwrap() {
        IRCMessage::Ping(text) => assert_eq!(text, "tmi.twitch.tv"),
        other => panic!("{:?}", other),
    }
}

#[test]
fn ping_without_text_is_malformed() {
    assert_eq!(
        parse_message("PING").unwrap_err(),
        MessageParseError::MalformedLine(String::from("PING"))
    );
}

#[test]
fn line_without_command_is_malformed() {
    assert_eq!(parse_message("").unwrap_err(), MessageParseError::MalformedLine(String::new()));
    assert_eq!(
        parse_message("@a=b :src").unwrap_err(),
        MessageParseError::MalformedLine(String::from("@a=b :src"))
    );
    assert_eq!(
        parse_message("   ").unwrap_err(),
        MessageParseError::MalformedLine(String::from("   "))
    );
}

#[test]
fn notice_is_read() {
    match parse_message(":tmi.twitch.tv NOTICE * :Login authentication failed").unwrap() {
        IRCMessage::Notice { source, message } => {
            assert_eq!(source, Source { nick: None, host: String::from("tmi.twitch.tv") });
            assert_eq!(message, "Login authentication failed");
        },
        other => panic!("{:?}", other),
    }
}

#[test]
fn notice_without_source_is_malformed() {
    assert_eq!(
        parse_message("NOTICE * :text").unwrap_err(),
        MessageParseError::MalformedLine(String::from("NOTICE * :text"))
    );
    assert_eq!(
        parse_message(":h NOTICE *").unwrap_err(),
        MessageParseError::MalformedLine(String::from(":h NOTICE *"))
    );
}

#[test]
fn part_is_read() {
    match parse_message(":a!a@a.tmi.twitch.tv PART #chan :bye").unwrap() {
        IRCMessage::Part { source, message } => {
            assert_eq!(
                source,
                Source { nick: Some(String::from("a")), host: String::from("a@a.tmi.twitch.tv") }
            );
            assert_eq!(message, "bye");
        },
        other => panic!("{:?}", other),
    }
}

#[test]
fn part_without_text_is_malformed() {
    assert_eq!(
        parse_message(":a!a@a.tmi.twitch.tv PART #chan").unwrap_err(),
        MessageParseError::MalformedLine(String::from(":a!a@a.tmi.twitch.tv PART #chan"))
    );
}

#[test]
fn numbered_is_read() {
    match parse_message(":tmi.twitch.tv 001 nick :Welcome, GLHF!").unwrap() {
        IRCMessage::Numbered { number, source, message } => {
            assert_eq!(number, 1);
            assert_eq!(source.host, "tmi.twitch.tv");
            assert_eq!(message, "Welcome, GLHF!");
        },
        other => panic!("{:?}", other),
    }
    match parse_message(":h 4294967295 :x").unwrap() {
        IRCMessage::Numbered { number, .. } => assert_eq!(number, 4294967295),
        other => panic!("{:?}", other),
    }
}

#[test]
fn numbered_without_source_is_malformed() {
    assert_eq!(
        parse_message("376 nick :>").unwrap_err(),
        MessageParseError::MalformedLine(String::from("376 nick :>"))
    );
}

#[test]
fn number_too_large_is_unknown() {
    match parse_message(":h 4294967296 :x").unwrap() {
        IRCMessage::Unknown { command } => assert_eq!(command, "4294967296"),
        other => panic!("{:?}", other),
    }
}

#[test]
fn other_commands_are_unknown() {
    match parse_message(":a!a@a.tmi.twitch.tv JOIN #chan").unwrap() {
        IRCMessage::Unknown { command } => assert_eq!(command, "JOIN #chan"),
        other => panic!("{:?}", other),
    }
    match parse_message("  PING :x").unwrap() {
        IRCMessage::Unknown { command } => assert_eq!(command, "  PING"),
        other => panic!("{:?}", other),
    }
    match parse_message("ping :x").unwrap() {
        IRCMessage::Unknown { command } => assert_eq!(command, "ping"),
        other => panic!("{:?}", other),
    }
}

#[test]
fn command_is_told_by_how_it_begins() {
    assert!(matches!(parse_message("PINGED :x").unwrap(), IRCMessage::Ping(_)));
    assert!(matches!(parse_message(":h PARTY :x").unwrap(), IRCMessage::Part { .. }));
}

#[test]
fn privmsg_is_read_whole() {
    let line = format!("{} :abc!abc@abc.tmi.twitch.tv PRIVMSG #xyz :Hey :Guys", CHAT_TAGS);
    match parse_message(&line).unwrap() {
        IRCMessage::Privmsg { tags, user_context, source, message } => {
            assert_eq!(message, "Hey :Guys");
            assert_eq!(
                source,
                Source {
                    nick: Some(String::from("abc")),
                    host: String::from("abc@abc.tmi.twitch.tv"),
                }
            );
            assert_eq!(user_context.username, "abc");
            assert_eq!(user_context.user_id, "1");
            assert_eq!(user_context.user_type, UserType::User);
            assert_eq!(user_context.badges, vec![Badge::Broadcaster(1)]);
            assert!(user_context.is_broadcaster);
            assert!(user_context.is_returning_chatter);
            assert!(!user_context.is_mod);
            assert!(!user_context.is_first_message);
            assert!(!user_context.is_turbo);
            assert!(!user_context.is_subscriber);
            assert_eq!(tags.len(), 9);
            assert_eq!(tags.get("badges").unwrap(), "broadcaster/1");
            assert_eq!(tags.get("user-type").unwrap(), "");
            assert!(tags.get("color").is_none());
        },
        other => panic!("{:?}", other),
    }
}

#[test]
fn privmsg_with_empty_badges_has_no_broadcaster() {
    let line = "@user-type=staff;user-id=1;badges=;mod=0;returning-chatter=1;first-msg=0;turbo=0;subscriber=0;display-name=abc :a!b PRIVMSG #xyz :x";
    match parse_message(line).unwrap() {
        IRCMessage::Privmsg { user_context, .. } => {
            assert!(user_context.badges.is_empty());
            assert!(!user_context.is_broadcaster);
            assert_eq!(user_context.user_type, UserType::Staff);
        },
        other => panic!("{:?}", other),
    }
}

#[test]
fn privmsg_broadcaster_among_other_badges() {
    let line = "@user-type=;user-id=1;badges=subscriber/12,broadcaster/1,glhf-pledge/1;mod=0;returning-chatter=1;first-msg=0;turbo=0;subscriber=1;display-name=abc :a!b PRIVMSG #xyz :x";
    match parse_message(line).unwrap() {
        IRCMessage::Privmsg { user_context, .. } => {
            assert_eq!(
                user_context.badges,
                vec![Badge::Subscriber(12), Badge::Broadcaster(1), Badge::Other(1)]
            );
            assert!(user_context.is_broadcaster);
        },
        other => panic!("{:?}", other),
    }
}

#[test]
fn privmsg_without_display_name_names_the_tag() {
    let line = "@user-type=;user-id=1;badges=;mod=0;returning-chatter=0;first-msg=1;turbo=0;subscriber=0 :abc!abc@abc.tmi.twitch.tv PRIVMSG #xyz :HeyGuys";
    assert_eq!(
        parse_message(line).unwrap_err(),
        MessageParseError::MissingTag(String::from("display-name"))
    );
}

#[test]
fn privmsg_without_tags_misses_badges_first() {
    assert_eq!(
        parse_message(":a!b PRIVMSG #xyz :x").unwrap_err(),
        MessageParseError::MissingTag(String::from("badges"))
    );
}

fn chat_line_without(tag: &str) -> String {
    let all = [
        "badges=",
        "display-name=abc",
        "user-id=1",
        "user-type=",
        "turbo=0",
        "subscriber=0",
        "mod=0",
        "first-msg=0",
        "returning-chatter=0",
    ];
    let kept: Vec<&str> = all.iter().copied().filter(|entry| !entry.starts_with(tag)).collect();
    format!("@{} :a!b PRIVMSG #xyz :x", kept.join(";"))
}

#[test]
fn privmsg_requires_each_of_its_tags() {
    for tag in [
        "badges",
        "display-name",
        "user-id",
        "user-type",
        "turbo",
        "subscriber",
        "mod",
        "first-msg",
        "returning-chatter",
    ] {
        assert_eq!(
            parse_message(&chat_line_without(tag)).unwrap_err(),
            MessageParseError::MissingTag(String::from(tag))
        );
    }
}

#[test]
fn privmsg_tags_are_read_in_order() {
    let line = "@badges=x;user-type=who;turbo=2 :a!b PRIVMSG #xyz :x";
    assert_eq!(
        parse_message(line).unwrap_err(),
        MessageParseError::InvalidBadge(String::from("x"))
    );
    let line = "@badges=;user-id=1;display-name=a;user-type=who;turbo=2 :a!b PRIVMSG #xyz :x";
    assert_eq!(
        parse_message(line).unwrap_err(),
        MessageParseError::InvalidTag(String::from("who"))
    );
    let line = "@badges=;user-id=1;display-name=a;user-type=;turbo=2;subscriber=3 :a!b PRIVMSG #xyz :x";
    assert_eq!(
        parse_message(line).unwrap_err(),
        MessageParseError::InvalidBoolValue(String::from("turbo"), String::from("2"))
    );
}

#[test]
fn privmsg_without_source_or_text_is_malformed() {
    let line = format!("{} PRIVMSG #xyz :x", CHAT_TAGS);
    assert_eq!(parse_message(&line).unwrap_err(), MessageParseError::MalformedLine(line.clone()));
    let line = format!("{} :a!b PRIVMSG #xyz", CHAT_TAGS);
    assert_eq!(parse_message(&line).unwrap_err(), MessageParseError::MalformedLine(line.clone()));
}

#[test]
fn malformed_tags_fail_any_line() {
    assert_eq!(
        parse_message("@a=1;b PING :x").unwrap_err(),
        MessageParseError::InvalidTag(String::from("b"))
    );
    assert_eq!(
        parse_message("@ PING :x").unwrap_err(),
        MessageParseError::InvalidTag(String::new())
    );
}

#[test]
fn parsing_twice_gives_the_same() {
    let lines = [
        format!("{} :abc!abc@abc.tmi.twitch.tv PRIVMSG #xyz :HeyGuys", CHAT_TAGS),
        String::from("PING :tmi.twitch.tv"),
        String::from(":tmi.twitch.tv 001 nick :Welcome"),
        String::from("@broken PRIVMSG"),
        String::new(),
    ];
    for line in lines.iter() {
        let first = format!("{:?}", parse_message(line));
        let second = format!("{:?}", parse_message(line));
        assert_eq!(first, second);
    }
}
