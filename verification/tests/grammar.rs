use regex::Regex;
use twitch_chat::irc::split_line;

/// The shape of a line as a pattern.
fn pattern() -> Regex {
    Regex::new(r"^(?:@(?<tags>\S+)\s)?(?:\:(?<source>\S+)\s)?(?<command>[^:]+[^:\s])(?:\s\:(?<parameters>.*))?$")
        .unwrap()
}

fn group(captures: &regex::Captures, name: &str) -> Option<String> {
    captures.name(name).map(|m| String::from(m.as_str()))
}

#[test]
fn split_line_agrees_with_the_pattern() {
    let lines = [
        "PING :tmi.twitch.tv",
        ":tmi.twitch.tv 001 bytebot :Welcome, GLHF!",
        ":tmi.twitch.tv 372 bytebot :You are in a maze of twisty passages, all alike.",
        ":tmi.twitch.tv CAP * ACK :twitch.tv/commands twitch.tv/membership twitch.tv/tags",
        ":bytebot!bytebot@bytebot.tmi.twitch.tv JOIN #xyz",
        ":bytebot.tmi.twitch.tv 353 bytebot = #xyz :bytebot",
        ":abc!abc@abc.tmi.twitch.tv PART #xyz",
        "@msg-id=slow_off :tmi.twitch.tv NOTICE #xyz :This room is no longer in slow mode.",
        "@badge-info=;badges=broadcaster/1;color=#0000FF;display-name=abc;emotes=25:0-4;first-msg=0;mod=0;returning-chatter=0;subscriber=0;turbo=0;user-id=1;user-type= :abc!abc@abc.tmi.twitch.tv PRIVMSG #xyz :Kappa hello: world :) ",
        "@emote-only=0;followers-only=-1;r9k=0;room-id=1;slow=0;subs-only=0 :tmi.twitch.tv ROOMSTATE #xyz",
        "@a=b COMMAND",
        "RECONNECT",
        "PRIVMSG #xyz :",
    ];
    let pattern = pattern();
    for line in lines {
        let captures = pattern.captures(line).unwrap();
        let parts = split_line(line);
        assert_eq!(parts.tags, group(&captures, "tags"), "{:?}", line);
        assert_eq!(parts.source, group(&captures, "source"), "{:?}", line);
        assert_eq!(Some(parts.command), group(&captures, "command"), "{:?}", line);
        assert_eq!(parts.trailing, group(&captures, "parameters"), "{:?}", line);
    }
}

/// Every text of up to `longest` characters over `alphabet`.
fn texts(alphabet: &[char], longest: usize) -> Vec<String> {
    let mut all = vec![String::new()];
    let mut last = vec![String::new()];
    for _ in 0..longest {
        let mut next = Vec::new();
        for text in last.iter() {
            for c in alphabet {
                let mut longer = text.clone();
                longer.push(*c);
                next.push(longer);
            }
        }
        all.extend(next.iter().cloned());
        last = next;
    }
    all
}

#[test]
fn split_line_agrees_with_the_pattern_on_short_lines() {
    let pattern = pattern();
    let mut compared = 0;
    for line in texts(&['@', ':', ' ', 'a', '!'], 7) {
        let captures = match pattern.captures(&line) {
            Some(captures) => captures,
            None => continue,
        };
        if line.starts_with('@') && captures.name("tags").is_none() {
            continue;
        }
        let parts = split_line(&line);
        assert_eq!(parts.tags, group(&captures, "tags"), "{:?}", line);
        assert_eq!(parts.source, group(&captures, "source"), "{:?}", line);
        assert_eq!(Some(parts.command), group(&captures, "command"), "{:?}", line);
        assert_eq!(parts.trailing, group(&captures, "parameters"), "{:?}", line);
        compared += 1;
    }
    assert!(compared > 1000);
}
