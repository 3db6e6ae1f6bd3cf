use twitch_chat::credentials::Credentials;
use twitch_chat::error::{ConnectionError, Error, MessageParseError};
use twitch_chat::irc::IRCMessage;
use twitch_chat::twitch_client::{Capability, Frame, Step, TwitchClient};

fn client(auto_pong: bool) -> TwitchClient {
    let credentials =
        Credentials::new(String::from("id"), String::from("secret"), String::from("refresh"));
    TwitchClient::new(credentials, String::from("bytebot"), auto_pong)
}

fn connected(auto_pong: bool) -> TwitchClient {
    let mut client = client(auto_pong);
    client.connect(Ok(())).unwrap();
    client
}

fn not_connected() -> Error {
    Error::ConnectionError(ConnectionError::WebsocketNotConnected)
}

fn text(frame: &str) -> Frame {
    Frame::Text(String::from(frame))
}

fn chat(from: &str, message: &str) -> String {
    format!(
        "@user-type=;user-id=1;badges=;mod=0;returning-chatter=0;first-msg=1;turbo=0;subscriber=0;display-name={} :{}!{}@{}.tmi.twitch.tv PRIVMSG #xyz :{}",
        from, from, from, from, message
    )
}

fn delivered(step: Step) -> IRCMessage {
    match step {
        Step::Ready(Some(Ok(message))) => message,
        other => panic!("{:?}", other),
    }
}

fn failed(step: Step) -> Error {
    match step {
        Step::Ready(Some(Err(e))) => e,
        other => panic!("{:?}", other),
    }
}

fn chat_text(step: Step) -> String {
    match delivered(step) {
        IRCMessage::Privmsg { message, .. } => message,
        other => panic!("{:?}", other),
    }
}

#[test]
fn new_session_is_idle() {
    let client = client(true);
    assert!(!client.is_connected());
    assert_eq!(client.pending(), 0);
    assert_eq!(client.url(), "wss://irc-ws.chat.twitch.tv:443");
    assert_eq!(client.credentials().client_id, "id");
    assert_eq!(client.credentials().client_secret, "secret");
    assert_eq!(client.credentials().refresh_token, "refresh");
}

#[test]
fn nothing_is_sent_before_connect() {
    let client = client(true);
    assert_eq!(client.pass(), Err(not_connected()));
    assert_eq!(client.nick(), Err(not_connected()));
    assert_eq!(client.authenticate(), Err(not_connected()));
    assert_eq!(client.cap_req(&[Capability::Tags]), Err(not_connected()));
    assert_eq!(client.join("chan"), Err(not_connected()));
    assert_eq!(client.part("chan"), Err(not_connected()));
    assert_eq!(client.pong("x"), Err(not_connected()));
    assert_eq!(client.privmsg("chan", "hi"), Err(not_connected()));
}

#[test]
fn next_before_connect_fails() {
    let mut client = client(true);
    assert_eq!(failed(client.next()), not_connected());
}

#[test]
fn connect_failure_is_surfaced() {
    let mut client = client(true);
    assert_eq!(
        client.connect(Err(String::from("refused"))),
        Err(Error::ConnectionError(ConnectionError::WebsocketConnectionError(String::from(
            "refused"
        ))))
    );
    assert!(!client.is_connected());
    assert_eq!(client.connect(Ok(())), Ok(()));
    assert!(client.is_connected());
    assert!(client.connect(Err(String::from("again"))).is_err());
    assert!(client.is_connected());
}

#[test]
fn token_is_empty_until_renewed() {
    let mut client = connected(true);
    assert_eq!(client.pass().unwrap(), "PASS oauth:");
    assert_eq!(
        client.update_access_token(Err(String::from("401"))),
        Err(Error::RefreshAccessTokenError(String::from("401")))
    );
    assert_eq!(client.pass().unwrap(), "PASS oauth:");
    assert_eq!(client.update_access_token(Ok(String::from("abc123"))), Ok(()));
    assert_eq!(client.pass().unwrap(), "PASS oauth:abc123");
    assert!(client.update_access_token(Err(String::from("500"))).is_err());
    assert_eq!(client.pass().unwrap(), "PASS oauth:abc123");
    assert!(client.is_connected());
}

#[test]
fn authenticate_sends_token_then_nick() {
    let mut client = connected(true);
    client.update_access_token(Ok(String::from("tok"))).unwrap();
    assert_eq!(client.authenticate().unwrap(), vec!["PASS oauth:tok", "NICK bytebot"]);
    assert_eq!(client.nick().unwrap(), "NICK bytebot");
}

#[test]
fn capability_names() {
    assert_eq!(Capability::Commands.to_string(), "twitch.tv/commands");
    assert_eq!(Capability::Memberships.to_string(), "twitch.tv/membership");
    assert_eq!(Capability::Tags.to_string(), "twitch.tv/tags");
}

#[test]
fn cap_req_names_all_in_order() {
    let client = connected(true);
    assert_eq!(
        client.cap_req(&[Capability::Commands, Capability::Memberships, Capability::Tags]).unwrap(),
        "CAP REQ :twitch.tv/commands twitch.tv/membership twitch.tv/tags"
    );
    assert_eq!(
        client.cap_req(&[Capability::Tags, Capability::Commands]).unwrap(),
        "CAP REQ :twitch.tv/tags twitch.tv/commands"
    );
    assert_eq!(client.cap_req(&[Capability::Tags]).unwrap(), "CAP REQ :twitch.tv/tags");
    assert_eq!(client.cap_req(&[]).unwrap(), "CAP REQ :");
}

#[test]
fn outbound_lines() {
    let client = connected(false);
    assert_eq!(client.join("xyz").unwrap(), "JOIN #xyz");
    assert_eq!(client.part("xyz").unwrap(), "PART #xyz");
    assert_eq!(client.pong("tmi.twitch.tv").unwrap(), "PONG :tmi.twitch.tv");
    assert_eq!(client.privmsg("xyz", "hello :) world").unwrap(), "PRIVMSG #xyz :hello :) world");
    assert_eq!(client.privmsg("", "").unwrap(), "PRIVMSG # :");
}

#[test]
fn send_failure_is_a_connection_error() {
    assert_eq!(
        TwitchClient::send_failure(String::from("closed")),
        Error::ConnectionError(ConnectionError::SendMessageFailure(String::from("closed")))
    );
}

#[test]
fn next_asks_for_a_frame_when_nothing_is_pending() {
    let mut client = connected(true);
    assert!(matches!(client.next(), Step::Receive));
    assert!(matches!(client.next(), Step::Receive));
}

#[test]
fn ping_is_answered_and_not_handed_out() {
    let mut client = connected(true);
    assert!(matches!(client.next(), Step::Receive));
    match client.receive(text("PING :tmi.twitch.tv")) {
        Step::Pong(line) => assert_eq!(line, "PONG :tmi.twitch.tv"),
        other => panic!("{:?}", other),
    }
    assert_eq!(client.pending(), 0);
    assert!(matches!(client.next(), Step::Receive));
}

#[test]
fn ping_is_handed_out_without_auto_pong() {
    let mut client = connected(false);
    match delivered(client.receive(text("PING :tmi.twitch.tv\r\n"))) {
        IRCMessage::Ping(payload) => assert_eq!(payload, "tmi.twitch.tv"),
        other => panic!("{:?}", other),
    }
    assert!(matches!(client.next(), Step::Receive));
}

#[test]
fn ping_between_messages_is_answered_in_its_turn() {
    let mut client = connected(true);
    let frame = format!("{}\r\nPING :one\r\n{}\r\n", chat("a", "first"), chat("b", "second"));
    assert_eq!(chat_text(client.receive(text(&frame))), "first");
    match client.next() {
        Step::Pong(line) => assert_eq!(line, "PONG :one"),
        other => panic!("{:?}", other),
    }
    assert_eq!(chat_text(client.next()), "second");
    assert!(matches!(client.next(), Step::Receive));
}

#[test]
fn two_lines_in_one_frame_are_two_messages() {
    let mut client = connected(true);
    assert!(matches!(client.next(), Step::Receive));
    let frame = format!("{}\r\n{}\r\n", chat("a", "first"), chat("b", "second"));
    assert_eq!(chat_text(client.receive(text(&frame))), "first");
    assert_eq!(client.pending(), 1);
    assert_eq!(chat_text(client.next()), "second");
    assert_eq!(client.pending(), 0);
    assert!(matches!(client.next(), Step::Receive));
}

#[test]
fn bad_line_is_queued_among_its_siblings() {
    let mut client = connected(true);
    let frame = format!("{}\n@broken PRIVMSG #xyz :x\n{}", chat("a", "first"), chat("b", "third"));
    assert_eq!(chat_text(client.receive(text(&frame))), "first");
    assert_eq!(client.pending(), 2);
    assert_eq!(
        failed(client.next()),
        Error::MessageParseError(MessageParseError::InvalidTag(String::from("broken")))
    );
    assert_eq!(chat_text(client.next()), "third");
}

#[test]
fn empty_line_is_a_parse_failure() {
    let mut client = connected(true);
    assert_eq!(
        failed(client.receive(text("\r\n"))),
        Error::MessageParseError(MessageParseError::MalformedLine(String::new()))
    );
}

#[test]
fn frames_without_lines_give_no_message() {
    let mut client = connected(true);
    assert!(matches!(client.receive(text("")), Step::Ready(None)));
    assert!(matches!(client.receive(Frame::Other), Step::Ready(None)));
    assert!(matches!(client.receive(Frame::Closed), Step::Ready(None)));
    assert_eq!(client.pending(), 0);
}

#[test]
fn receive_failure_is_surfaced() {
    let mut client = connected(true);
    assert_eq!(
        failed(client.receive(Frame::Failed(String::from("reset")))),
        Error::ConnectionError(ConnectionError::ReceiveMessageFailure(String::from("reset")))
    );
}

#[test]
fn pending_messages_come_before_a_new_frame() {
    let mut client = connected(false);
    let frame = format!("{}\n{}", chat("a", "one"), chat("a", "two"));
    assert_eq!(chat_text(client.receive(text(&frame))), "one");
    assert_eq!(chat_text(client.receive(text(&chat("a", "three")))), "two");
    assert_eq!(chat_text(client.receive(Frame::Other)), "three");
    assert!(matches!(client.receive(Frame::Other), Step::Ready(None)));
}

#[test]
fn receive_failure_leaves_pending_messages() {
    let mut client = connected(false);
    let frame = format!("{}\n{}", chat("a", "one"), chat("a", "two"));
    assert_eq!(chat_text(client.receive(text(&frame))), "one");
    assert!(matches!(
        client.receive(Frame::Failed(String::from("x"))),
        Step::Ready(Some(Err(_)))
    ));
    assert_eq!(client.pending(), 1);
    assert_eq!(chat_text(client.next()), "two");
}

#[test]
fn ping_without_connection_cannot_be_answered() {
    let mut client = client(true);
    assert_eq!(failed(client.receive(text("PING :x"))), not_connected());
}
