//! The session: what to send to open one, and how received frames become
//! the messages that the caller is handed one at a time.
//!
//! The session does no input or output itself. Each operation that sends
//! returns the line to send, and `next` tells its caller what it needs: a
//! frame from the transport, a line sent, or nothing more.

use crate::credentials::Credentials;
use crate::error::{
    ConnectionError, ConnectionErrorView, Error, ErrorView, MessageParseError,
    MessageParseErrorView,
};
use crate::irc::{message_of, message_outcome, parse_message, IRCMessage, IRCMessageView};
use crate::text::{lines_of, split_lines};
use std::collections::VecDeque;
use vstd::prelude::*;
use vstd::string::StringExecFns;

verus! {

/// An extension of the protocol that the client can ask the server for.
#[derive(Debug, PartialEq, Eq, Clone, Copy)]
pub enum Capability {
    Commands,
    Memberships,
    Tags,
}

impl Capability {
    /// The name by which the server knows the capability.
    pub open spec fn name(self) -> Seq<char> {
        match self {
            Capability::Commands => "twitch.tv/commands"@,
            Capability::Memberships => "twitch.tv/membership"@,
            Capability::Tags => "twitch.tv/tags"@,
        }
    }

    /// The name by which the server knows the capability.
    pub fn to_string(&self) -> (name: String)
        ensures
            name@ == self.name(),
    {
        match self {
            Capability::Commands => String::from_str("twitch.tv/commands"),
            Capability::Memberships => String::from_str("twitch.tv/membership"),
            Capability::Tags => String::from_str("twitch.tv/tags"),
        }
    }
}

/// The names of the capabilities, in order, with a space between each two.
pub open spec fn capability_names(capabilities: Seq<Capability>) -> Seq<char>
    decreases capabilities.len(),
{
    if capabilities.len() == 0 {
        Seq::empty()
    } else if capabilities.len() == 1 {
        capabilities[0].name()
    } else {
        capability_names(capabilities.drop_last()) + " "@ + capabilities.last().name()
    }
}

/// The line that presents the access token.
pub open spec fn pass_line(token: Seq<char>) -> Seq<char> {
    "PASS oauth:"@ + token
}

/// The line that names the nickname to chat under.
pub open spec fn nick_line(nick: Seq<char>) -> Seq<char> {
    "NICK "@ + nick
}

/// The line that requests capabilities.
pub open spec fn cap_req_line(capabilities: Seq<Capability>) -> Seq<char> {
    "CAP REQ :"@ + capability_names(capabilities)
}

/// The line that joins a channel.
pub open spec fn join_line(channel: Seq<char>) -> Seq<char> {
    "JOIN #"@ + channel
}

/// The line that leaves a channel.
pub open spec fn part_line(channel: Seq<char>) -> Seq<char> {
    "PART #"@ + channel
}

/// The line that answers a ping which carried `text`.
pub open spec fn pong_line(text: Seq<char>) -> Seq<char> {
    "PONG :"@ + text
}

/// The line that posts `message` to a channel.
pub open spec fn privmsg_line(channel: Seq<char>, message: Seq<char>) -> Seq<char> {
    "PRIVMSG #"@ + channel + " :"@ + message
}

/// What the transport handed over when it was asked for a frame.
#[derive(Debug, PartialEq, Eq)]
pub enum Frame {
    /// A text frame, which holds lines.
    Text(String),
    /// A frame of another kind.
    Other,
    /// Nothing: the stream has ended.
    Closed,
    /// A failure, with the transport's description of it.
    Failed(String),
}

/// What `next` has come to.
#[derive(Debug)]
pub enum Step {
    /// The call is complete, and this is its result: a message, a failure,
    /// or no message.
    Ready(Option<Result<IRCMessage, Error>>),
    /// A ping is to be answered: send this line, then go on with `next`. If
    /// the line cannot be sent, that failure is the result of the call.
    Pong(String),
    /// No message is pending: receive one frame, then go on with `receive`.
    Receive,
}

/// A `Step` with its texts as character sequences.
pub enum StepView {
    Ready(Option<Result<IRCMessageView, ErrorView>>),
    Pong(Seq<char>),
    Receive,
}

impl View for Step {
    type V = StepView;

    open spec fn view(&self) -> StepView {
        match self {
            Step::Ready(None) => StepView::Ready(None),
            Step::Ready(Some(Ok(message))) => StepView::Ready(Some(Ok(message@))),
            Step::Ready(Some(Err(e))) => StepView::Ready(Some(Err(e@))),
            Step::Pong(line) => StepView::Pong(line@),
            Step::Receive => StepView::Receive,
        }
    }
}

/// The state of a session, as its operations see it.
pub struct TwitchClientView {
    /// The current access token; empty until one was obtained.
    pub access_token: Seq<char>,
    pub nick: Seq<char>,
    /// Where the transport connects to.
    pub url: Seq<char>,
    /// The lines that were received and not handed out yet, each as what it
    /// was read as, in the order of their arrival.
    pub pending: Seq<Result<IRCMessageView, MessageParseErrorView>>,
    pub connected: bool,
    /// Whether pings are answered instead of handed out.
    pub auto_pong: bool,
}

/// What is done with the pending message `front` when its turn has come.
/// A ping is answered where the session answers pings, which takes a
/// connection; everything else is handed out.
pub open spec fn turn_of(
    auto_pong: bool,
    connected: bool,
    front: Result<IRCMessageView, MessageParseErrorView>,
) -> StepView {
    match front {
        Ok(IRCMessageView::Ping(text)) if auto_pong => if connected {
            StepView::Pong(pong_line(text))
        } else {
            StepView::Ready(
                Some(Err(ErrorView::ConnectionError(ConnectionErrorView::WebsocketNotConnected))),
            )
        },
        Ok(message) => StepView::Ready(Some(Ok(message))),
        Err(e) => StepView::Ready(Some(Err(ErrorView::MessageParseError(e)))),
    }
}

/// What each of the lines is read as.
pub open spec fn messages_of(lines: Seq<Seq<char>>) -> Seq<
    Result<IRCMessageView, MessageParseErrorView>,
> {
    lines.map_values(|line: Seq<char>| message_of(line))
}

/// The lines that a frame adds to the pending ones.
pub open spec fn arrivals(frame: Frame) -> Seq<Result<IRCMessageView, MessageParseErrorView>> {
    match frame {
        Frame::Text(text) => messages_of(lines_of(text@)),
        _ => Seq::empty(),
    }
}

/// What `next` does in a given state: the state that it leaves, and what
/// it has come to.
///
/// The message that has been pending longest gets its turn, and no frame
/// is asked for while one is pending. With none pending, a connected
/// session asks for a frame, and one that is not connected fails.
pub open spec fn next_of(state: TwitchClientView) -> (TwitchClientView, StepView) {
    if state.pending.len() > 0 {
        (
            TwitchClientView { pending: state.pending.skip(1), ..state },
            turn_of(state.auto_pong, state.connected, state.pending[0]),
        )
    } else if state.connected {
        (state, StepView::Receive)
    } else {
        (
            state,
            StepView::Ready(
                Some(Err(ErrorView::ConnectionError(ConnectionErrorView::WebsocketNotConnected))),
            ),
        )
    }
}

/// What `receive` does with a frame in a given state: the state that it
/// leaves, and what it has come to.
///
/// A failure of the transport is handed out as it is and changes nothing.
/// Otherwise the lines of the frame join the pending messages, and the
/// one that has been pending longest gets its turn. With none pending,
/// the call that asked for the frame ends without a message: so it does
/// after a frame that is no text, and when the stream has ended.
pub open spec fn receive_of(state: TwitchClientView, frame: Frame) -> (TwitchClientView, StepView) {
    let pending = state.pending + arrivals(frame);
    match frame {
        Frame::Failed(detail) => (
            state,
            StepView::Ready(
                Some(
                    Err(
                        ErrorView::ConnectionError(
                            ConnectionErrorView::ReceiveMessageFailure(detail@),
                        ),
                    ),
                ),
            ),
        ),
        _ => if pending.len() == 0 {
            (state, StepView::Ready(None))
        } else {
            (
                TwitchClientView { pending: pending.skip(1), ..state },
                turn_of(state.auto_pong, state.connected, pending[0]),
            )
        },
    }
}

/// The state after `next` was called `k` times.
pub open spec fn after_turns(state: TwitchClientView, k: nat) -> TwitchClientView
    decreases k,
{
    if k == 0 {
        state
    } else {
        next_of(after_turns(state, (k - 1) as nat)).0
    }
}

/// A ping is answered, not handed out, where the session answers pings:
/// with a connection its turn is the line that answers it, and in no case
/// is it a message for the caller.
pub proof fn lemma_ping_is_answered(connected: bool, text: Seq<char>)
    ensures
        turn_of(true, true, Ok(IRCMessageView::Ping(text))) == StepView::Pong(pong_line(text)),
        !(turn_of(true, connected, Ok(IRCMessageView::Ping(text))) matches StepView::Ready(
            Some(Ok(_)),
        )),
        turn_of(false, connected, Ok(IRCMessageView::Ping(text))) == StepView::Ready(
            Some(Ok(IRCMessageView::Ping(text))),
        ),
{
}

/// Pending messages get their turns in the order of their arrival, one
/// for each call of `next`, and no frame is asked for before the last of
/// them had its turn.
pub proof fn lemma_turns_in_order(state: TwitchClientView, k: nat)
    requires
        k < state.pending.len(),
    ensures
        after_turns(state, k) == (TwitchClientView {
            pending: state.pending.skip(k as int),
            ..state
        }),
        next_of(after_turns(state, k)).1 == turn_of(
            state.auto_pong,
            state.connected,
            state.pending[k as int],
        ),
        next_of(after_turns(state, k)).1 != StepView::Receive,
    decreases k,
{
    if k == 0 {
        assert(state.pending.skip(0) =~= state.pending);
    } else {
        lemma_turns_in_order(state, (k - 1) as nat);
        assert(state.pending.skip(k - 1).skip(1) =~= state.pending.skip(k as int));
    }
}

/// The lines of one frame become messages one by one. Received with
/// nothing pending, a text frame gives its first line its turn at once,
/// and each further call of `next` gives the next line its turn, in the
/// order of the lines and without asking for another frame.
pub proof fn lemma_frame_lines_in_order(state: TwitchClientView, text: String, k: nat)
    requires
        state.pending.len() == 0,
        k < lines_of(text@).len(),
    ensures
        k == 0 ==> receive_of(state, Frame::Text(text)).1 == turn_of(
            state.auto_pong,
            state.connected,
            message_of(lines_of(text@)[0]),
        ),
        k > 0 ==> next_of(after_turns(receive_of(state, Frame::Text(text)).0, (k - 1) as nat)).1
            == turn_of(state.auto_pong, state.connected, message_of(lines_of(text@)[k as int])),
        k > 0 ==> next_of(after_turns(receive_of(state, Frame::Text(text)).0, (k - 1) as nat)).1
            != StepView::Receive,
{
    let frame = Frame::Text(text);
    let pending = state.pending + arrivals(frame);
    assert(pending =~= messages_of(lines_of(text@)));
    if k > 0 {
        let left = receive_of(state, frame).0;
        assert(left.pending == pending.skip(1));
        lemma_turns_in_order(left, (k - 1) as nat);
    }
}

/// A chat session with its pending messages.
pub struct TwitchClient {
    credentials: Credentials,
    access_token: String,
    nick: String,
    url: String,
    message_buffer: VecDeque<Result<IRCMessage, MessageParseError>>,
    connected: bool,
    auto_pong: bool,
}

impl View for TwitchClient {
    type V = TwitchClientView;

    closed spec fn view(&self) -> TwitchClientView {
        TwitchClientView {
            access_token: self.access_token@,
            nick: self.nick@,
            url: self.url@,
            pending: self.message_buffer@.map_values(
                |r: Result<IRCMessage, MessageParseError>| message_outcome(r),
            ),
            connected: self.connected,
            auto_pong: self.auto_pong,
        }
    }
}

/// The failure of an operation that needs a connection where there is none.
fn not_connected() -> (e: Error)
    ensures
        e@ == ErrorView::ConnectionError(ConnectionErrorView::WebsocketNotConnected),
{
    Error::ConnectionError(ConnectionError::WebsocketNotConnected)
}

/// `head`, then `body`.
fn line_of(head: &str, body: &str) -> (line: String)
    ensures
        line@ == head@ + body@,
{
    let mut line = String::from_str(head);
    line.append(body);
    line
}

impl TwitchClient {
    /// The credentials that the session was made with.
    pub closed spec fn spec_credentials(&self) -> Credentials {
        self.credentials
    }

    /// A session that is not connected, has no access token and no pending
    /// messages.
    pub fn new(credentials: Credentials, nick: String, auto_pong: bool) -> (client: TwitchClient)
        ensures
            client@ == (TwitchClientView {
                access_token: Seq::empty(),
                nick: nick@,
                url: "wss://irc-ws.chat.twitch.tv:443"@,
                pending: Seq::empty(),
                connected: false,
                auto_pong,
            }),
            client.spec_credentials() == credentials,
    {
        let client = TwitchClient {
            nick,
            credentials,
            message_buffer: VecDeque::new(),
            access_token: String::new(),
            url: String::from_str("wss://irc-ws.chat.twitch.tv:443"),
            connected: false,
            auto_pong,
        };
        assert(client@.pending =~= Seq::empty());
        client
    }

    /// The credentials to renew the access token with.
    pub fn credentials(&self) -> (credentials: &Credentials)
        ensures
            *credentials == self.spec_credentials(),
    {
        &self.credentials
    }

    /// Where the transport connects to.
    pub fn url(&self) -> (url: &str)
        ensures
            url@ == self@.url,
    {
        self.url.as_str()
    }

    /// Whether the session has a connection.
    pub fn is_connected(&self) -> (connected: bool)
        ensures
            connected == self@.connected,
    {
        self.connected
    }

    /// The number of messages that are pending.
    pub fn pending(&self) -> (n: usize)
        ensures
            n == self@.pending.len(),
    {
        self.message_buffer.len()
    }

    /// Takes in how renewing the access token ended: the new token
    /// replaces the current one, and a failure leaves the session as it
    /// is.
    pub fn update_access_token(&mut self, renewed: Result<String, String>) -> (r: Result<(), Error>)
        ensures
            final(self).spec_credentials() == old(self).spec_credentials(),
            match renewed {
                Ok(token) => r is Ok && final(self)@ == (TwitchClientView {
                    access_token: token@,
                    ..old(self)@
                }),
                Err(detail) => r is Err && r->Err_0@ == ErrorView::RefreshAccessTokenError(detail@)
                    && final(self)@ == old(self)@,
            },
    {
        match renewed {
            Ok(token) => {
                self.access_token = token;
                Ok(())
            },
            Err(detail) => Err(Error::RefreshAccessTokenError(detail)),
        }
    }

    /// Takes in how opening the transport ended: from success on the
    /// session is connected, and a failure leaves it as it is.
    pub fn connect(&mut self, opened: Result<(), String>) -> (r: Result<(), Error>)
        ensures
            final(self).spec_credentials() == old(self).spec_credentials(),
            match opened {
                Ok(_) => r is Ok && final(self)@ == (TwitchClientView {
                    connected: true,
                    ..old(self)@
                }),
                Err(detail) => r is Err && r->Err_0@ == ErrorView::ConnectionError(
                    ConnectionErrorView::WebsocketConnectionError(detail@),
                ) && final(self)@ == old(self)@,
            },
    {
        match opened {
            Ok(_) => {
                self.connected = true;
                Ok(())
            },
            Err(detail) => Err(
                Error::ConnectionError(ConnectionError::WebsocketConnectionError(detail)),
            ),
        }
    }

    /// The failure that a line which could not be sent ends an operation
    /// with.
    pub fn send_failure(detail: String) -> (e: Error)
        ensures
            e@ == ErrorView::ConnectionError(ConnectionErrorView::SendMessageFailure(detail@)),
    {
        Error::ConnectionError(ConnectionError::SendMessageFailure(detail))
    }

    /// Clears `line` for sending, which takes a connection.
    fn send(&self, line: String) -> (r: Result<String, Error>)
        ensures
            self@.connected ==> r is Ok && r->Ok_0@ == line@,
            !self@.connected ==> r is Err && r->Err_0@ == ErrorView::ConnectionError(
                ConnectionErrorView::WebsocketNotConnected,
            ),
    {
        if self.connected {
            Ok(line)
        } else {
            Err(not_connected())
        }
    }

    /// The two lines that authenticate the session, in the order in which
    /// they are to be sent: the access token, then the nickname.
    pub fn authenticate(&self) -> (r: Result<Vec<String>, Error>)
        ensures
            self@.connected ==> r is Ok && r->Ok_0.deep_view() == seq![
                pass_line(self@.access_token),
                nick_line(self@.nick),
            ],
            !self@.connected ==> r is Err && r->Err_0@ == ErrorView::ConnectionError(
                ConnectionErrorView::WebsocketNotConnected,
            ),
    {
        let pass = match self.pass() {
            Ok(line) => line,
            Err(e) => {
                return Err(e);
            },
        };
        let nick = match self.nick() {
            Ok(line) => line,
            Err(e) => {
                return Err(e);
            },
        };
        let mut lines: Vec<String> = Vec::new();
        lines.push(pass);
        lines.push(nick);
        assert(lines.deep_view() =~= seq![pass_line(self@.access_token), nick_line(self@.nick)]);
        Ok(lines)
    }

    /// The line that requests the capabilities, all in one line and in the
    /// order given.
    pub fn cap_req(&self, capabilities: &[Capability]) -> (r: Result<String, Error>)
        ensures
            self@.connected ==> r is Ok && r->Ok_0@ == cap_req_line(capabilities@),
            !self@.connected ==> r is Err && r->Err_0@ == ErrorView::ConnectionError(
                ConnectionErrorView::WebsocketNotConnected,
            ),
    {
        let mut names = String::new();
        let mut i: usize = 0;
        proof {
            assert(capabilities@.take(0) =~= Seq::<Capability>::empty());
        }
        while i < capabilities.len()
            invariant
                i <= capabilities.len(),
                names@ == capability_names(capabilities@.take(i as int)),
            decreases capabilities.len() - i,
        {
            let name = capabilities[i].to_string();
            proof {
                let read = capabilities@.take(i + 1);
                assert(read.drop_last() =~= capabilities@.take(i as int));
                assert(read.last() == capabilities@[i as int]);
                if i == 0 {
                    assert(Seq::<char>::empty() + name@ =~= name@);
                }
            }
            if i > 0 {
                names.append(" ");
            }
            names.append(name.as_str());
            i += 1;
        }
        proof {
            assert(capabilities@.take(i as int) =~= capabilities@);
        }
        self.send(line_of("CAP REQ :", names.as_str()))
    }

    /// The line that presents the access token.
    pub fn pass(&self) -> (r: Result<String, Error>)
        ensures
            self@.connected ==> r is Ok && r->Ok_0@ == pass_line(self@.access_token),
            !self@.connected ==> r is Err && r->Err_0@ == ErrorView::ConnectionError(
                ConnectionErrorView::WebsocketNotConnected,
            ),
    {
        self.send(line_of("PASS oauth:", self.access_token.as_str()))
    }

    /// The line that names the nickname.
    pub fn nick(&self) -> (r: Result<String, Error>)
        ensures
            self@.connected ==> r is Ok && r->Ok_0@ == nick_line(self@.nick),
            !self@.connected ==> r is Err && r->Err_0@ == ErrorView::ConnectionError(
                ConnectionErrorView::WebsocketNotConnected,
            ),
    {
        self.send(line_of("NICK ", self.nick.as_str()))
    }

    /// The line that joins the channel.
    pub fn join(&self, channel_name: &str) -> (r: Result<String, Error>)
        ensures
            self@.connected ==> r is Ok && r->Ok_0@ == join_line(channel_name@),
            !self@.connected ==> r is Err && r->Err_0@ == ErrorView::ConnectionError(
                ConnectionErrorView::WebsocketNotConnected,
            ),
    {
        self.send(line_of("JOIN #", channel_name))
    }

    /// The line that answers a ping which carried `ping_message`.
    pub fn pong(&self, ping_message: &str) -> (r: Result<String, Error>)
        ensures
            self@.connected ==> r is Ok && r->Ok_0@ == pong_line(ping_message@),
            !self@.connected ==> r is Err && r->Err_0@ == ErrorView::ConnectionError(
                ConnectionErrorView::WebsocketNotConnected,
            ),
    {
        self.send(line_of("PONG :", ping_message))
    }

    /// The line that leaves the channel.
    pub fn part(&self, channel_name: &str) -> (r: Result<String, Error>)
        ensures
            self@.connected ==> r is Ok && r->Ok_0@ == part_line(channel_name@),
            !self@.connected ==> r is Err && r->Err_0@ == ErrorView::ConnectionError(
                ConnectionErrorView::WebsocketNotConnected,
            ),
    {
        self.send(line_of("PART #", channel_name))
    }

    /// The line that posts `message` to the channel. Nothing in either
    /// text is escaped.
    pub fn privmsg(&self, channel_name: &str, message: &str) -> (r: Result<String, Error>)
        ensures
            self@.connected ==> r is Ok && r->Ok_0@ == privmsg_line(channel_name@, message@),
            !self@.connected ==> r is Err && r->Err_0@ == ErrorView::ConnectionError(
                ConnectionErrorView::WebsocketNotConnected,
            ),
    {
        let mut line = String::from_str("PRIVMSG #");
        line.append(channel_name);
        line.append(" :");
        line.append(message);
        self.send(line)
    }

    /// Decides what to do with a pending message whose turn has come.
    fn turn(&self, front: Result<IRCMessage, MessageParseError>) -> (step: Step)
        ensures
            step@ == turn_of(self@.auto_pong, self@.connected, message_outcome(front)),
    {
        match front {
            Ok(IRCMessage::Ping(text)) => {
                if self.auto_pong {
                    match self.pong(text.as_str()) {
                        Ok(line) => Step::Pong(line),
                        Err(e) => Step::Ready(Some(Err(e))),
                    }
                } else {
                    Step::Ready(Some(Ok(IRCMessage::Ping(text))))
                }
            },
            Ok(message) => Step::Ready(Some(Ok(message))),
            Err(e) => Step::Ready(Some(Err(Error::MessageParseError(e)))),
        }
    }

    /// Goes on towards the next message, as `next_of` says.
    ///
    /// The caller does what the step asks for and calls again, until a
    /// step is `Ready`.
    pub fn next(&mut self) -> (step: Step)
        ensures
            final(self).spec_credentials() == old(self).spec_credentials(),
            (final(self)@, step@) == next_of(old(self)@),
    {
        match self.message_buffer.pop_front() {
            Some(front) => {
                proof {
                    assert(self@.pending =~= old(self)@.pending.skip(1));
                }
                self.turn(front)
            },
            None => {
                if self.connected {
                    Step::Receive
                } else {
                    Step::Ready(Some(Err(not_connected())))
                }
            },
        }
    }

    /// Takes in the frame that the transport handed over, as `receive_of`
    /// says.
    pub fn receive(&mut self, frame: Frame) -> (step: Step)
        ensures
            final(self).spec_credentials() == old(self).spec_credentials(),
            (final(self)@, step@) == receive_of(old(self)@, frame),
    {
        proof {
            assert(old(self)@.pending + Seq::empty() =~= old(self)@.pending);
        }
        match frame {
            Frame::Failed(detail) => {
                return Step::Ready(
                    Some(Err(Error::ConnectionError(ConnectionError::ReceiveMessageFailure(detail)))),
                );
            },
            Frame::Text(text) => {
                self.enqueue(text.as_str());
            },
            _ => {},
        }
        let ghost all = self@.pending;
        match self.message_buffer.pop_front() {
            Some(front) => {
                proof {
                    assert(self@.pending =~= all.skip(1));
                }
                self.turn(front)
            },
            None => Step::Ready(None),
        }
    }

    /// Reads the lines of `text` and adds them to the pending messages.
    fn enqueue(&mut self, text: &str)
        ensures
            final(self).spec_credentials() == old(self).spec_credentials(),
            final(self)@ == (TwitchClientView {
                pending: old(self)@.pending + messages_of(lines_of(text@)),
                ..old(self)@
            }),
    {
        let lines = split_lines(text);
        let mut i: usize = 0;
        proof {
            assert(old(self)@.pending + messages_of(lines.deep_view().take(0)) =~= old(
                self,
            )@.pending);
        }
        while i < lines.len()
            invariant
                i <= lines.len(),
                lines.deep_view() == lines_of(text@),
                self.spec_credentials() == old(self).spec_credentials(),
                self@ == (TwitchClientView {
                    pending: old(self)@.pending + messages_of(lines.deep_view().take(i as int)),
                    ..old(self)@
                }),
            decreases lines.len() - i,
        {
            let ghost before = self@.pending;
            let read = parse_message(lines[i].as_str());
            self.message_buffer.push_back(read);
            proof {
                assert(self@.pending =~= before.push(message_outcome(read)));
                assert(messages_of(lines.deep_view().take(i + 1)) =~= messages_of(
                    lines.deep_view().take(i as int),
                ).push(message_of(lines@[i as int]@)));
            }
            i += 1;
        }
        proof {
            assert(lines.deep_view().take(i as int) =~= lines.deep_view());
        }
    }
}

} // verus!
