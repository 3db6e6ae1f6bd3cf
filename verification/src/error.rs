//! What can go wrong: while reading a line, on the connection, and while
//! renewing the access token.

use vstd::prelude::*;
use vstd::std_specs::convert::FromSpecImpl;
use vstd::string::StringExecFns;

verus! {

/// Why a line, or a tag of it, could not be read.
#[derive(Debug, PartialEq, Eq)]
pub enum MessageParseError {
    /// The named tag is absent.
    MissingTag(String),
    /// A tag entry, or the value of a tag, is not of the expected form.
    InvalidTag(String),
    /// A badge entry has no `/version` part.
    InvalidBadge(String),
    /// The version of a badge entry is no number.
    InvalidBadgeVersion(String),
    /// The value (second) of the named tag (first) is neither `1` nor `0`.
    InvalidBoolValue(String, String),
    /// The value (second) of the named tag (first) is no number.
    InvalidIntValue(String, String),
    /// An emote entry is not of the expected form.
    MalformedEmote(String),
    /// The user type is none of the known ones.
    InvalidUserType(String),
    /// The line has no command, or lacks a part that its command requires.
    MalformedLine(String),
}

/// A `MessageParseError` with its texts as character sequences.
pub enum MessageParseErrorView {
    MissingTag(Seq<char>),
    InvalidTag(Seq<char>),
    InvalidBadge(Seq<char>),
    InvalidBadgeVersion(Seq<char>),
    InvalidBoolValue(Seq<char>, Seq<char>),
    InvalidIntValue(Seq<char>, Seq<char>),
    MalformedEmote(Seq<char>),
    InvalidUserType(Seq<char>),
    MalformedLine(Seq<char>),
}

impl View for MessageParseError {
    type V = MessageParseErrorView;

    open spec fn view(&self) -> MessageParseErrorView {
        match self {
            MessageParseError::MissingTag(tag) => MessageParseErrorView::MissingTag(tag@),
            MessageParseError::InvalidTag(text) => MessageParseErrorView::InvalidTag(text@),
            MessageParseError::InvalidBadge(text) => MessageParseErrorView::InvalidBadge(text@),
            MessageParseError::InvalidBadgeVersion(text) => MessageParseErrorView::InvalidBadgeVersion(
                text@,
            ),
            MessageParseError::InvalidBoolValue(tag, value) => MessageParseErrorView::InvalidBoolValue(
                tag@,
                value@,
            ),
            MessageParseError::InvalidIntValue(tag, value) => MessageParseErrorView::InvalidIntValue(
                tag@,
                value@,
            ),
            MessageParseError::MalformedEmote(text) => MessageParseErrorView::MalformedEmote(text@),
            MessageParseError::InvalidUserType(text) => MessageParseErrorView::InvalidUserType(text@),
            MessageParseError::MalformedLine(line) => MessageParseErrorView::MalformedLine(line@),
        }
    }
}

impl MessageParseErrorView {
    /// The sentence that describes the error.
    pub open spec fn message(self) -> Seq<char> {
        match self {
            MessageParseErrorView::MissingTag(tag) => "no value for tag: "@ + tag,
            MessageParseErrorView::InvalidTag(text) => "tag is invalid: "@ + text,
            MessageParseErrorView::InvalidBadge(text) => "badge is invalid: "@ + text,
            MessageParseErrorView::InvalidBadgeVersion(text) => "badge version is invalid: "@ + text,
            MessageParseErrorView::InvalidBoolValue(tag, value) => "value for tag "@ + tag
                + " could not be converted to boolean: "@ + value,
            MessageParseErrorView::InvalidIntValue(tag, value) => "value for tag "@ + tag
                + " could not be converted to u32: "@ + value,
            MessageParseErrorView::MalformedEmote(text) => "emote is invalid: "@ + text,
            MessageParseErrorView::InvalidUserType(text) => "user type "@ + text + " is invalid"@,
            MessageParseErrorView::MalformedLine(line) => "line is invalid: "@ + line,
        }
    }
}

/// `head`, then `body`.
fn sentence(head: &str, body: &str) -> (text: String)
    ensures
        text@ == head@ + body@,
{
    let mut text = String::from_str(head);
    text.append(body);
    text
}

/// `head`, then `first`, then `middle`, then `second`.
fn sentence_of_two(head: &str, first: &str, middle: &str, second: &str) -> (text: String)
    ensures
        text@ == head@ + first@ + middle@ + second@,
{
    let mut text = String::from_str(head);
    text.append(first);
    text.append(middle);
    text.append(second);
    text
}

impl MessageParseError {
    /// The sentence that describes the error.
    pub fn to_string(&self) -> (text: String)
        ensures
            text@ == self@.message(),
    {
        match self {
            MessageParseError::MissingTag(tag) => sentence("no value for tag: ", tag.as_str()),
            MessageParseError::InvalidTag(text) => sentence("tag is invalid: ", text.as_str()),
            MessageParseError::InvalidBadge(text) => sentence("badge is invalid: ", text.as_str()),
            MessageParseError::InvalidBadgeVersion(text) => sentence(
                "badge version is invalid: ",
                text.as_str(),
            ),
            MessageParseError::InvalidBoolValue(tag, value) => sentence_of_two(
                "value for tag ",
                tag.as_str(),
                " could not be converted to boolean: ",
                value.as_str(),
            ),
            MessageParseError::InvalidIntValue(tag, value) => sentence_of_two(
                "value for tag ",
                tag.as_str(),
                " could not be converted to u32: ",
                value.as_str(),
            ),
            MessageParseError::MalformedEmote(text) => sentence("emote is invalid: ", text.as_str()),
            MessageParseError::InvalidUserType(text) => {
                let mut sentence = String::from_str("user type ");
                sentence.append(text.as_str());
                sentence.append(" is invalid");
                sentence
            },
            MessageParseError::MalformedLine(line) => sentence("line is invalid: ", line.as_str()),
        }
    }
}

/// Why an operation on the connection failed. A failure of the transport
/// carries the transport's own description of it.
#[derive(Debug, PartialEq, Eq)]
pub enum ConnectionError {
    /// The operation needs a connection and there is none.
    WebsocketNotConnected,
    /// The connection could not be opened.
    WebsocketConnectionError(String),
    /// A line could not be sent.
    SendMessageFailure(String),
    /// No frame could be received.
    ReceiveMessageFailure(String),
}

/// A `ConnectionError` with its texts as character sequences.
pub enum ConnectionErrorView {
    WebsocketNotConnected,
    WebsocketConnectionError(Seq<char>),
    SendMessageFailure(Seq<char>),
    ReceiveMessageFailure(Seq<char>),
}

impl View for ConnectionError {
    type V = ConnectionErrorView;

    open spec fn view(&self) -> ConnectionErrorView {
        match self {
            ConnectionError::WebsocketNotConnected => ConnectionErrorView::WebsocketNotConnected,
            ConnectionError::WebsocketConnectionError(detail) => ConnectionErrorView::WebsocketConnectionError(
                detail@,
            ),
            ConnectionError::SendMessageFailure(detail) => ConnectionErrorView::SendMessageFailure(
                detail@,
            ),
            ConnectionError::ReceiveMessageFailure(detail) => ConnectionErrorView::ReceiveMessageFailure(
                detail@,
            ),
        }
    }
}

impl ConnectionErrorView {
    /// The sentence that describes the error.
    pub open spec fn message(self) -> Seq<char> {
        match self {
            ConnectionErrorView::WebsocketNotConnected => "websocket is not connected"@,
            ConnectionErrorView::WebsocketConnectionError(detail) => "error opening websocket connection: "@
                + detail,
            ConnectionErrorView::SendMessageFailure(detail) => "error sending message: "@ + detail,
            ConnectionErrorView::ReceiveMessageFailure(detail) => "error receiving message: "@
                + detail,
        }
    }
}

impl ConnectionError {
    /// The sentence that describes the error.
    pub fn to_string(&self) -> (text: String)
        ensures
            text@ == self@.message(),
    {
        match self {
            ConnectionError::WebsocketNotConnected => String::from_str("websocket is not connected"),
            ConnectionError::WebsocketConnectionError(detail) => sentence(
                "error opening websocket connection: ",
                detail.as_str(),
            ),
            ConnectionError::SendMessageFailure(detail) => sentence(
                "error sending message: ",
                detail.as_str(),
            ),
            ConnectionError::ReceiveMessageFailure(detail) => sentence(
                "error receiving message: ",
                detail.as_str(),
            ),
        }
    }
}

/// Any failure of the client.
#[derive(Debug, PartialEq, Eq)]
pub enum Error {
    /// The connection failed.
    ConnectionError(ConnectionError),
    /// A received line could not be read.
    MessageParseError(MessageParseError),
    /// The access token could not be renewed; carries the description that
    /// the token service or the HTTP layer gave.
    RefreshAccessTokenError(String),
}

/// An `Error` with its texts as character sequences.
pub enum ErrorView {
    ConnectionError(ConnectionErrorView),
    MessageParseError(MessageParseErrorView),
    RefreshAccessTokenError(Seq<char>),
}

impl View for Error {
    type V = ErrorView;

    open spec fn view(&self) -> ErrorView {
        match self {
            Error::ConnectionError(e) => ErrorView::ConnectionError(e@),
            Error::MessageParseError(e) => ErrorView::MessageParseError(e@),
            Error::RefreshAccessTokenError(detail) => ErrorView::RefreshAccessTokenError(detail@),
        }
    }
}

impl ErrorView {
    /// The sentence that describes the error.
    pub open spec fn message(self) -> Seq<char> {
        match self {
            ErrorView::ConnectionError(e) => "connection error: "@ + e.message(),
            ErrorView::MessageParseError(e) => "error handling twitch message: "@ + e.message(),
            ErrorView::RefreshAccessTokenError(detail) => "error refreshing access token: "@
                + detail,
        }
    }
}

impl Error {
    /// The sentence that describes the error.
    pub fn to_string(&self) -> (text: String)
        ensures
            text@ == self@.message(),
    {
        match self {
            Error::ConnectionError(e) => {
                let inner = e.to_string();
                sentence("connection error: ", inner.as_str())
            },
            Error::MessageParseError(e) => {
                let inner = e.to_string();
                sentence("error handling twitch message: ", inner.as_str())
            },
            Error::RefreshAccessTokenError(detail) => sentence(
                "error refreshing access token: ",
                detail.as_str(),
            ),
        }
    }
}

impl FromSpecImpl<ConnectionError> for Error {
    open spec fn obeys_from_spec() -> bool {
        true
    }

    open spec fn from_spec(value: ConnectionError) -> Error {
        Error::ConnectionError(value)
    }
}

impl From<ConnectionError> for Error {
    fn from(value: ConnectionError) -> (error: Error) {
        Error::ConnectionError(value)
    }
}

} // verus!
