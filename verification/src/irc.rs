//! The line grammar and the messages that lines are read as.
//!
//! A line has the shape `[@tags ][:source ]command[ :trailing]`. It is
//! taken apart by `split_line` and read as a message by `parse_message`.

use crate::error::{MessageParseError, MessageParseErrorView};
use crate::tag_map::TagMap;
use crate::tags::{
    badges_tag, flag_tag, parse_tags, tags_of, user_type_tag, Badge, Tags, UserType,
};
use crate::text::{decimal, find, has_prefix, index_of, parse_u32, substring, to_chars};
use vstd::prelude::*;

verus! {

/// Who sent a line: a host, and a nickname where the source names one.
#[derive(Debug, PartialEq, Eq)]
pub struct Source {
    pub nick: Option<String>,
    pub host: String,
}

/// A `Source` with its texts as character sequences.
pub struct SourceView {
    pub nick: Option<Seq<char>>,
    pub host: Seq<char>,
}

impl View for Source {
    type V = SourceView;

    open spec fn view(&self) -> SourceView {
        SourceView {
            nick: match self.nick {
                Some(nick) => Some(nick@),
                None => None,
            },
            host: self.host@,
        }
    }
}

/// The source that a source blob names. With a `!` in it, the nickname
/// stands before the first `!` and the host after it; without, the whole
/// blob is the host.
pub open spec fn source_of(blob: Seq<char>) -> SourceView {
    let i = index_of(blob, '!') as int;
    if i < blob.len() {
        SourceView { nick: Some(blob.take(i)), host: blob.skip(i + 1) }
    } else {
        SourceView { nick: None, host: blob }
    }
}

/// Reads the source blob of a line: the part between the `:` that
/// introduces it and the space that follows.
pub fn parse_source(source_component: &str) -> (source: Source)
    ensures
        source@ == source_of(source_component@),
{
    let chars = to_chars(source_component);
    let bang = find(&chars, 0, '!');
    proof {
        assert(chars@.skip(0) =~= chars@);
    }
    if bang < chars.len() {
        Source {
            nick: Some(substring(source_component, 0, bang)),
            host: substring(source_component, bang + 1, chars.len()),
        }
    } else {
        Source { nick: None, host: source_component.to_owned() }
    }
}

/// The parts of a line, apart from reading any of them.
#[derive(Debug, PartialEq, Eq)]
pub struct LineParts {
    /// The tag blob, where the line begins with `@`.
    pub tags: Option<String>,
    /// The source blob, where a `:` introduces one.
    pub source: Option<String>,
    /// The command with its own parameters, such as `PRIVMSG #channel`.
    pub command: String,
    /// What follows the first ` :` behind the command.
    pub trailing: Option<String>,
}

/// `LineParts` with its texts as character sequences.
pub struct LinePartsView {
    pub tags: Option<Seq<char>>,
    pub source: Option<Seq<char>>,
    pub command: Seq<char>,
    pub trailing: Option<Seq<char>>,
}

/// The text of an optional string.
pub open spec fn optional_text(text: Option<String>) -> Option<Seq<char>> {
    match text {
        Some(text) => Some(text@),
        None => None,
    }
}

impl View for LineParts {
    type V = LinePartsView;

    open spec fn view(&self) -> LinePartsView {
        LinePartsView {
            tags: optional_text(self.tags),
            source: optional_text(self.source),
            command: self.command@,
            trailing: optional_text(self.trailing),
        }
    }
}

/// The content of the segment at the start of `s`: what stands between the
/// character that introduces it and the next space, or the end.
pub open spec fn segment(s: Seq<char>) -> Seq<char> {
    let body = s.skip(1);
    body.take(index_of(body, ' ') as int)
}

/// What follows the segment at the start of `s` and the space that ends it.
pub open spec fn after_segment(s: Seq<char>) -> Seq<char> {
    let body = s.skip(1);
    let i = index_of(body, ' ') as int;
    if i < body.len() {
        body.skip(i + 1)
    } else {
        Seq::empty()
    }
}

/// Position of the first space in `s` that a `:` follows, or `s.len()`
/// when there is none.
pub open spec fn index_of_mark(s: Seq<char>) -> nat
    decreases s.len(),
{
    if s.len() < 2 {
        s.len()
    } else if s[0] == ' ' && s[1] == ':' {
        0
    } else {
        1 + index_of_mark(s.drop_first())
    }
}

/// Whether a space at position `i` of `s` has a `:` behind it.
pub open spec fn is_mark(s: Seq<char>, i: int) -> bool {
    0 <= i && i + 1 < s.len() && s[i] == ' ' && s[i + 1] == ':'
}

/// A position that passes over no mark and stops on one (or at the end) is
/// the one `index_of_mark` names.
pub proof fn lemma_index_of_mark_unique(s: Seq<char>, k: int)
    requires
        0 <= k <= s.len(),
        forall|j: int| 0 <= j < k ==> !is_mark(s, j),
        k < s.len() ==> is_mark(s, k),
    ensures
        index_of_mark(s) == k,
    decreases s.len(),
{
    if s.len() < 2 {
        if k < s.len() {
            assert(is_mark(s, k));
        }
    } else if s[0] == ' ' && s[1] == ':' {
        if k > 0 {
            assert(is_mark(s, 0));
        }
    } else {
        let rest = s.drop_first();
        assert(k > 0) by {
            if k == 0 {
                assert(is_mark(s, 0));
            }
        }
        assert forall|j: int| 0 <= j < k - 1 implies !is_mark(rest, j) by {
            assert(!is_mark(s, j + 1));
        }
        if k - 1 < rest.len() {
            assert(is_mark(s, k));
        }
        lemma_index_of_mark_unique(rest, k - 1);
    }
}

/// `s` without the spaces at its end.
pub open spec fn trim_end(s: Seq<char>) -> Seq<char>
    decreases s.len(),
{
    if s.len() > 0 && s.last() == ' ' {
        trim_end(s.drop_last())
    } else {
        s
    }
}

/// The command in `body`, the part of a line behind its tags and source:
/// what stands before the first space that a `:` follows, without the
/// spaces at its end.
pub open spec fn command_of(body: Seq<char>) -> Seq<char> {
    trim_end(body.take(index_of_mark(body) as int))
}

/// The trailing parameter in `body`: all that stands behind the first
/// space that a `:` follows, and behind that `:`.
pub open spec fn trailing_of(body: Seq<char>) -> Option<Seq<char>> {
    let mark = index_of_mark(body) as int;
    if mark < body.len() {
        Some(body.skip(mark + 2))
    } else {
        None
    }
}

/// The parts of a line of the shape `[@tags ][:source ]command[ :trailing]`.
///
/// A line that begins with `@` has a tag blob, which ends at the next
/// space. What follows has a source blob if it begins with `:`, again up to
/// the next space. What follows that holds the command and, behind the
/// first space that a `:` follows, the trailing parameter.
pub open spec fn line_parts(line: Seq<char>) -> LinePartsView {
    let tagged = line.len() > 0 && line[0] == '@';
    let rest = if tagged {
        after_segment(line)
    } else {
        line
    };
    let sourced = rest.len() > 0 && rest[0] == ':';
    let body = if sourced {
        after_segment(rest)
    } else {
        rest
    };
    LinePartsView {
        tags: if tagged {
            Some(segment(line))
        } else {
            None
        },
        source: if sourced {
            Some(segment(rest))
        } else {
            None
        },
        command: command_of(body),
        trailing: trailing_of(body),
    }
}

/// Scans `chars` from `from` for the first space that a `:` follows: its
/// position, or `chars.len()` when there is none.
fn find_mark(chars: &Vec<char>, from: usize) -> (at: usize)
    requires
        from <= chars.len(),
    ensures
        from <= at <= chars.len(),
        at < chars.len() ==> at + 2 <= chars.len(),
        at == from + index_of_mark(chars@.skip(from as int)),
{
    let n = chars.len();
    let mut i: usize = from;
    let ghost s = chars@.skip(from as int);
    while i < n && !(i + 1 < n && chars[i] == ' ' && chars[i + 1] == ':')
        invariant
            n == chars.len(),
            s == chars@.skip(from as int),
            from <= i <= n,
            forall|j: int| 0 <= j < i - from ==> !is_mark(s, j),
        decreases n - i,
    {
        i += 1;
    }
    proof {
        if i < n {
            assert(is_mark(s, i - from));
        }
        lemma_index_of_mark_unique(s, i - from);
    }
    i
}

/// Reads the segment that begins at `at`, behind the character that
/// introduces it: its content, and where the rest of the line begins.
fn read_segment(line: &str, chars: &Vec<char>, at: usize) -> (r: (String, usize))
    requires
        chars@ == line@,
        at < chars.len(),
    ensures
        r.0@ == segment(line@.skip(at as int)),
        at < r.1 <= chars.len(),
        line@.skip(r.1 as int) == after_segment(line@.skip(at as int)),
{
    let end = find(chars, at + 1, ' ');
    let content = substring(line, at + 1, end);
    let next = if end < chars.len() {
        end + 1
    } else {
        end
    };
    proof {
        let s = line@.skip(at as int);
        let body = s.skip(1);
        assert(body =~= line@.skip(at + 1));
        assert(content@ =~= segment(s));
        assert(line@.skip(next as int) =~= after_segment(s));
    }
    (content, next)
}

/// Reads the command and the trailing parameter, which begin at `at`.
fn read_command(line: &str, chars: &Vec<char>, at: usize) -> (r: (String, Option<String>))
    requires
        chars@ == line@,
        at <= chars.len(),
    ensures
        r.0@ == command_of(line@.skip(at as int)),
        optional_text(r.1) == trailing_of(line@.skip(at as int)),
{
    let n = chars.len();
    let ghost body = line@.skip(at as int);
    let mark = find_mark(chars, at);
    let mut end: usize = mark;
    proof {
        assert(line@.subrange(at as int, mark as int) =~= body.take(mark - at));
    }
    while end > at && chars[end - 1] == ' '
        invariant
            chars@ == line@,
            at <= end <= mark <= n,
            n == chars.len(),
            trim_end(line@.subrange(at as int, mark as int)) == trim_end(
                line@.subrange(at as int, end as int),
            ),
        decreases end,
    {
        proof {
            assert(line@.subrange(at as int, end as int).drop_last() =~= line@.subrange(
                at as int,
                end - 1,
            ));
        }
        end -= 1;
    }
    let command = substring(line, at, end);
    let trailing = if mark < n {
        proof {
            assert(line@.subrange(mark + 2, n as int) =~= body.skip(mark - at + 2));
        }
        Some(substring(line, mark + 2, n))
    } else {
        None
    };
    (command, trailing)
}

/// Takes a line apart.
pub fn split_line(line: &str) -> (parts: LineParts)
    ensures
        parts@ == line_parts(line@),
{
    let chars = to_chars(line);
    let n = chars.len();
    let mut at: usize = 0;
    let mut tags: Option<String> = None;
    let mut source: Option<String> = None;
    proof {
        assert(line@.skip(0) =~= line@);
    }
    if n > 0 && chars[0] == '@' {
        let (content, next) = read_segment(line, &chars, 0);
        tags = Some(content);
        at = next;
    }
    if at < n && chars[at] == ':' {
        let (content, next) = read_segment(line, &chars, at);
        source = Some(content);
        at = next;
    }
    let (command, trailing) = read_command(line, &chars, at);
    LineParts { tags, source, command, trailing }
}

/// What the tags of a chat message say of its author.
#[derive(Debug)]
pub struct UserContext {
    pub username: String,
    pub user_type: UserType,
    pub is_mod: bool,
    pub is_returning_chatter: bool,
    pub is_first_message: bool,
    /// Whether the author carries a broadcaster badge. No tag says so.
    pub is_broadcaster: bool,
    pub is_subscriber: bool,
    pub is_turbo: bool,
    pub user_id: String,
    pub badges: Vec<Badge>,
}

/// A `UserContext` with its texts as character sequences.
pub struct UserContextView {
    pub username: Seq<char>,
    pub user_type: UserType,
    pub is_mod: bool,
    pub is_returning_chatter: bool,
    pub is_first_message: bool,
    pub is_broadcaster: bool,
    pub is_subscriber: bool,
    pub is_turbo: bool,
    pub user_id: Seq<char>,
    pub badges: Seq<Badge>,
}

impl View for UserContext {
    type V = UserContextView;

    open spec fn view(&self) -> UserContextView {
        UserContextView {
            username: self.username@,
            user_type: self.user_type,
            is_mod: self.is_mod,
            is_returning_chatter: self.is_returning_chatter,
            is_first_message: self.is_first_message,
            is_broadcaster: self.is_broadcaster,
            is_subscriber: self.is_subscriber,
            is_turbo: self.is_turbo,
            user_id: self.user_id@,
            badges: self.badges@,
        }
    }
}

/// A line of the chat protocol, read.
#[derive(Debug)]
pub enum IRCMessage {
    /// A keep-alive probe, with the text to answer it with.
    Ping(String),
    Notice { source: Source, message: String },
    Part { source: Source, message: String },
    /// A chat message, with all its tags and what they say of the author.
    Privmsg { tags: TagMap, user_context: UserContext, source: Source, message: String },
    /// A numeric reply of the server.
    Numbered { number: u32, source: Source, message: String },
    /// Any other command, as it stands in the line.
    Unknown { command: String },
}

/// An `IRCMessage` with its texts as character sequences and its tags as a
/// mapping.
pub enum IRCMessageView {
    Ping(Seq<char>),
    Notice { source: SourceView, message: Seq<char> },
    Part { source: SourceView, message: Seq<char> },
    Privmsg {
        tags: Map<Seq<char>, Seq<char>>,
        user_context: UserContextView,
        source: SourceView,
        message: Seq<char>,
    },
    Numbered { number: u32, source: SourceView, message: Seq<char> },
    Unknown { command: Seq<char> },
}

impl View for IRCMessage {
    type V = IRCMessageView;

    open spec fn view(&self) -> IRCMessageView {
        match self {
            IRCMessage::Ping(text) => IRCMessageView::Ping(text@),
            IRCMessage::Notice { source, message } => IRCMessageView::Notice {
                source: source@,
                message: message@,
            },
            IRCMessage::Part { source, message } => IRCMessageView::Part {
                source: source@,
                message: message@,
            },
            IRCMessage::Privmsg { tags, user_context, source, message } => IRCMessageView::Privmsg {
                tags: tags@,
                user_context: user_context@,
                source: source@,
                message: message@,
            },
            IRCMessage::Numbered { number, source, message } => IRCMessageView::Numbered {
                number: *number,
                source: source@,
                message: message@,
            },
            IRCMessage::Unknown { command } => IRCMessageView::Unknown { command: command@ },
        }
    }
}

/// Whether one of the badges is a broadcaster badge.
pub open spec fn has_broadcaster(badges: Seq<Badge>) -> bool {
    exists|i: int| 0 <= i < badges.len() && #[trigger] badges[i] is Broadcaster
}

/// What the tags say of the author of a chat message. Every tag named here
/// is required; they are read in this order, and the first that is absent
/// or cannot be read decides the error.
pub open spec fn user_context_of(tags: Map<Seq<char>, Seq<char>>) -> Result<
    UserContextView,
    MessageParseErrorView,
> {
    if badges_tag(tags) is Err {
        Err(badges_tag(tags)->Err_0)
    } else if !tags.dom().contains("display-name"@) {
        Err(MessageParseErrorView::MissingTag("display-name"@))
    } else if !tags.dom().contains("user-id"@) {
        Err(MessageParseErrorView::MissingTag("user-id"@))
    } else if user_type_tag(tags) is Err {
        Err(user_type_tag(tags)->Err_0)
    } else if flag_tag(tags, "turbo"@) is Err {
        Err(flag_tag(tags, "turbo"@)->Err_0)
    } else if flag_tag(tags, "subscriber"@) is Err {
        Err(flag_tag(tags, "subscriber"@)->Err_0)
    } else if flag_tag(tags, "mod"@) is Err {
        Err(flag_tag(tags, "mod"@)->Err_0)
    } else if flag_tag(tags, "first-msg"@) is Err {
        Err(flag_tag(tags, "first-msg"@)->Err_0)
    } else if flag_tag(tags, "returning-chatter"@) is Err {
        Err(flag_tag(tags, "returning-chatter"@)->Err_0)
    } else {
        Ok(
            UserContextView {
                username: tags["display-name"@],
                user_type: user_type_tag(tags)->Ok_0,
                is_mod: flag_tag(tags, "mod"@)->Ok_0,
                is_returning_chatter: flag_tag(tags, "returning-chatter"@)->Ok_0,
                is_first_message: flag_tag(tags, "first-msg"@)->Ok_0,
                is_broadcaster: has_broadcaster(badges_tag(tags)->Ok_0),
                is_subscriber: flag_tag(tags, "subscriber"@)->Ok_0,
                is_turbo: flag_tag(tags, "turbo"@)->Ok_0,
                user_id: tags["user-id"@],
                badges: badges_tag(tags)->Ok_0,
            },
        )
    }
}

/// The first word of a command: what stands before its first space.
pub open spec fn first_word(command: Seq<char>) -> Seq<char> {
    command.take(index_of(command, ' ') as int)
}

/// The message that the parts of `line` make, given the mapping that its
/// tag blob writes down (the empty mapping where it has none).
///
/// The command decides by how it begins: `PING`, `PRIVMSG`, `NOTICE` and
/// `PART` each make their message; a command whose first word is a number
/// makes a numeric reply; any other is unknown. A ping requires the
/// trailing parameter, the others but the unknown require it and the
/// source, and a chat message requires its tags before either.
pub open spec fn message_of_parts(
    line: Seq<char>,
    parts: LinePartsView,
    tags: Map<Seq<char>, Seq<char>>,
) -> Result<IRCMessageView, MessageParseErrorView> {
    let malformed = Err(MessageParseErrorView::MalformedLine(line));
    if "PING"@.is_prefix_of(parts.command) {
        match parts.trailing {
            Some(text) => Ok(IRCMessageView::Ping(text)),
            None => malformed,
        }
    } else if "PRIVMSG"@.is_prefix_of(parts.command) {
        match user_context_of(tags) {
            Err(e) => Err(e),
            Ok(user_context) => match (parts.source, parts.trailing) {
                (Some(source), Some(message)) => Ok(
                    IRCMessageView::Privmsg { tags, user_context, source: source_of(source), message },
                ),
                _ => malformed,
            },
        }
    } else if "NOTICE"@.is_prefix_of(parts.command) {
        match (parts.source, parts.trailing) {
            (Some(source), Some(message)) => Ok(
                IRCMessageView::Notice { source: source_of(source), message },
            ),
            _ => malformed,
        }
    } else if "PART"@.is_prefix_of(parts.command) {
        match (parts.source, parts.trailing) {
            (Some(source), Some(message)) => Ok(
                IRCMessageView::Part { source: source_of(source), message },
            ),
            _ => malformed,
        }
    } else {
        match decimal(first_word(parts.command)) {
            Some(number) => match (parts.source, parts.trailing) {
                (Some(source), Some(message)) => Ok(
                    IRCMessageView::Numbered { number, source: source_of(source), message },
                ),
                _ => malformed,
            },
            None => Ok(IRCMessageView::Unknown { command: parts.command }),
        }
    }
}

/// The message that `line` is read as. A line without a command is
/// malformed; a tag blob that writes down no mapping fails the line with
/// its own error.
pub open spec fn message_of(line: Seq<char>) -> Result<IRCMessageView, MessageParseErrorView> {
    let parts = line_parts(line);
    if parts.command.len() == 0 {
        Err(MessageParseErrorView::MalformedLine(line))
    } else {
        match parts.tags {
            None => message_of_parts(line, parts, Map::empty()),
            Some(blob) => match tags_of(blob) {
                Err(e) => Err(e),
                Ok(tags) => message_of_parts(line, parts, tags),
            },
        }
    }
}

/// A result with its message and its error taken by their views.
pub open spec fn message_outcome(r: Result<IRCMessage, MessageParseError>) -> Result<
    IRCMessageView,
    MessageParseErrorView,
> {
    match r {
        Ok(message) => Ok(message@),
        Err(e) => Err(e@),
    }
}

/// A result with its user context and its error taken by their views.
pub open spec fn user_context_outcome(r: Result<UserContext, MessageParseError>) -> Result<
    UserContextView,
    MessageParseErrorView,
> {
    match r {
        Ok(user_context) => Ok(user_context@),
        Err(e) => Err(e@),
    }
}

/// Whether one of the badges is a broadcaster badge.
fn any_broadcaster(badges: &Vec<Badge>) -> (found: bool)
    ensures
        found == has_broadcaster(badges@),
{
    let mut i: usize = 0;
    while i < badges.len()
        invariant
            i <= badges.len(),
            forall|j: int| 0 <= j < i ==> !(#[trigger] badges@[j] is Broadcaster),
        decreases badges.len() - i,
    {
        match badges[i] {
            Badge::Broadcaster(_) => {
                return true;
            },
            _ => {},
        }
        i += 1;
    }
    false
}

/// The owned text of the tag `key`.
fn required_text(tags: &TagMap, key: &str) -> (r: Result<String, MessageParseError>)
    ensures
        match r {
            Ok(text) => tags@.dom().contains(key@) && text@ == tags@[key@],
            Err(e) => !tags@.dom().contains(key@) && e@ == MessageParseErrorView::MissingTag(key@),
        },
{
    match tags.get(key) {
        Some(text) => Ok(text.clone()),
        None => Err(MessageParseError::MissingTag(key.to_owned())),
    }
}

/// Reads from the tags of a chat message what they say of its author.
pub fn user_context(tags: &TagMap) -> (r: Result<UserContext, MessageParseError>)
    ensures
        user_context_outcome(r) == user_context_of(tags@),
{
    let badges = match tags.try_get_badges() {
        Ok(badges) => badges,
        Err(e) => {
            return Err(e);
        },
    };
    let username = match required_text(tags, "display-name") {
        Ok(text) => text,
        Err(e) => {
            return Err(e);
        },
    };
    let user_id = match required_text(tags, "user-id") {
        Ok(text) => text,
        Err(e) => {
            return Err(e);
        },
    };
    let user_type = match tags.try_get_user_type() {
        Ok(user_type) => user_type,
        Err(e) => {
            return Err(e);
        },
    };
    let is_turbo = match tags.try_get_bool("turbo") {
        Ok(flag) => flag,
        Err(e) => {
            return Err(e);
        },
    };
    let is_subscriber = match tags.try_get_bool("subscriber") {
        Ok(flag) => flag,
        Err(e) => {
            return Err(e);
        },
    };
    let is_mod = match tags.try_get_bool("mod") {
        Ok(flag) => flag,
        Err(e) => {
            return Err(e);
        },
    };
    let is_first_message = match tags.try_get_bool("first-msg") {
        Ok(flag) => flag,
        Err(e) => {
            return Err(e);
        },
    };
    let is_returning_chatter = match tags.try_get_bool("returning-chatter") {
        Ok(flag) => flag,
        Err(e) => {
            return Err(e);
        },
    };
    let is_broadcaster = any_broadcaster(&badges);
    Ok(
        UserContext {
            username,
            user_type,
            is_mod,
            is_returning_chatter,
            is_first_message,
            is_broadcaster,
            is_subscriber,
            is_turbo,
            user_id,
            badges,
        },
    )
}

/// The source and the trailing parameter of a line whose command requires
/// both.
fn source_and_trailing(line: &str, source: Option<String>, trailing: Option<String>) -> (r: Result<
    (Source, String),
    MessageParseError,
>)
    ensures
        match r {
            Ok(pair) => optional_text(source) is Some && optional_text(trailing) is Some
                && pair.0@ == source_of(optional_text(source)->Some_0) && pair.1@ == optional_text(
                trailing,
            )->Some_0,
            Err(e) => (optional_text(source) is None || optional_text(trailing) is None) && e@
                == MessageParseErrorView::MalformedLine(line@),
        },
{
    match (source, trailing) {
        (Some(source), Some(message)) => Ok((parse_source(source.as_str()), message)),
        _ => Err(MessageParseError::MalformedLine(line.to_owned())),
    }
}

/// Reads one line, given without its line ending.
pub fn parse_message(line: &str) -> (r: Result<IRCMessage, MessageParseError>)
    ensures
        message_outcome(r) == message_of(line@),
{
    let parts = split_line(line);
    let LineParts { tags, source, command, trailing } = parts;
    if command.as_str().is_empty() {
        return Err(MessageParseError::MalformedLine(line.to_owned()));
    }
    let tags = match tags {
        None => TagMap::new(),
        Some(blob) => match parse_tags(blob.as_str()) {
            Ok(tags) => tags,
            Err(e) => {
                return Err(e);
            },
        },
    };
    let word = to_chars(command.as_str());
    if has_prefix(&word, "PING") {
        match trailing {
            Some(text) => Ok(IRCMessage::Ping(text)),
            None => Err(MessageParseError::MalformedLine(line.to_owned())),
        }
    } else if has_prefix(&word, "PRIVMSG") {
        let user_context = match user_context(&tags) {
            Ok(user_context) => user_context,
            Err(e) => {
                return Err(e);
            },
        };
        match source_and_trailing(line, source, trailing) {
            Ok((source, message)) => Ok(IRCMessage::Privmsg { tags, user_context, source, message }),
            Err(e) => Err(e),
        }
    } else if has_prefix(&word, "NOTICE") {
        match source_and_trailing(line, source, trailing) {
            Ok((source, message)) => Ok(IRCMessage::Notice { source, message }),
            Err(e) => Err(e),
        }
    } else if has_prefix(&word, "PART") {
        match source_and_trailing(line, source, trailing) {
            Ok((source, message)) => Ok(IRCMessage::Part { source, message }),
            Err(e) => Err(e),
        }
    } else {
        let space = find(&word, 0, ' ');
        proof {
            assert(word@.skip(0) =~= word@);
            assert(command@.subrange(0, space as int) =~= first_word(command@));
        }
        let first = substring(command.as_str(), 0, space);
        match parse_u32(first.as_str()) {
            Some(number) => match source_and_trailing(line, source, trailing) {
                Ok((source, message)) => Ok(IRCMessage::Numbered { number, source, message }),
                Err(e) => Err(e),
            },
            None => Ok(IRCMessage::Unknown { command }),
        }
    }
}

/// Reading is repeatable: whatever `parse_message` returns for a line, it
/// returns the same message or the same error for that line again. What a
/// line is read as depends on the line alone.
pub proof fn lemma_parse_message_repeatable(
    line: &str,
    first: Result<IRCMessage, MessageParseError>,
    second: Result<IRCMessage, MessageParseError>,
)
    requires
        call_ensures(parse_message, (line,), first),
        call_ensures(parse_message, (line,), second),
    ensures
        message_outcome(first) == message_outcome(second),
{
}

} // verus!
