//! The tags of a message: the mapping from tag names to raw values, and the
//! typed readings of those values (flags, numbers, badges, emotes, the
//! user's type).

use crate::error::{MessageParseError, MessageParseErrorView};
use crate::tag_map::TagMap;
use crate::text::{
    decimal, equal, find, index_of, parse_u32, pieces, split, substring, to_chars,
};
use vstd::prelude::*;
use vstd::std_specs::convert::TryFromSpecImpl;

verus! {

/// A result with its error taken by its view.
pub open spec fn outcome<T>(r: Result<T, MessageParseError>) -> Result<T, MessageParseErrorView> {
    match r {
        Ok(value) => Ok(value),
        Err(e) => Err(e@),
    }
}

/// A result with its list and its error taken by their views.
pub open spec fn list_outcome<T>(r: Result<Vec<T>, MessageParseError>) -> Result<
    Seq<T>,
    MessageParseErrorView,
> {
    match r {
        Ok(list) => Ok(list@),
        Err(e) => Err(e@),
    }
}

/// The role of a user on the platform as a whole.
#[derive(Debug, PartialEq, Eq, Clone, Copy)]
pub enum UserType {
    User,
    Admin,
    GlobalMod,
    Staff,
}

/// The user type that `value` names: the empty text is an ordinary user,
/// and any text other than the four known ones names none.
pub open spec fn user_type_of(value: Seq<char>) -> Option<UserType> {
    if value.len() == 0 {
        Some(UserType::User)
    } else if value == "admin"@ {
        Some(UserType::Admin)
    } else if value == "global_mod"@ {
        Some(UserType::GlobalMod)
    } else if value == "staff"@ {
        Some(UserType::Staff)
    } else {
        None
    }
}

/// What `UserType::try_from` returns, over views.
pub open spec fn user_type_result(value: Seq<char>) -> Result<UserType, MessageParseErrorView> {
    match user_type_of(value) {
        Some(user_type) => Ok(user_type),
        None => Err(MessageParseErrorView::InvalidUserType(value)),
    }
}

/// The conversion is specified by the `ensures` of `try_from`, which speaks
/// of the error by its view. No equation between values is claimed: two
/// errors with the same text need not be the same value.
impl TryFromSpecImpl<&str> for UserType {
    open spec fn obeys_try_from_spec() -> bool {
        false
    }

    open spec fn try_from_spec(value: &str) -> Result<UserType, MessageParseError> {
        match user_type_of(value@) {
            Some(user_type) => Ok(user_type),
            None => Err(
                choose|e: MessageParseError| e@ == MessageParseErrorView::InvalidUserType(value@),
            ),
        }
    }
}

impl TryFrom<&str> for UserType {
    type Error = MessageParseError;

    fn try_from(value: &str) -> (r: Result<UserType, MessageParseError>)
        ensures
            outcome(r) == user_type_result(value@),
    {
        if value.is_empty() {
            Ok(UserType::User)
        } else if equal(value, "admin") {
            Ok(UserType::Admin)
        } else if equal(value, "global_mod") {
            Ok(UserType::GlobalMod)
        } else if equal(value, "staff") {
            Ok(UserType::Staff)
        } else {
            Err(MessageParseError::InvalidUserType(value.to_owned()))
        }
    }
}

/// A marker that a user carries in chat, with its version.
#[derive(Debug, PartialEq, Eq, Clone, Copy)]
pub enum Badge {
    Admin(u32),
    Bits(u32),
    Broadcaster(u32),
    Moderator(u32),
    Subscriber(u32),
    Staff(u32),
    Turbo(u32),
    /// Any badge that has no variant of its own.
    Other(u32),
}

/// The badge of the given name and version.
pub open spec fn badge_named(name: Seq<char>, version: u32) -> Badge {
    if name == "admin"@ {
        Badge::Admin(version)
    } else if name == "bits"@ {
        Badge::Bits(version)
    } else if name == "broadcaster"@ {
        Badge::Broadcaster(version)
    } else if name == "moderator"@ {
        Badge::Moderator(version)
    } else if name == "subscriber"@ {
        Badge::Subscriber(version)
    } else if name == "staff"@ {
        Badge::Staff(version)
    } else if name == "turbo"@ {
        Badge::Turbo(version)
    } else {
        Badge::Other(version)
    }
}

/// The badge that the entry `value` writes as `name/version`. What follows
/// a second `/` is not read.
pub open spec fn badge_of(value: Seq<char>) -> Result<Badge, MessageParseErrorView> {
    let parts = pieces(value, '/');
    if parts.len() < 2 {
        Err(MessageParseErrorView::InvalidBadge(value))
    } else {
        match decimal(parts[1]) {
            Some(version) => Ok(badge_named(parts[0], version)),
            None => Err(MessageParseErrorView::InvalidBadgeVersion(value)),
        }
    }
}

/// The conversion is specified by the `ensures` of `try_from`, which speaks
/// of the error by its view. No equation between values is claimed: two
/// errors with the same text need not be the same value.
impl TryFromSpecImpl<&str> for Badge {
    open spec fn obeys_try_from_spec() -> bool {
        false
    }

    open spec fn try_from_spec(value: &str) -> Result<Badge, MessageParseError> {
        match badge_of(value@) {
            Ok(badge) => Ok(badge),
            Err(view) => Err(choose|e: MessageParseError| e@ == view),
        }
    }
}

impl TryFrom<&str> for Badge {
    type Error = MessageParseError;

    fn try_from(value: &str) -> (r: Result<Badge, MessageParseError>)
        ensures
            outcome(r) == badge_of(value@),
    {
        let parts = split(value, '/');
        if parts.len() < 2 {
            return Err(MessageParseError::InvalidBadge(value.to_owned()));
        }
        let version = match parse_u32(parts[1].as_str()) {
            Some(version) => version,
            None => {
                return Err(MessageParseError::InvalidBadgeVersion(value.to_owned()));
            },
        };
        let name = parts[0].as_str();
        Ok(
            if equal(name, "admin") {
                Badge::Admin(version)
            } else if equal(name, "bits") {
                Badge::Bits(version)
            } else if equal(name, "broadcaster") {
                Badge::Broadcaster(version)
            } else if equal(name, "moderator") {
                Badge::Moderator(version)
            } else if equal(name, "subscriber") {
                Badge::Subscriber(version)
            } else if equal(name, "staff") {
                Badge::Staff(version)
            } else if equal(name, "turbo") {
                Badge::Turbo(version)
            } else {
                Badge::Other(version)
            },
        )
    }
}

/// An emote in the text of a message: which one, and the first and last
/// position that it covers.
#[derive(Debug, PartialEq, Eq)]
pub struct Emote {
    pub id: String,
    pub start_position: u32,
    pub end_position: u32,
}

/// An `Emote` with its identifier as a character sequence.
pub struct EmoteView {
    pub id: Seq<char>,
    pub start_position: u32,
    pub end_position: u32,
}

impl View for Emote {
    type V = EmoteView;

    open spec fn view(&self) -> EmoteView {
        EmoteView {
            id: self.id@,
            start_position: self.start_position,
            end_position: self.end_position,
        }
    }
}

/// Why an emote entry could not be read.
#[derive(Debug, PartialEq, Eq, Clone, Copy)]
pub enum ParseEmoteError {
    /// The entry has no `:`, or its range has no `-`.
    MalformedEmoteString,
    /// A bound of the range is no number.
    InvalidRange,
}

/// The emote that the entry `value` writes as `id:start-end`. The start is
/// read before the end is looked for. What follows a second `:`, or a
/// second `-` of the range, is not read.
pub open spec fn emote_of(value: Seq<char>) -> Result<EmoteView, ParseEmoteError> {
    let parts = pieces(value, ':');
    if parts.len() < 2 {
        Err(ParseEmoteError::MalformedEmoteString)
    } else {
        let range = pieces(parts[1], '-');
        match decimal(range[0]) {
            None => Err(ParseEmoteError::InvalidRange),
            Some(start) => if range.len() < 2 {
                Err(ParseEmoteError::MalformedEmoteString)
            } else {
                match decimal(range[1]) {
                    None => Err(ParseEmoteError::InvalidRange),
                    Some(end) => Ok(
                        EmoteView { id: parts[0], start_position: start, end_position: end },
                    ),
                }
            },
        }
    }
}

/// A result with its emote taken by its view.
pub open spec fn emote_outcome(r: Result<Emote, ParseEmoteError>) -> Result<
    EmoteView,
    ParseEmoteError,
> {
    match r {
        Ok(emote) => Ok(emote@),
        Err(e) => Err(e),
    }
}

/// The conversion is specified by the `ensures` of `try_from`, which speaks
/// of the emote by its view. No equation between values is claimed: two
/// emotes with the same identifier text need not be the same value.
impl TryFromSpecImpl<&str> for Emote {
    open spec fn obeys_try_from_spec() -> bool {
        false
    }

    open spec fn try_from_spec(value: &str) -> Result<Emote, ParseEmoteError> {
        match emote_of(value@) {
            Ok(view) => Ok(choose|emote: Emote| emote@ == view),
            Err(e) => Err(e),
        }
    }
}

impl TryFrom<&str> for Emote {
    type Error = ParseEmoteError;

    fn try_from(value: &str) -> (r: Result<Emote, ParseEmoteError>)
        ensures
            emote_outcome(r) == emote_of(value@),
    {
        let mut parts = split(value, ':');
        if parts.len() < 2 {
            return Err(ParseEmoteError::MalformedEmoteString);
        }
        let range = split(parts[1].as_str(), '-');
        proof {
            crate::text::lemma_pieces_not_empty(parts@[1]@, '-');
        }
        let start_position = match parse_u32(range[0].as_str()) {
            Some(start) => start,
            None => {
                return Err(ParseEmoteError::InvalidRange);
            },
        };
        if range.len() < 2 {
            return Err(ParseEmoteError::MalformedEmoteString);
        }
        let end_position = match parse_u32(range[1].as_str()) {
            Some(end) => end,
            None => {
                return Err(ParseEmoteError::InvalidRange);
            },
        };
        let id = parts.swap_remove(0);
        Ok(Emote { id, start_position, end_position })
    }
}

/// Whether the entry has an `=`, and with it a value, which may be empty.
pub open spec fn has_value(entry: Seq<char>) -> bool {
    index_of(entry, '=') < entry.len()
}

/// The name of a tag entry: what stands before its first `=`.
pub open spec fn entry_key(entry: Seq<char>) -> Seq<char> {
    entry.take(index_of(entry, '=') as int)
}

/// The value of a tag entry: what stands after its first `=`.
pub open spec fn entry_value(entry: Seq<char>) -> Seq<char> {
    entry.skip(index_of(entry, '=') as int + 1)
}

/// The mapping that the entries write down when read in order. The first
/// entry without a value is an error. A name that occurs again is mapped
/// to the value of its last entry.
pub open spec fn entries_tags(entries: Seq<Seq<char>>) -> Result<
    Map<Seq<char>, Seq<char>>,
    MessageParseErrorView,
>
    decreases entries.len(),
{
    if entries.len() == 0 {
        Ok(Map::empty())
    } else {
        match entries_tags(entries.drop_last()) {
            Err(e) => Err(e),
            Ok(tags) => if has_value(entries.last()) {
                Ok(tags.insert(entry_key(entries.last()), entry_value(entries.last())))
            } else {
                Err(MessageParseErrorView::InvalidTag(entries.last()))
            },
        }
    }
}

/// The mapping that a tag blob writes down: entries separated by `;`, each
/// of the form `name=value`.
pub open spec fn tags_of(blob: Seq<char>) -> Result<Map<Seq<char>, Seq<char>>, MessageParseErrorView> {
    entries_tags(pieces(blob, ';'))
}

/// A result with its mapping and its error taken by their views.
pub open spec fn tags_outcome(r: Result<TagMap, MessageParseError>) -> Result<
    Map<Seq<char>, Seq<char>>,
    MessageParseErrorView,
> {
    match r {
        Ok(tags) => Ok(tags@),
        Err(e) => Err(e@),
    }
}

/// Reads a tag blob: the part of a line between its leading `@` and the
/// space that follows.
pub fn parse_tags(tags_component: &str) -> (r: Result<TagMap, MessageParseError>)
    ensures
        tags_outcome(r) == tags_of(tags_component@),
{
    let entries = split(tags_component, ';');
    let mut tags = TagMap::new();
    let mut i: usize = 0;
    proof {
        assert(entries.deep_view().take(0) =~= Seq::<Seq<char>>::empty());
    }
    while i < entries.len()
        invariant
            i <= entries.len(),
            entries.deep_view() == pieces(tags_component@, ';'),
            entries_tags(entries.deep_view().take(i as int)) == Ok::<
                Map<Seq<char>, Seq<char>>,
                MessageParseErrorView,
            >(tags@),
        decreases entries.len() - i,
    {
        let entry = entries[i].as_str();
        let chars = to_chars(entry);
        let eq = find(&chars, 0, '=');
        proof {
            let read = entries.deep_view().take(i + 1);
            assert(read.drop_last() =~= entries.deep_view().take(i as int));
            assert(read.last() == entry@);
            assert(chars@.skip(0) =~= chars@);
        }
        if eq >= chars.len() {
            proof {
                lemma_entries_tags_error(entries.deep_view(), i + 1);
            }
            return Err(MessageParseError::InvalidTag(entry.to_owned()));
        }
        let key = substring(entry, 0, eq);
        let value = substring(entry, eq + 1, chars.len());
        tags.insert(key, value);
        i += 1;
    }
    proof {
        assert(entries.deep_view().take(i as int) =~= entries.deep_view());
    }
    Ok(tags)
}

/// An error among the first `k` entries is the error of the whole.
pub proof fn lemma_entries_tags_error(entries: Seq<Seq<char>>, k: int)
    requires
        0 <= k <= entries.len(),
        entries_tags(entries.take(k)) is Err,
    ensures
        entries_tags(entries) == entries_tags(entries.take(k)),
    decreases entries.len(),
{
    if k == entries.len() {
        assert(entries.take(k) =~= entries);
    } else {
        let front = entries.drop_last();
        assert(front.take(k) =~= entries.take(k));
        lemma_entries_tags_error(front, k);
    }
}

/// The flag that the tag `key` holds: `1` is true and `0` is false, and no
/// other value is a flag.
pub open spec fn flag_tag(tags: Map<Seq<char>, Seq<char>>, key: Seq<char>) -> Result<
    bool,
    MessageParseErrorView,
> {
    if !tags.dom().contains(key) {
        Err(MessageParseErrorView::MissingTag(key))
    } else if tags[key] == "1"@ {
        Ok(true)
    } else if tags[key] == "0"@ {
        Ok(false)
    } else {
        Err(MessageParseErrorView::InvalidBoolValue(key, tags[key]))
    }
}

/// A flag is true for the value `1` alone and false for the value `0`
/// alone, whatever the name of the tag: a tag with any other value, such
/// as the empty one, is no flag, and neither is an absent tag.
pub proof fn lemma_flag_tag(tags: Map<Seq<char>, Seq<char>>, key: Seq<char>)
    ensures
        flag_tag(tags, key) == Ok::<bool, MessageParseErrorView>(true) <==> tags.dom().contains(key)
            && tags[key] == seq!['1'],
        flag_tag(tags, key) == Ok::<bool, MessageParseErrorView>(false) <==> tags.dom().contains(
            key,
        ) && tags[key] == seq!['0'],
        flag_tag(tags, key) is Err <==> !tags.dom().contains(key) || (tags[key] != seq!['1']
            && tags[key] != seq!['0']),
{
    reveal_strlit("1");
    reveal_strlit("0");
    assert("1"@ =~= seq!['1']);
    assert("0"@ =~= seq!['0']);
    assert(seq!['1'][0] != seq!['0'][0]);
}

/// The number that the tag `key` holds.
pub open spec fn number_tag(tags: Map<Seq<char>, Seq<char>>, key: Seq<char>) -> Result<
    u32,
    MessageParseErrorView,
> {
    if !tags.dom().contains(key) {
        Err(MessageParseErrorView::MissingTag(key))
    } else {
        match decimal(tags[key]) {
            Some(number) => Ok(number),
            None => Err(MessageParseErrorView::InvalidIntValue(key, tags[key])),
        }
    }
}

/// The numbers that the entries write, if every entry writes one.
pub open spec fn numbers_of(entries: Seq<Seq<char>>) -> Option<Seq<u32>>
    decreases entries.len(),
{
    if entries.len() == 0 {
        Some(Seq::empty())
    } else {
        match (numbers_of(entries.drop_last()), decimal(entries.last())) {
            (Some(numbers), Some(number)) => Some(numbers.push(number)),
            _ => None,
        }
    }
}

/// The numbers that the tag `key` holds, separated by commas. An empty
/// entry is no number, so an empty value is no list.
pub open spec fn number_list_tag(tags: Map<Seq<char>, Seq<char>>, key: Seq<char>) -> Result<
    Seq<u32>,
    MessageParseErrorView,
> {
    if !tags.dom().contains(key) {
        Err(MessageParseErrorView::MissingTag(key))
    } else {
        match numbers_of(pieces(tags[key], ',')) {
            Some(numbers) => Ok(numbers),
            None => Err(MessageParseErrorView::InvalidTag(tags[key])),
        }
    }
}

/// The badges that the entries write when read in order. Empty entries are
/// passed over; the first entry that writes no badge is an error.
pub open spec fn badges_of(entries: Seq<Seq<char>>) -> Result<Seq<Badge>, MessageParseErrorView>
    decreases entries.len(),
{
    if entries.len() == 0 {
        Ok(Seq::empty())
    } else {
        match badges_of(entries.drop_last()) {
            Err(e) => Err(e),
            Ok(badges) => if entries.last().len() == 0 {
                Ok(badges)
            } else {
                match badge_of(entries.last()) {
                    Ok(badge) => Ok(badges.push(badge)),
                    Err(e) => Err(e),
                }
            },
        }
    }
}

/// The badges that the tag `badges` holds, separated by commas.
pub open spec fn badges_tag(tags: Map<Seq<char>, Seq<char>>) -> Result<
    Seq<Badge>,
    MessageParseErrorView,
> {
    if !tags.dom().contains("badges"@) {
        Err(MessageParseErrorView::MissingTag("badges"@))
    } else {
        badges_of(pieces(tags["badges"@], ','))
    }
}

/// The emotes that the entries write, empty entries passed over, if every
/// other entry writes one.
pub open spec fn emotes_of(entries: Seq<Seq<char>>) -> Option<Seq<EmoteView>>
    decreases entries.len(),
{
    if entries.len() == 0 {
        Some(Seq::empty())
    } else {
        match emotes_of(entries.drop_last()) {
            None => None,
            Some(emotes) => if entries.last().len() == 0 {
                Some(emotes)
            } else {
                match emote_of(entries.last()) {
                    Ok(emote) => Some(emotes.push(emote)),
                    Err(_) => None,
                }
            },
        }
    }
}

/// The emotes that the tag `emotes` holds, separated by commas.
pub open spec fn emotes_tag(tags: Map<Seq<char>, Seq<char>>) -> Result<
    Seq<EmoteView>,
    MessageParseErrorView,
> {
    if !tags.dom().contains("emotes"@) {
        Err(MessageParseErrorView::MissingTag("emotes"@))
    } else {
        match emotes_of(pieces(tags["emotes"@], ',')) {
            Some(emotes) => Ok(emotes),
            None => Err(MessageParseErrorView::InvalidTag(tags["emotes"@])),
        }
    }
}

/// The user type that the tag `user-type` holds.
pub open spec fn user_type_tag(tags: Map<Seq<char>, Seq<char>>) -> Result<
    UserType,
    MessageParseErrorView,
> {
    if !tags.dom().contains("user-type"@) {
        Err(MessageParseErrorView::MissingTag("user-type"@))
    } else {
        match user_type_of(tags["user-type"@]) {
            Some(user_type) => Ok(user_type),
            None => Err(MessageParseErrorView::InvalidTag(tags["user-type"@])),
        }
    }
}

/// The views of a list of emotes.
pub open spec fn emote_views(emotes: Seq<Emote>) -> Seq<EmoteView> {
    emotes.map_values(|emote: Emote| emote@)
}

/// A result with its emotes and its error taken by their views.
pub open spec fn emotes_outcome(r: Result<Vec<Emote>, MessageParseError>) -> Result<
    Seq<EmoteView>,
    MessageParseErrorView,
> {
    match r {
        Ok(emotes) => Ok(emote_views(emotes@)),
        Err(e) => Err(e@),
    }
}

/// No numbers among the first `k` entries means none for the whole.
pub proof fn lemma_numbers_of_none(entries: Seq<Seq<char>>, k: int)
    requires
        0 <= k <= entries.len(),
        numbers_of(entries.take(k)) is None,
    ensures
        numbers_of(entries) is None,
    decreases entries.len(),
{
    if k == entries.len() {
        assert(entries.take(k) =~= entries);
    } else {
        let front = entries.drop_last();
        assert(front.take(k) =~= entries.take(k));
        lemma_numbers_of_none(front, k);
    }
}

/// An error among the first `k` entries is the error of the whole.
pub proof fn lemma_badges_of_error(entries: Seq<Seq<char>>, k: int)
    requires
        0 <= k <= entries.len(),
        badges_of(entries.take(k)) is Err,
    ensures
        badges_of(entries) == badges_of(entries.take(k)),
    decreases entries.len(),
{
    if k == entries.len() {
        assert(entries.take(k) =~= entries);
    } else {
        let front = entries.drop_last();
        assert(front.take(k) =~= entries.take(k));
        lemma_badges_of_error(front, k);
    }
}

/// No emotes among the first `k` entries means none for the whole.
pub proof fn lemma_emotes_of_none(entries: Seq<Seq<char>>, k: int)
    requires
        0 <= k <= entries.len(),
        emotes_of(entries.take(k)) is None,
    ensures
        emotes_of(entries) is None,
    decreases entries.len(),
{
    if k == entries.len() {
        assert(entries.take(k) =~= entries);
    } else {
        let front = entries.drop_last();
        assert(front.take(k) =~= entries.take(k));
        lemma_emotes_of_none(front, k);
    }
}

/// Typed readings of the tags of a message.
pub trait Tags {
    /// The mapping from tag names to raw values that the readings go by.
    spec fn tags(&self) -> Map<Seq<char>, Seq<char>>;

    /// Reads the tag `key` as a flag.
    fn try_get_bool(&self, key: &str) -> (r: Result<bool, MessageParseError>)
        ensures
            outcome(r) == flag_tag(self.tags(), key@),
    ;

    /// Reads the tag `key` as a number.
    fn try_get_int(&self, key: &str) -> (r: Result<u32, MessageParseError>)
        ensures
            outcome(r) == number_tag(self.tags(), key@),
    ;

    /// Reads the tag `key` as a list of numbers.
    fn try_get_vec_int(&self, key: &str) -> (r: Result<Vec<u32>, MessageParseError>)
        ensures
            list_outcome(r) == number_list_tag(self.tags(), key@),
    ;

    /// Reads the badges of the user.
    fn try_get_badges(&self) -> (r: Result<Vec<Badge>, MessageParseError>)
        ensures
            list_outcome(r) == badges_tag(self.tags()),
    ;

    /// Reads the emotes of the message.
    fn try_get_emotes(&self) -> (r: Result<Vec<Emote>, MessageParseError>)
        ensures
            emotes_outcome(r) == emotes_tag(self.tags()),
    ;

    /// Reads the type of the user.
    fn try_get_user_type(&self) -> (r: Result<UserType, MessageParseError>)
        ensures
            outcome(r) == user_type_tag(self.tags()),
    ;
}

impl Tags for TagMap {
    open spec fn tags(&self) -> Map<Seq<char>, Seq<char>> {
        self@
    }

    fn try_get_bool(&self, key: &str) -> (r: Result<bool, MessageParseError>) {
        let value = match self.get(key) {
            Some(value) => value,
            None => {
                return Err(MessageParseError::MissingTag(key.to_owned()));
            },
        };
        if equal(value.as_str(), "1") {
            Ok(true)
        } else if equal(value.as_str(), "0") {
            Ok(false)
        } else {
            Err(MessageParseError::InvalidBoolValue(key.to_owned(), value.clone()))
        }
    }

    fn try_get_int(&self, key: &str) -> (r: Result<u32, MessageParseError>) {
        let value = match self.get(key) {
            Some(value) => value,
            None => {
                return Err(MessageParseError::MissingTag(key.to_owned()));
            },
        };
        match parse_u32(value.as_str()) {
            Some(number) => Ok(number),
            None => Err(MessageParseError::InvalidIntValue(key.to_owned(), value.clone())),
        }
    }

    fn try_get_vec_int(&self, key: &str) -> (r: Result<Vec<u32>, MessageParseError>) {
        let value = match self.get(key) {
            Some(value) => value,
            None => {
                return Err(MessageParseError::MissingTag(key.to_owned()));
            },
        };
        let entries = split(value.as_str(), ',');
        let mut numbers: Vec<u32> = Vec::new();
        let mut i: usize = 0;
        proof {
            assert(entries.deep_view().take(0) =~= Seq::<Seq<char>>::empty());
        }
        while i < entries.len()
            invariant
                i <= entries.len(),
                self@.dom().contains(key@),
                value@ == self@[key@],
                entries.deep_view() == pieces(value@, ','),
                numbers_of(entries.deep_view().take(i as int)) == Some(numbers@),
            decreases entries.len() - i,
        {
            proof {
                let read = entries.deep_view().take(i + 1);
                assert(read.drop_last() =~= entries.deep_view().take(i as int));
                assert(read.last() == entries@[i as int]@);
            }
            match parse_u32(entries[i].as_str()) {
                Some(number) => {
                    numbers.push(number);
                },
                None => {
                    proof {
                        lemma_numbers_of_none(entries.deep_view(), i + 1);
                    }
                    return Err(MessageParseError::InvalidTag(value.clone()));
                },
            }
            i += 1;
        }
        proof {
            assert(entries.deep_view().take(i as int) =~= entries.deep_view());
        }
        Ok(numbers)
    }

    fn try_get_badges(&self) -> (r: Result<Vec<Badge>, MessageParseError>) {
        let value = match self.get("badges") {
            Some(value) => value,
            None => {
                return Err(MessageParseError::MissingTag("badges".to_owned()));
            },
        };
        let entries = split(value.as_str(), ',');
        let mut badges: Vec<Badge> = Vec::new();
        let mut i: usize = 0;
        proof {
            assert(entries.deep_view().take(0) =~= Seq::<Seq<char>>::empty());
        }
        while i < entries.len()
            invariant
                i <= entries.len(),
                self@.dom().contains("badges"@),
                value@ == self@["badges"@],
                entries.deep_view() == pieces(value@, ','),
                badges_of(entries.deep_view().take(i as int)) == Ok::<
                    Seq<Badge>,
                    MessageParseErrorView,
                >(badges@),
            decreases entries.len() - i,
        {
            proof {
                let read = entries.deep_view().take(i + 1);
                assert(read.drop_last() =~= entries.deep_view().take(i as int));
                assert(read.last() == entries@[i as int]@);
            }
            let entry = entries[i].as_str();
            if !entry.is_empty() {
                match Badge::try_from(entry) {
                    Ok(badge) => {
                        badges.push(badge);
                    },
                    Err(e) => {
                        proof {
                            lemma_badges_of_error(entries.deep_view(), i + 1);
                        }
                        return Err(e);
                    },
                }
            }
            i += 1;
        }
        proof {
            assert(entries.deep_view().take(i as int) =~= entries.deep_view());
        }
        Ok(badges)
    }

    fn try_get_emotes(&self) -> (r: Result<Vec<Emote>, MessageParseError>) {
        let value = match self.get("emotes") {
            Some(value) => value,
            None => {
                return Err(MessageParseError::MissingTag("emotes".to_owned()));
            },
        };
        let entries = split(value.as_str(), ',');
        let mut emotes: Vec<Emote> = Vec::new();
        let mut i: usize = 0;
        proof {
            assert(entries.deep_view().take(0) =~= Seq::<Seq<char>>::empty());
            assert(emote_views(emotes@) =~= Seq::<EmoteView>::empty());
        }
        while i < entries.len()
            invariant
                i <= entries.len(),
                self@.dom().contains("emotes"@),
                value@ == self@["emotes"@],
                entries.deep_view() == pieces(value@, ','),
                emotes_of(entries.deep_view().take(i as int)) == Some(emote_views(emotes@)),
            decreases entries.len() - i,
        {
            proof {
                let read = entries.deep_view().take(i + 1);
                assert(read.drop_last() =~= entries.deep_view().take(i as int));
                assert(read.last() == entries@[i as int]@);
            }
            let entry = entries[i].as_str();
            if !entry.is_empty() {
                match Emote::try_from(entry) {
                    Ok(emote) => {
                        let ghost before = emotes@;
                        emotes.push(emote);
                        proof {
                            assert(emote_views(emotes@) =~= emote_views(before).push(emote@));
                        }
                    },
                    Err(_) => {
                        proof {
                            lemma_emotes_of_none(entries.deep_view(), i + 1);
                        }
                        return Err(MessageParseError::InvalidTag(value.clone()));
                    },
                }
            }
            i += 1;
        }
        proof {
            assert(entries.deep_view().take(i as int) =~= entries.deep_view());
        }
        Ok(emotes)
    }

    fn try_get_user_type(&self) -> (r: Result<UserType, MessageParseError>) {
        let value = match self.get("user-type") {
            Some(value) => value,
            None => {
                return Err(MessageParseError::MissingTag("user-type".to_owned()));
            },
        };
        match UserType::try_from(value.as_str()) {
            Ok(user_type) => Ok(user_type),
            Err(_) => Err(MessageParseError::InvalidTag(value.clone())),
        }
    }
}

/// Entries that write down a mapping all have a value; the mapping holds
/// the name of each, and maps the name of an entry that no later entry
/// repeats to that entry's value.
pub proof fn lemma_entries_tags_lookup(entries: Seq<Seq<char>>, i: int)
    requires
        entries_tags(entries) is Ok,
        0 <= i < entries.len(),
    ensures
        has_value(entries[i]),
        entries_tags(entries)->Ok_0.dom().contains(entry_key(entries[i])),
        (forall|j: int| i < j < entries.len() ==> entry_key(#[trigger] entries[j]) != entry_key(entries[i]))
            ==> entries_tags(entries)->Ok_0[entry_key(entries[i])] == entry_value(entries[i]),
    decreases entries.len(),
{
    let front = entries.drop_last();
    if i < entries.len() - 1 {
        lemma_entries_tags_lookup(front, i);
        assert(front[i] == entries[i]);
        if forall|j: int| i < j < entries.len() ==> entry_key(#[trigger] entries[j]) != entry_key(entries[i]) {
            assert(entry_key(entries[entries.len() - 1]) != entry_key(entries[i]));
            assert forall|j: int| i < j < front.len() implies entry_key(#[trigger] front[j])
                != entry_key(front[i]) by {
                assert(front[j] == entries[j]);
            }
        }
    }
}

/// Every name that the mapping of the entries holds is the name of one of
/// them.
pub proof fn lemma_entries_tags_names(entries: Seq<Seq<char>>, key: Seq<char>)
    requires
        entries_tags(entries) is Ok,
        entries_tags(entries)->Ok_0.dom().contains(key),
    ensures
        exists|i: int| 0 <= i < entries.len() && entry_key(#[trigger] entries[i]) == key,
    decreases entries.len(),
{
    if entries.len() > 0 {
        let front = entries.drop_last();
        if entry_key(entries.last()) == key {
            assert(entry_key(entries[entries.len() - 1]) == key);
        } else {
            lemma_entries_tags_names(front, key);
            let i = choose|i: int| 0 <= i < front.len() && entry_key(#[trigger] front[i]) == key;
            assert(entry_key(entries[i]) == key);
        }
    }
}

/// Round trip. Where a blob writes down a mapping, each of its entries has
/// the form `name=value`, and looking up the name of an entry gives back
/// the value of that entry, an empty value as well as any other. The one
/// exception follows from a name being mapped once: of several entries
/// with one name, the last is the one that is looked up.
pub proof fn lemma_parse_then_lookup(blob: Seq<char>, i: int)
    requires
        tags_of(blob) is Ok,
        0 <= i < pieces(blob, ';').len(),
        forall|j: int|
            i < j < pieces(blob, ';').len() ==> entry_key(#[trigger] pieces(blob, ';')[j])
                != entry_key(pieces(blob, ';')[i]),
    ensures
        has_value(pieces(blob, ';')[i]),
        tags_of(blob)->Ok_0.dom().contains(entry_key(pieces(blob, ';')[i])),
        tags_of(blob)->Ok_0[entry_key(pieces(blob, ';')[i])] == entry_value(
            pieces(blob, ';')[i],
        ),
{
    lemma_entries_tags_lookup(pieces(blob, ';'), i);
}

/// The mapping of a blob holds no name but those of its entries.
pub proof fn lemma_lookup_only_what_was_parsed(blob: Seq<char>, key: Seq<char>)
    requires
        tags_of(blob) is Ok,
        tags_of(blob)->Ok_0.dom().contains(key),
    ensures
        exists|i: int|
            0 <= i < pieces(blob, ';').len() && entry_key(#[trigger] pieces(blob, ';')[i]) == key,
{
    lemma_entries_tags_names(pieces(blob, ';'), key);
}

/// A blob writes down a mapping exactly when each of its entries has a
/// value.
pub proof fn lemma_tags_valid(blob: Seq<char>)
    ensures
        tags_of(blob) is Ok <==> forall|i: int|
            0 <= i < pieces(blob, ';').len() ==> has_value(#[trigger] pieces(blob, ';')[i]),
{
    lemma_entries_tags_valid(pieces(blob, ';'));
}

/// Entries write down a mapping exactly when each of them has a value.
pub proof fn lemma_entries_tags_valid(entries: Seq<Seq<char>>)
    ensures
        entries_tags(entries) is Ok <==> forall|i: int|
            0 <= i < entries.len() ==> has_value(#[trigger] entries[i]),
    decreases entries.len(),
{
    if entries.len() > 0 {
        let front = entries.drop_last();
        lemma_entries_tags_valid(front);
        if entries_tags(entries) is Ok {
            assert forall|i: int| 0 <= i < entries.len() implies has_value(#[trigger] entries[i]) by {
                if i < front.len() {
                    assert(has_value(front[i]));
                }
            }
        }
        if forall|i: int| 0 <= i < entries.len() ==> has_value(#[trigger] entries[i]) {
            assert forall|i: int| 0 <= i < front.len() implies has_value(#[trigger] front[i]) by {
                assert(front[i] == entries[i]);
            }
            assert(has_value(entries[entries.len() - 1]));
        }
    }
}

} // verus!
