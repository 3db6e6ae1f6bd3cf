//! The mapping from tag names to raw values.

use vstd::prelude::*;

verus! {

/// One tag: its name and its raw value.
#[derive(Debug)]
struct Tag {
    key: String,
    value: String,
}

/// Whether the tag at position `i` of `entries` has the name `key`.
spec fn names(entries: Seq<Tag>, i: int, key: Seq<char>) -> bool {
    0 <= i < entries.len() && entries[i].key@ == key
}

/// No two tags of `entries` have the same name.
spec fn distinct(entries: Seq<Tag>) -> bool {
    forall|i: int, j: int|
        0 <= i < j < entries.len() ==> (#[trigger] entries[i]).key@ != (#[trigger] entries[j]).key@
}

/// The mapping that `entries` write down.
spec fn mapping(entries: Seq<Tag>) -> Map<Seq<char>, Seq<char>> {
    Map::new(
        |key: Seq<char>| exists|i: int| names(entries, i, key),
        |key: Seq<char>| entries[choose|i: int| names(entries, i, key)].value@,
    )
}

/// Among distinct names, the tag at position `i` decides what its name is
/// mapped to.
proof fn lemma_mapping_at(entries: Seq<Tag>, i: int)
    requires
        distinct(entries),
        0 <= i < entries.len(),
    ensures
        mapping(entries).dom().contains(entries[i].key@),
        mapping(entries)[entries[i].key@] == entries[i].value@,
{
    let key = entries[i].key@;
    assert(names(entries, i, key));
    let chosen = choose|j: int| names(entries, j, key);
    assert(names(entries, chosen, key));
    if chosen < i {
        assert(entries[chosen].key@ != entries[i].key@);
    } else if i < chosen {
        assert(entries[i].key@ != entries[chosen].key@);
    }
}

/// The tags of one message: a mapping from tag names to raw values, in
/// which a name occurs once. A tag written without a value after its `=`
/// is mapped to the empty text, which is not the same as being absent.
#[derive(Debug)]
pub struct TagMap {
    entries: Vec<Tag>,
}

impl View for TagMap {
    type V = Map<Seq<char>, Seq<char>>;

    closed spec fn view(&self) -> Map<Seq<char>, Seq<char>> {
        mapping(self.entries@)
    }
}

impl TagMap {
    #[verifier::type_invariant]
    spec fn well_formed(self) -> bool {
        distinct(self.entries@)
    }

    /// A mapping without tags.
    pub fn new() -> (tags: TagMap)
        ensures
            tags@ == Map::<Seq<char>, Seq<char>>::empty(),
    {
        let tags = TagMap { entries: Vec::new() };
        assert(tags@ =~= Map::<Seq<char>, Seq<char>>::empty()) by {
            assert forall|key: Seq<char>| !mapping(tags.entries@).dom().contains(key) by {
                if mapping(tags.entries@).dom().contains(key) {
                    let i = choose|i: int| names(tags.entries@, i, key);
                    assert(names(tags.entries@, i, key));
                }
            }
        }
        tags
    }

    /// The position of the tag named `key`, or the number of tags when
    /// there is none.
    fn position(&self, key: &String) -> (at: usize)
        ensures
            at <= self.entries.len(),
            at < self.entries.len() ==> self.entries@[at as int].key@ == key@,
            at == self.entries.len() ==> !self@.dom().contains(key@),
    {
        let mut i: usize = 0;
        while i < self.entries.len()
            invariant
                i <= self.entries.len(),
                forall|j: int| 0 <= j < i ==> self.entries@[j].key@ != key@,
            decreases self.entries.len() - i,
        {
            if self.entries[i].key == *key {
                return i;
            }
            i += 1;
        }
        proof {
            if self@.dom().contains(key@) {
                let j = choose|j: int| names(self.entries@, j, key@);
                assert(names(self.entries@, j, key@));
            }
        }
        i
    }

    /// Maps `key` to `value`, in place of what it was mapped to before.
    pub fn insert(&mut self, key: String, value: String)
        ensures
            final(self)@ == old(self)@.insert(key@, value@),
    {
        proof {
            use_type_invariant(&*self);
        }
        let ghost before = self.entries@;
        let at = self.position(&key);
        let tag = Tag { key, value };
        let ghost tag_key = tag.key@;
        let ghost tag_value = tag.value@;
        let mut taken = TagMap { entries: Vec::new() };
        core::mem::swap(self, &mut taken);
        let mut entries = taken.entries;
        if at < entries.len() {
            entries.set(at, tag);
        } else {
            entries.push(tag);
        }
        proof {
            let after = entries@;
            assert(distinct(after)) by {
                assert forall|i: int, j: int| 0 <= i < j < after.len() implies (#[trigger] after[i]).key@
                    != (#[trigger] after[j]).key@ by {
                    if at < before.len() {
                        assert(before[i].key@ != before[j].key@);
                    } else if j == at {
                        if before[i].key@ == tag_key {
                            assert(names(before, i, tag_key));
                        }
                    } else {
                        assert(before[i].key@ != before[j].key@);
                    }
                }
            }
            assert(mapping(after) =~= mapping(before).insert(tag_key, tag_value)) by {
                assert forall|key: Seq<char>|
                    mapping(after).dom().contains(key) <==> mapping(before).insert(
                        tag_key,
                        tag_value,
                    ).dom().contains(key) by {
                    if mapping(after).dom().contains(key) {
                        let i = choose|i: int| names(after, i, key);
                        assert(names(after, i, key));
                        if key != tag_key {
                            assert(names(before, i, key));
                        }
                    }
                    if mapping(before).dom().contains(key) {
                        let i = choose|i: int| names(before, i, key);
                        assert(names(before, i, key));
                        assert(names(after, i, key));
                    }
                    if key == tag_key {
                        assert(names(after, at as int, key));
                    }
                }
                assert forall|key: Seq<char>| mapping(after).dom().contains(key) implies mapping(
                    after,
                )[key] == mapping(before).insert(tag_key, tag_value)[key] by {
                    let i = choose|i: int| names(after, i, key);
                    assert(names(after, i, key));
                    lemma_mapping_at(after, i);
                    if key != tag_key {
                        assert(names(before, i, key));
                        lemma_mapping_at(before, i);
                    } else {
                        lemma_mapping_at(after, at as int);
                    }
                }
            }
        }
        *self = TagMap { entries };
    }

    /// The raw value of the tag named `key`, if the tag is present.
    pub fn get(&self, key: &str) -> (value: Option<&String>)
        ensures
            match value {
                Some(text) => self@.dom().contains(key@) && text@ == self@[key@],
                None => !self@.dom().contains(key@),
            },
    {
        proof {
            use_type_invariant(self);
        }
        let name = key.to_owned();
        let at = self.position(&name);
        if at < self.entries.len() {
            proof {
                lemma_mapping_at(self.entries@, at as int);
            }
            Some(&self.entries[at].value)
        } else {
            None
        }
    }

    /// All tags, each name with its raw value. Every name of the mapping
    /// occurs once, in no order that callers may rely on.
    pub fn entries(&self) -> (pairs: Vec<(String, String)>)
        ensures
            self@.dom().finite(),
            pairs.len() == self@.dom().len(),
            forall|i: int|
                0 <= i < pairs.len() ==> self@.dom().contains((#[trigger] pairs[i]).0@)
                    && self@[pairs[i].0@] == pairs[i].1@,
            forall|i: int, j: int|
                0 <= i < j < pairs.len() ==> (#[trigger] pairs[i]).0@ != (#[trigger] pairs[j]).0@,
    {
        proof {
            use_type_invariant(self);
            lemma_mapping_size(self.entries@);
        }
        let mut pairs: Vec<(String, String)> = Vec::new();
        let mut i: usize = 0;
        while i < self.entries.len()
            invariant
                i <= self.entries.len(),
                pairs.len() == i,
                distinct(self.entries@),
                forall|j: int|
                    0 <= j < i ==> (#[trigger] pairs[j]).0@ == self.entries@[j].key@ && pairs[j].1@
                        == self.entries@[j].value@,
            decreases self.entries.len() - i,
        {
            let tag = &self.entries[i];
            pairs.push((tag.key.clone(), tag.value.clone()));
            i += 1;
        }
        proof {
            assert forall|j: int| 0 <= j < pairs.len() implies self@.dom().contains(
                (#[trigger] pairs[j]).0@,
            ) && self@[pairs[j].0@] == pairs[j].1@ by {
                lemma_mapping_at(self.entries@, j);
            }
            assert forall|j: int, k: int| 0 <= j < k < pairs.len() implies (#[trigger] pairs[j]).0@
                != (#[trigger] pairs[k]).0@ by {
                assert(self.entries@[j].key@ != self.entries@[k].key@);
            }
        }
        pairs
    }

    /// Whether a tag named `key` is present.
    pub fn contains_key(&self, key: &str) -> (present: bool)
        ensures
            present == self@.dom().contains(key@),
    {
        self.get(key).is_some()
    }

    /// The number of tags.
    pub fn len(&self) -> (n: usize)
        ensures
            n == self@.dom().len(),
            self@.dom().finite(),
    {
        proof {
            use_type_invariant(self);
            lemma_mapping_size(self.entries@);
        }
        self.entries.len()
    }

    /// Whether there is no tag.
    pub fn is_empty(&self) -> (empty: bool)
        ensures
            empty == (self@.dom().len() == 0),
            self@.dom().finite(),
    {
        self.len() == 0
    }
}

/// Distinct names make as many mapped names as there are tags.
proof fn lemma_mapping_size(entries: Seq<Tag>)
    requires
        distinct(entries),
    ensures
        mapping(entries).dom().finite(),
        mapping(entries).dom().len() == entries.len(),
    decreases entries.len(),
{
    if entries.len() == 0 {
        assert(mapping(entries).dom() =~= Set::<Seq<char>>::empty()) by {
            assert forall|key: Seq<char>| !mapping(entries).dom().contains(key) by {
                if mapping(entries).dom().contains(key) {
                    let i = choose|i: int| names(entries, i, key);
                    assert(names(entries, i, key));
                }
            }
        }
    } else {
        let front = entries.drop_last();
        let last = entries.last();
        assert(distinct(front)) by {
            assert forall|i: int, j: int| 0 <= i < j < front.len() implies (#[trigger] front[i]).key@
                != (#[trigger] front[j]).key@ by {
                assert(entries[i].key@ != entries[j].key@);
            }
        }
        lemma_mapping_size(front);
        assert(!mapping(front).dom().contains(last.key@)) by {
            if mapping(front).dom().contains(last.key@) {
                let i = choose|i: int| names(front, i, last.key@);
                assert(names(front, i, last.key@));
                assert(entries[i].key@ != entries[entries.len() - 1].key@);
            }
        }
        assert(mapping(entries).dom() =~= mapping(front).dom().insert(last.key@)) by {
            assert forall|key: Seq<char>|
                mapping(entries).dom().contains(key) <==> mapping(front).dom().insert(
                    last.key@,
                ).contains(key) by {
                if mapping(entries).dom().contains(key) {
                    let i = choose|i: int| names(entries, i, key);
                    assert(names(entries, i, key));
                    if i < front.len() {
                        assert(names(front, i, key));
                    }
                }
                if mapping(front).dom().contains(key) {
                    let i = choose|i: int| names(front, i, key);
                    assert(names(front, i, key));
                    assert(names(entries, i, key));
                }
                if key == last.key@ {
                    assert(names(entries, entries.len() - 1, key));
                }
            }
        }
    }
}

} // verus!
