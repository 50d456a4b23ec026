//! YAML documents as plain trees.

use crate::text;
use serde_yaml::Value;
use vstd::prelude::*;
use vstd::string::*;

verus! {

/// A value of a YAML document.
#[verifier::external_type_specification]
#[verifier::external_body]
pub struct ExYamlValue(serde_yaml::Value);

/// A YAML document.
pub enum Yaml {
    Null,
    Bool(bool),
    /// A number: as a signed and as an unsigned integer where it is one that fits, and the bits
    /// of the double nearest to it.
    Number { integer: Option<i64>, unsigned: Option<u64>, bits: u64 },
    Text(String),
    List(Vec<Yaml>),
    Mapping(Vec<YamlEntry>),
    /// A value with a tag.
    Tagged(String, Box<Yaml>),
}

/// An entry of a mapping, with the key as it is shown in messages.
pub struct YamlEntry {
    pub key: Yaml,
    pub shown: String,
    pub value: Yaml,
}

/// A YAML document as a mathematical tree.
pub enum YamlView {
    Null,
    Bool(bool),
    Number { integer: Option<i64>, unsigned: Option<u64>, bits: u64 },
    Text(Seq<char>),
    List(Seq<YamlView>),
    Mapping(Seq<YamlEntryView>),
    Tagged(Seq<char>, Box<YamlView>),
}

/// An entry of a mapping.
pub struct YamlEntryView {
    pub key: YamlView,
    pub shown: Seq<char>,
    pub value: YamlView,
}

impl View for Yaml {
    type V = YamlView;

    open spec fn view(&self) -> YamlView {
        tree(*self)
    }
}

/// The tree of a document.
pub open spec fn tree(y: Yaml) -> YamlView
    decreases y,
{
    match y {
        Yaml::Null => YamlView::Null,
        Yaml::Bool(b) => YamlView::Bool(b),
        Yaml::Number { integer, unsigned, bits } => YamlView::Number { integer, unsigned, bits },
        Yaml::Text(s) => YamlView::Text(s@),
        Yaml::List(items) => YamlView::List(
            Seq::new(
                items@.len(),
                |i: int|
                    if 0 <= i < items@.len() {
                        tree(items@[i])
                    } else {
                        YamlView::Null
                    },
            ),
        ),
        Yaml::Mapping(entries) => YamlView::Mapping(
            Seq::new(
                entries@.len(),
                |i: int|
                    if 0 <= i < entries@.len() {
                        entry_tree(entries@[i])
                    } else {
                        YamlEntryView {
                            key: YamlView::Null,
                            shown: Seq::empty(),
                            value: YamlView::Null,
                        }
                    },
            ),
        ),
        Yaml::Tagged(tag, inner) => YamlView::Tagged(tag@, Box::new(tree(*inner))),
    }
}

/// The tree of an entry.
pub open spec fn entry_tree(e: YamlEntry) -> YamlEntryView
    decreases e,
{
    YamlEntryView { key: tree(e.key), shown: e.shown@, value: tree(e.value) }
}

/// What a value of a document holds.
pub uninterp spec fn yaml_tree(value: serde_yaml::Value) -> YamlView;

/// What a text holds as a YAML document, or why it is none.
pub uninterp spec fn yaml_document(content: Seq<char>) -> Result<YamlView, Seq<char>>;

/// A document as text, or why it can not be written.
pub uninterp spec fn yaml_text(document: YamlView) -> Result<Seq<char>, Seq<char>>;

/// Reads a document: `serde_yaml::from_str` into a `serde_yaml::Value`. What comes out depends on
/// the text alone; which text holds what is left to that function.
#[verifier::external_body]
pub(crate) fn read_document(content: &str) -> (r: Result<serde_yaml::Value, String>)
    ensures
        match r {
            Ok(value) => yaml_document(content@) == Ok::<YamlView, Seq<char>>(yaml_tree(value)),
            Err(reason) => yaml_document(content@) == Err::<YamlView, Seq<char>>(reason@),
        },
{
    serde_yaml::from_str::<serde_yaml::Value>(content).map_err(|e| e.to_string())
}

/// The plain tree of a `serde_yaml::Value`, variant by variant. A number keeps what
/// `Value::as_i64`, `Value::as_u64` and `Value::as_f64` give for it, and a key of a mapping also
/// the text that its `Debug` writes.
#[verifier::external_body]
pub(crate) fn into_tree(value: Value) -> (y: Yaml)
    ensures
        y@ == yaml_tree(value),
{
    match value {
        Value::Null => Yaml::Null,
        Value::Bool(b) => Yaml::Bool(b),
        Value::Number(n) => Yaml::Number {
            integer: n.as_i64(), unsigned: n.as_u64(), bits: n.as_f64().unwrap_or_default().to_bits()
        },
        Value::String(s) => Yaml::Text(s),
        Value::Sequence(s) => Yaml::List(s.into_iter().map(into_tree).collect()),
        Value::Mapping(m) => Yaml::Mapping(m.into_iter().map(|(k, v)| YamlEntry {
            shown: format!("{:?}", k), key: into_tree(k), value: into_tree(v)
        }).collect()),
        Value::Tagged(t) => Yaml::Tagged(t.tag.to_string(), into_tree(t.value).into()),
    }
}

/// An empty mapping: `serde_yaml::Mapping::new`.
#[verifier::external_body]
pub(crate) fn empty_mapping() -> (value: serde_yaml::Value)
    ensures
        yaml_tree(value) == YamlView::Mapping(Seq::empty()),
{
    serde_yaml::Value::Mapping(serde_yaml::Mapping::new())
}

/// Stores an item under a text key: `serde_yaml::Mapping::insert`. An entry of that key keeps
/// its place and gets the item; otherwise the entry is added at the end. Nothing if the value is
/// no mapping.
#[verifier::external_body]
pub(crate) fn put_entry(value: serde_yaml::Value, key: &str, item: serde_yaml::Value) -> (r: Option<
    serde_yaml::Value,
>)
    ensures
        r is Some <==> untagged(yaml_tree(value)) is Mapping,
        r matches Some(after) ==> stored_in(
            yaml_tree(value),
            yaml_tree(after),
            key@,
            yaml_tree(item),
        ),
{
    let mut value = value;
    value.as_mapping_mut()?.insert(serde_yaml::Value::String(key.to_string()), item);
    Some(value)
}

/// Writes a document: `serde_yaml::to_string`. What comes out depends on what the value holds
/// alone; how it is laid out is left to that function.
#[verifier::external_body]
pub(crate) fn write_document(value: &serde_yaml::Value) -> (r: Result<String, String>)
    ensures
        match r {
            Ok(content) => yaml_text(yaml_tree(*value)) == Ok::<Seq<char>, Seq<char>>(content@),
            Err(reason) => yaml_text(yaml_tree(*value)) == Err::<Seq<char>, Seq<char>>(reason@),
        },
{
    serde_yaml::to_string(value).map_err(|e| e.to_string())
}

/// A document without its tags on the outside.
pub open spec fn untagged(y: YamlView) -> YamlView
    decreases y,
{
    match y {
        YamlView::Tagged(_, inner) => untagged(*inner),
        _ => y,
    }
}

/// The place of the entry with a text key; the number of entries if there is none.
pub open spec fn key_place(entries: Seq<YamlEntryView>, key: Seq<char>) -> int
    decreases entries.len(),
{
    if entries.len() == 0 {
        0
    } else if entries[0].key == YamlView::Text(key) {
        0
    } else {
        1 + key_place(entries.skip(1), key)
    }
}

/// What a document holds under a text key.
pub open spec fn lookup(y: YamlView, key: Seq<char>) -> Option<YamlView> {
    match untagged(y) {
        YamlView::Mapping(entries) => if key_place(entries, key) < entries.len() {
            Some(entries[key_place(entries, key)].value)
        } else {
            None
        },
        _ => None,
    }
}

/// A document is another one with an item stored under a text key.
pub open spec fn stored_in(before: YamlView, after: YamlView, key: Seq<char>, item: YamlView) -> bool
    decreases before,
{
    match (before, after) {
        (YamlView::Tagged(tag, inner), YamlView::Tagged(tag_after, inner_after)) => tag == tag_after
            && stored_in(*inner, *inner_after, key, item),
        (YamlView::Mapping(entries), YamlView::Mapping(entries_after)) => {
            let place = key_place(entries, key);
            if place < entries.len() {
                entries_after == entries.update(
                    place,
                    YamlEntryView { value: item, ..entries[place] },
                )
            } else {
                &&& entries_after.len() == entries.len() + 1
                &&& entries_after.drop_last() == entries
                &&& entries_after.last().key == YamlView::Text(key)
                &&& entries_after.last().value == item
            }
        },
        _ => false,
    }
}

proof fn lemma_key_place(entries: Seq<YamlEntryView>, key: Seq<char>)
    ensures
        0 <= key_place(entries, key) <= entries.len(),
        key_place(entries, key) < entries.len() ==> entries[key_place(entries, key)].key
            == YamlView::Text(key),
        forall|i: int|
            0 <= i < key_place(entries, key) ==> (#[trigger] entries[i]).key != YamlView::Text(key),
    decreases entries.len(),
{
    if entries.len() > 0 && entries[0].key != YamlView::Text(key) {
        let rest = entries.skip(1);
        lemma_key_place(rest, key);
        assert forall|i: int| 0 <= i < key_place(entries, key) implies (#[trigger] entries[i]).key
            != YamlView::Text(key) by {
            if i > 0 {
                assert(rest[i - 1] == entries[i]);
            }
        }
    }
}

proof fn lemma_first_place(entries: Seq<YamlEntryView>, key: Seq<char>, place: int)
    requires
        0 <= place <= entries.len(),
        place < entries.len() ==> entries[place].key == YamlView::Text(key),
        forall|i: int| 0 <= i < place ==> (#[trigger] entries[i]).key != YamlView::Text(key),
    ensures
        key_place(entries, key) == place,
{
    lemma_key_place(entries, key);
    let found = key_place(entries, key);
    if found < place {
        assert(entries[found].key != YamlView::Text(key));
    } else if place < found {
        assert(entries[place].key != YamlView::Text(key));
    }
}

/// Storing an item changes what is held under its key and under no other text key.
pub proof fn law_stored_in(
    before: YamlView,
    after: YamlView,
    key: Seq<char>,
    item: YamlView,
    other: Seq<char>,
)
    requires
        stored_in(before, after, key, item),
    ensures
        lookup(after, key) == Some(item),
        other != key ==> lookup(after, other) == lookup(before, other),
    decreases before,
{
    match (before, after) {
        (YamlView::Tagged(_, inner), YamlView::Tagged(_, inner_after)) => {
            law_stored_in(*inner, *inner_after, key, item, other);
        },
        (YamlView::Mapping(entries), YamlView::Mapping(entries_after)) => {
            let place = key_place(entries, key);
            lemma_key_place(entries, key);
            lemma_key_place(entries, other);
            assert forall|i: int| 0 <= i < entries.len() implies (#[trigger] entries_after[i]).key
                == entries[i].key by {
                if place >= entries.len() {
                    assert(entries_after.drop_last()[i] == entries[i]);
                }
            }
            lemma_first_place(entries_after, key, place);
            if other != key {
                let found = key_place(entries, other);
                if found < entries.len() || place < entries.len() {
                    lemma_first_place(entries_after, other, found);
                    if found < entries.len() && place >= entries.len() {
                        assert(entries_after.drop_last()[found] == entries[found]);
                    }
                } else {
                    assert(entries_after[entries.len() as int].key != YamlView::Text(other));
                    lemma_first_place(entries_after, other, entries_after.len() as int);
                }
            }
        },
        _ => {},
    }
}

impl Yaml {
    /// The document without its tags on the outside.
    pub fn untag(&self) -> (inner: &Yaml)
        ensures
            inner@ == untagged(self@),
            !(inner is Tagged),
        decreases self,
    {
        match self {
            Yaml::Tagged(_, inner) => inner.untag(),
            _ => self,
        }
    }

    /// What the document holds under a text key.
    pub fn get(&self, key: &str) -> (value: Option<&Yaml>)
        ensures
            value is Some <==> lookup(self@, key@) is Some,
            value matches Some(y) ==> lookup(self@, key@) == Some(y@),
    {
        match self.untag() {
            Yaml::Mapping(entries) => {
                let ghost views = untagged(self@)->Mapping_0;
                let mut i: usize = 0;
                assert(views.skip(0) =~= views);
                while i < entries.len()
                    invariant
                        i <= entries@.len(),
                        views.len() == entries@.len(),
                        forall|k: int|
                            0 <= k < entries@.len() ==> #[trigger] views[k] == entry_tree(
                                entries@[k],
                            ),
                        untagged(self@) == YamlView::Mapping(views),
                        key_place(views, key@) == i + key_place(views.skip(i as int), key@),
                    decreases entries.len() - i,
                {
                    assert(views.skip(i as int)[0] == views[i as int]);
                    assert(views.skip(i as int).skip(1) =~= views.skip(i + 1));
                    let entry = &entries[i];
                    assert(views[i as int] == entry_tree(*entry));
                    if let Yaml::Text(name) = &entry.key {
                        if text::same_text(name.as_str(), key) {
                            return Some(&entry.value);
                        }
                    }
                    i = i + 1;
                }
                None
            },
            _ => None,
        }
    }

    /// The items of a list.
    pub fn as_list(&self) -> (items: Option<&Vec<Yaml>>)
        ensures
            items is Some <==> untagged(self@) is List,
            items matches Some(v) ==> {
                &&& untagged(self@)->List_0.len() == v@.len()
                &&& forall|i: int|
                    0 <= i < v@.len() ==> #[trigger] untagged(self@)->List_0[i] == v@[i]@
            },
    {
        match self.untag() {
            Yaml::List(items) => Some(items),
            _ => None,
        }
    }

    /// The entries of a mapping.
    pub fn as_mapping(&self) -> (entries: Option<&Vec<YamlEntry>>)
        ensures
            entries is Some <==> untagged(self@) is Mapping,
            entries matches Some(v) ==> {
                &&& untagged(self@)->Mapping_0.len() == v@.len()
                &&& forall|i: int|
                    0 <= i < v@.len() ==> #[trigger] untagged(self@)->Mapping_0[i] == entry_tree(
                        v@[i],
                    )
            },
    {
        match self.untag() {
            Yaml::Mapping(entries) => Some(entries),
            _ => None,
        }
    }

    /// A number as a signed integer.
    pub fn as_integer(&self) -> (n: Option<i64>)
        ensures
            n == integer_of(self@),
    {
        match self.untag() {
            Yaml::Number { integer, .. } => *integer,
            _ => None,
        }
    }

    /// A number as the bits of a double.
    pub fn as_double(&self) -> (bits: Option<u64>)
        ensures
            bits == double_of(self@),
    {
        match self.untag() {
            Yaml::Number { bits, .. } => Some(*bits),
            _ => None,
        }
    }
}

/// A number as a signed integer.
pub open spec fn integer_of(y: YamlView) -> Option<i64> {
    match untagged(y) {
        YamlView::Number { integer, .. } => integer,
        _ => None,
    }
}

/// A number as the bits of a double.
pub open spec fn double_of(y: YamlView) -> Option<u64> {
    match untagged(y) {
        YamlView::Number { bits, .. } => Some(bits),
        _ => None,
    }
}

/// Tags on the outside of a document make no difference to what is read from it, nor do tags on
/// tags.
pub proof fn law_tags_looked_through(tag: Seq<char>, y: YamlView, key: Seq<char>)
    ensures
        lookup(YamlView::Tagged(tag, Box::new(y)), key) == lookup(y, key),
        integer_of(YamlView::Tagged(tag, Box::new(y))) == integer_of(y),
        double_of(YamlView::Tagged(tag, Box::new(y))) == double_of(y),
        !(untagged(y) is Tagged),
    decreases y,
{
    if let YamlView::Tagged(inner_tag, inner) = y {
        law_tags_looked_through(inner_tag, *inner, key);
    }
}

/// What a mapping holds under a key is the value of the first entry with that key, which is a
/// text; other documents hold nothing under a key.
pub proof fn law_lookup_first(entries: Seq<YamlEntryView>, key: Seq<char>, i: int)
    ensures
        0 <= i < entries.len() && entries[i].key == YamlView::Text(key) && (forall|k: int|
            0 <= k < i ==> (#[trigger] entries[k]).key != YamlView::Text(key)) ==> lookup(
            YamlView::Mapping(entries),
            key,
        ) == Some(entries[i].value),
        (forall|k: int|
            0 <= k < entries.len() ==> (#[trigger] entries[k]).key != YamlView::Text(key)) ==> lookup(
            YamlView::Mapping(entries),
            key,
        ) is None,
{
    if 0 <= i < entries.len() && entries[i].key == YamlView::Text(key) && (forall|k: int|
        0 <= k < i ==> (#[trigger] entries[k]).key != YamlView::Text(key)) {
        lemma_place(entries, key, i);
    }
    if forall|k: int|
        0 <= k < entries.len() ==> (#[trigger] entries[k]).key != YamlView::Text(key) {
        lemma_no_place(entries, key);
    }
}

proof fn lemma_place(entries: Seq<YamlEntryView>, key: Seq<char>, i: int)
    requires
        0 <= i < entries.len(),
        entries[i].key == YamlView::Text(key),
        forall|k: int| 0 <= k < i ==> (#[trigger] entries[k]).key != YamlView::Text(key),
    ensures
        key_place(entries, key) == i,
    decreases entries.len(),
{
    if i > 0 {
        let rest = entries.skip(1);
        assert(entries[0].key != YamlView::Text(key));
        assert forall|k: int| 0 <= k < i - 1 implies (#[trigger] rest[k]).key != YamlView::Text(
            key,
        ) by {
            assert(rest[k] == entries[k + 1]);
        }
        lemma_place(rest, key, i - 1);
    }
}

proof fn lemma_no_place(entries: Seq<YamlEntryView>, key: Seq<char>)
    requires
        forall|k: int| 0 <= k < entries.len() ==> (#[trigger] entries[k]).key != YamlView::Text(key),
    ensures
        key_place(entries, key) == entries.len(),
    decreases entries.len(),
{
    if entries.len() > 0 {
        let rest = entries.skip(1);
        assert(entries[0].key != YamlView::Text(key));
        assert forall|k: int| 0 <= k < rest.len() implies (#[trigger] rest[k]).key
            != YamlView::Text(key) by {
            assert(rest[k] == entries[k + 1]);
        }
        lemma_no_place(rest, key);
    }
}

} // verus!
