//! YAML documents as plain values.
//!
//! Reading and writing YAML text is the work of `serde_yaml`. What it reads
//! is turned into a `YamlValue`, a tree of plain values that the rest of the
//! crate can take apart, and what is written is made from such a tree. The
//! model of a tree is `Yaml`.
use crate::text::{chars_of, parse_decimal, same_text, unsigned_value};
use serde_yaml::value::{Tag, TaggedValue};
use serde_yaml::Value;
use vstd::prelude::*;

verus! {

/// A YAML document tree. Numbers stand by their text, tables by their
/// entries in document order.
pub enum Yaml {
    Null,
    Bool(bool),
    Number(Seq<char>),
    Text(Seq<char>),
    List(Seq<Yaml>),
    Table(Seq<(Yaml, Yaml)>),
    Tagged(Seq<char>, Box<Yaml>),
}

/// The value under all of its tags.
pub open spec fn untagged(y: Yaml) -> Yaml
    decreases y,
{
    match y {
        Yaml::Tagged(_, inner) => untagged(*inner),
        _ => y,
    }
}

pub open spec fn is_null(y: Yaml) -> bool {
    untagged(y) is Null
}

pub open spec fn as_bool(y: Yaml) -> Option<bool> {
    match untagged(y) {
        Yaml::Bool(b) => Some(b),
        _ => None,
    }
}

pub open spec fn as_text(y: Yaml) -> Option<Seq<char>> {
    match untagged(y) {
        Yaml::Text(t) => Some(t),
        _ => None,
    }
}

/// The number as an unsigned integer of 64 bits, if it is one.
pub open spec fn as_unsigned(y: Yaml) -> Option<u64> {
    match untagged(y) {
        Yaml::Number(t) => match unsigned_value(t) {
            Some(n) => if n <= u64::MAX {
                Some(n as u64)
            } else {
                None
            },
            None => None,
        },
        _ => None,
    }
}

pub open spec fn as_list(y: Yaml) -> Option<Seq<Yaml>> {
    match untagged(y) {
        Yaml::List(items) => Some(items),
        _ => None,
    }
}

pub open spec fn as_table(y: Yaml) -> Option<Seq<(Yaml, Yaml)>> {
    match untagged(y) {
        Yaml::Table(entries) => Some(entries),
        _ => None,
    }
}

/// Index of the first entry at or after `from` whose key is the plain text
/// `key`, or `entries.len()`.
pub open spec fn entry_index(entries: Seq<(Yaml, Yaml)>, key: Seq<char>, from: int) -> int
    decreases entries.len() - from,
{
    if 0 <= from < entries.len() && entries[from].0 != Yaml::Text(key) {
        entry_index(entries, key, from + 1)
    } else {
        from
    }
}

/// The value that a table holds under the plain text `key`.
pub open spec fn table_get(entries: Seq<(Yaml, Yaml)>, key: Seq<char>) -> Option<Yaml> {
    let i = entry_index(entries, key, 0);
    if i < entries.len() {
        Some(entries[i].1)
    } else {
        None
    }
}

/// The value that a document holds under `key`, when it is a table.
pub open spec fn get(y: Yaml, key: Seq<char>) -> Option<Yaml> {
    match as_table(y) {
        Some(entries) => table_get(entries, key),
        None => None,
    }
}

/// The table with `value` under `key`: in the place of the old value, or as
/// a new entry at the end.
pub open spec fn table_put(entries: Seq<(Yaml, Yaml)>, key: Seq<char>, value: Yaml) -> Seq<
    (Yaml, Yaml),
> {
    let i = entry_index(entries, key, 0);
    if i < entries.len() {
        entries.update(i, (entries[i].0, value))
    } else {
        entries.push((Yaml::Text(key), value))
    }
}

/// A table, under whatever tags it has, with `value` under `key`. Anything
/// but a table is left as it is.
pub open spec fn with_entry(y: Yaml, key: Seq<char>, value: Yaml) -> Yaml
    decreases y,
{
    match y {
        Yaml::Tagged(tag, inner) => Yaml::Tagged(tag, Box::new(with_entry(*inner, key, value))),
        Yaml::Table(entries) => Yaml::Table(table_put(entries, key, value)),
        _ => y,
    }
}

/// No tag in the tree is empty.
pub open spec fn well_tagged(y: Yaml) -> bool
    decreases y,
{
    match y {
        Yaml::Tagged(tag, inner) => tag.len() > 0 && well_tagged(*inner),
        Yaml::List(items) => forall|i: int| 0 <= i < items.len() ==> well_tagged(#[trigger] items[i]),
        Yaml::Table(entries) => forall|i: int|
            0 <= i < entries.len() ==> well_tagged((#[trigger] entries[i]).0) && well_tagged(
                entries[i].1,
            ),
        _ => true,
    }
}

/// A list is well tagged exactly if its items are.
pub proof fn lemma_well_tagged_list(items: Seq<Yaml>)
    ensures
        well_tagged(Yaml::List(items)) <==> forall|i: int|
            0 <= i < items.len() ==> well_tagged(#[trigger] items[i]),
{
    let y = Yaml::List(items);
    assert(y->List_0 == items);
    if well_tagged(y) {
        assert forall|i: int| 0 <= i < items.len() implies well_tagged(#[trigger] items[i]) by {
            assert(well_tagged(y->List_0[i]));
        }
    }
    if forall|i: int| 0 <= i < items.len() ==> well_tagged(#[trigger] items[i]) {
        assert(well_tagged(y));
    }
}

/// A table is well tagged exactly if its keys and values are.
pub proof fn lemma_well_tagged_table(entries: Seq<(Yaml, Yaml)>)
    ensures
        well_tagged(Yaml::Table(entries)) <==> forall|i: int|
            0 <= i < entries.len() ==> well_tagged((#[trigger] entries[i]).0) && well_tagged(
                entries[i].1,
            ),
{
    let y = Yaml::Table(entries);
    assert(y->Table_0 == entries);
    if well_tagged(y) {
        assert forall|i: int| 0 <= i < entries.len() implies well_tagged(
            (#[trigger] entries[i]).0,
        ) && well_tagged(entries[i].1) by {
            assert(well_tagged(y->Table_0[i].0));
        }
    }
    if forall|i: int|
        0 <= i < entries.len() ==> well_tagged((#[trigger] entries[i]).0) && well_tagged(
            entries[i].1,
        ) {
        assert(well_tagged(y));
    }
}

/// What a well-tagged document holds under a key is well tagged.
pub proof fn lemma_get_well_tagged(y: Yaml, key: Seq<char>)
    requires
        well_tagged(y),
        get(y, key) is Some,
    ensures
        well_tagged(get(y, key)->0),
    decreases y,
{
    match y {
        Yaml::Tagged(_, inner) => {
            lemma_get_well_tagged(*inner, key);
        },
        Yaml::Table(entries) => {
            lemma_well_tagged_table(entries);
            lemma_entry_index(entries, key, 0);
        },
        _ => {},
    }
}

/// Putting a well-tagged value into a well-tagged table leaves it well
/// tagged.
pub proof fn lemma_with_entry_well_tagged(y: Yaml, key: Seq<char>, value: Yaml)
    requires
        well_tagged(y),
        well_tagged(value),
    ensures
        well_tagged(with_entry(y, key, value)),
    decreases y,
{
    match y {
        Yaml::Tagged(_, inner) => {
            lemma_with_entry_well_tagged(*inner, key, value);
        },
        Yaml::Table(entries) => {
            let after = table_put(entries, key, value);
            lemma_well_tagged_table(entries);
            lemma_well_tagged_table(after);
            lemma_entry_index(entries, key, 0);
            let at = entry_index(entries, key, 0);
            assert forall|i: int| 0 <= i < after.len() implies well_tagged(
                (#[trigger] after[i]).0,
            ) && well_tagged(after[i].1) by {
                if i < entries.len() && i != at {
                    assert(after[i] == entries[i]);
                } else if i < entries.len() {
                    assert(after[i].0 == entries[i].0);
                }
            }
        },
        _ => {},
    }
}

pub proof fn lemma_entry_index(entries: Seq<(Yaml, Yaml)>, key: Seq<char>, from: int)
    requires
        0 <= from <= entries.len(),
    ensures
        from <= entry_index(entries, key, from) <= entries.len(),
        forall|k: int|
            from <= k < entry_index(entries, key, from) ==> (#[trigger] entries[k]).0 != Yaml::Text(
                key,
            ),
        entry_index(entries, key, from) < entries.len() ==> entries[entry_index(
            entries,
            key,
            from,
        )].0 == Yaml::Text(key),
    decreases entries.len() - from,
{
    if from < entries.len() && entries[from].0 != Yaml::Text(key) {
        lemma_entry_index(entries, key, from + 1);
    }
}

pub proof fn lemma_entry_index_is(entries: Seq<(Yaml, Yaml)>, key: Seq<char>, from: int, i: int)
    requires
        0 <= from <= i <= entries.len(),
        forall|k: int| from <= k < i ==> (#[trigger] entries[k]).0 != Yaml::Text(key),
        i < entries.len() ==> entries[i].0 == Yaml::Text(key),
    ensures
        entry_index(entries, key, from) == i,
    decreases i - from,
{
    if from < i {
        lemma_entry_index_is(entries, key, from + 1, i);
    }
}

/// What was put under a key is found under it, and the other keys hold
/// what they held.
pub proof fn lemma_table_put(
    entries: Seq<(Yaml, Yaml)>,
    key: Seq<char>,
    value: Yaml,
    other: Seq<char>,
)
    ensures
        table_get(table_put(entries, key, value), other) == if other == key {
            Some(value)
        } else {
            table_get(entries, other)
        },
{
    let i = entry_index(entries, key, 0);
    let after = table_put(entries, key, value);
    lemma_entry_index(entries, key, 0);
    lemma_entry_index(entries, other, 0);
    if other == key {
        assert forall|k: int| 0 <= k < i implies (#[trigger] after[k]).0 != Yaml::Text(key) by {
            assert(after[k] == entries[k]);
        }
        lemma_entry_index_is(after, key, 0, i);
    } else {
        let k = entry_index(entries, other, 0);
        assert forall|m: int| 0 <= m < k implies (#[trigger] after[m]).0 != Yaml::Text(other) by {
            if m != i {
                assert(after[m] == entries[m]);
            }
        }
        if k < entries.len() {
            assert(after[k].0 == entries[k].0);
            lemma_entry_index_is(after, other, 0, k);
        } else {
            lemma_entry_index_is(after, other, 0, after.len() as int);
        }
    }
}

/// A table with a new entry is still a table, with the same tags, and holds
/// the entry.
pub proof fn lemma_with_entry(y: Yaml, key: Seq<char>, value: Yaml, other: Seq<char>)
    requires
        as_table(y) is Some,
    ensures
        as_table(with_entry(y, key, value)) == Some(table_put(as_table(y)->0, key, value)),
        get(with_entry(y, key, value), other) == if other == key {
            Some(value)
        } else {
            get(y, other)
        },
    decreases y,
{
    match y {
        Yaml::Tagged(_, inner) => {
            lemma_with_entry(*inner, key, value, other);
        },
        Yaml::Table(entries) => {
            lemma_table_put(entries, key, value, other);
        },
        _ => {},
    }
}

// ---------------------------------------------------------------------------
// The tree as plain values
// ---------------------------------------------------------------------------

/// A YAML document tree held as plain values.
#[derive(Debug)]
pub enum YamlValue {
    Null,
    Bool(bool),
    /// A number, by its text.
    Number(String),
    String(String),
    Sequence(Vec<YamlValue>),
    /// The entries of a mapping in document order.
    Mapping(Vec<(YamlValue, YamlValue)>),
    /// A tagged value: the tag with its `!`, and the value.
    Tagged(String, Box<YamlValue>),
}

impl YamlValue {
    /// The document tree this value stands for.
    pub open spec fn model(self) -> Yaml
        decreases self,
    {
        match self {
            YamlValue::Null => Yaml::Null,
            YamlValue::Bool(b) => Yaml::Bool(b),
            YamlValue::Number(t) => Yaml::Number(t@),
            YamlValue::String(t) => Yaml::Text(t@),
            YamlValue::Sequence(items) => Yaml::List(
                Seq::new(
                    items@.len(),
                    |i: int|
                        if 0 <= i < items@.len() {
                            items@[i].model()
                        } else {
                            Yaml::Null
                        },
                ),
            ),
            YamlValue::Mapping(entries) => Yaml::Table(
                Seq::new(
                    entries@.len(),
                    |i: int|
                        if 0 <= i < entries@.len() {
                            (entries@[i].0.model(), entries@[i].1.model())
                        } else {
                            (Yaml::Null, Yaml::Null)
                        },
                ),
            ),
            YamlValue::Tagged(tag, inner) => Yaml::Tagged(tag@, Box::new(inner.model())),
        }
    }
}

impl View for YamlValue {
    type V = Yaml;

    open spec fn view(&self) -> Yaml {
        self.model()
    }
}

/// The models of a list of values.
pub open spec fn models(items: Seq<YamlValue>) -> Seq<Yaml> {
    Seq::new(items.len(), |i: int| items[i]@)
}

/// The models of the entries of a mapping.
pub open spec fn entry_models(entries: Seq<(YamlValue, YamlValue)>) -> Seq<(Yaml, Yaml)> {
    Seq::new(entries.len(), |i: int| (entries[i].0@, entries[i].1@))
}

pub proof fn lemma_sequence_model(items: Vec<YamlValue>)
    ensures
        YamlValue::Sequence(items)@ == Yaml::List(models(items@)),
{
    assert(YamlValue::Sequence(items)@->List_0 =~= models(items@));
}

pub proof fn lemma_mapping_model(entries: Vec<(YamlValue, YamlValue)>)
    ensures
        YamlValue::Mapping(entries)@ == Yaml::Table(entry_models(entries@)),
{
    assert(YamlValue::Mapping(entries)@->Table_0 =~= entry_models(entries@));
}

impl YamlValue {
    /// The value under all of its tags.
    pub fn untag(&self) -> (r: &YamlValue)
        ensures
            r@ == untagged(self@),
            !(r@ is Tagged),
        decreases self,
    {
        match self {
            YamlValue::Tagged(_, inner) => inner.untag(),
            _ => self,
        }
    }

    pub fn is_null(&self) -> (b: bool)
        ensures
            b == is_null(self@),
    {
        match self.untag() {
            YamlValue::Null => true,
            _ => false,
        }
    }

    pub fn as_bool(&self) -> (r: Option<bool>)
        ensures
            r == as_bool(self@),
    {
        match self.untag() {
            YamlValue::Bool(b) => Some(*b),
            _ => None,
        }
    }

    pub fn as_str(&self) -> (r: Option<&String>)
        ensures
            match r {
                Some(t) => as_text(self@) == Some(t@),
                None => as_text(self@) is None,
            },
    {
        match self.untag() {
            YamlValue::String(t) => Some(t),
            _ => None,
        }
    }

    pub fn as_u64(&self) -> (r: Option<u64>)
        ensures
            r == as_unsigned(self@),
    {
        match self.untag() {
            YamlValue::Number(t) => parse_decimal(&chars_of(t.as_str()), u64::MAX),
            _ => None,
        }
    }

    pub fn as_sequence(&self) -> (r: Option<&Vec<YamlValue>>)
        ensures
            match r {
                Some(items) => as_list(self@) == Some(models(items@)),
                None => as_list(self@) is None,
            },
    {
        match self.untag() {
            YamlValue::Sequence(items) => {
                proof {
                    lemma_sequence_model(*items);
                }
                Some(items)
            },
            _ => None,
        }
    }

    pub fn as_mapping(&self) -> (r: Option<&Vec<(YamlValue, YamlValue)>>)
        ensures
            match r {
                Some(entries) => as_table(self@) == Some(entry_models(entries@)),
                None => as_table(self@) is None,
            },
    {
        match self.untag() {
            YamlValue::Mapping(entries) => {
                proof {
                    lemma_mapping_model(*entries);
                }
                Some(entries)
            },
            _ => None,
        }
    }

    /// The value that this document holds under `key`, when it is a mapping.
    pub fn get(&self, key: &str) -> (r: Option<&YamlValue>)
        ensures
            match r {
                Some(v) => get(self@, key@) == Some(v@),
                None => get(self@, key@) is None,
            },
    {
        match self.as_mapping() {
            Some(entries) => {
                let i = find_entry(entries, key);
                if i < entries.len() {
                    Some(&entries[i].1)
                } else {
                    None
                }
            },
            None => None,
        }
    }

    /// Whether no tag in the tree is empty.
    pub fn is_well_tagged(&self) -> (b: bool)
        ensures
            b == well_tagged(self@),
        decreases self,
    {
        match self {
            YamlValue::Tagged(tag, inner) => tag.as_str().unicode_len() > 0 && inner.is_well_tagged(),
            YamlValue::Sequence(items) => {
                proof {
                    lemma_sequence_model(*items);
                }
                let mut i: usize = 0;
                while i < items.len()
                    invariant
                        i <= items.len(),
                        self == YamlValue::Sequence(*items),
                        self@ == Yaml::List(models(items@)),
                        forall|k: int| 0 <= k < i ==> well_tagged(#[trigger] models(items@)[k]),
                    decreases items.len() - i,
                {
                    proof {
                        assert(self->Sequence_0 == *items);
                        assert(decreases_to!(self => self->Sequence_0));
                        assert(decreases_to!(*items => items@));
                        assert(decreases_to!(items@ => items@[i as int]));
                    }
                    if !items[i].is_well_tagged() {
                        proof {
                            lemma_well_tagged_list(models(items@));
                            assert(!well_tagged(models(items@)[i as int]));
                        }
                        return false;
                    }
                    i += 1;
                }
                true
            },
            YamlValue::Mapping(entries) => {
                proof {
                    lemma_mapping_model(*entries);
                }
                let mut i: usize = 0;
                while i < entries.len()
                    invariant
                        i <= entries.len(),
                        self == YamlValue::Mapping(*entries),
                        self@ == Yaml::Table(entry_models(entries@)),
                        forall|k: int|
                            0 <= k < i ==> well_tagged((#[trigger] entry_models(entries@)[k]).0)
                                && well_tagged(entry_models(entries@)[k].1),
                    decreases entries.len() - i,
                {
                    proof {
                        assert(self->Mapping_0 == *entries);
                        assert(decreases_to!(self => self->Mapping_0));
                        assert(decreases_to!(*entries => entries@));
                        assert(decreases_to!(entries@ => entries@[i as int]));
                        assert(decreases_to!(entries@[i as int] => entries@[i as int].0));
                        assert(decreases_to!(entries@[i as int] => entries@[i as int].1));
                    }
                    if !entries[i].0.is_well_tagged() || !entries[i].1.is_well_tagged() {
                        proof {
                            lemma_well_tagged_table(entry_models(entries@));
                            assert(!well_tagged(entry_models(entries@)[i as int].0) || !well_tagged(
                                entry_models(entries@)[i as int].1,
                            ));
                        }
                        return false;
                    }
                    i += 1;
                }
                true
            },
            _ => true,
        }
    }

    /// A copy of the tree.
    pub fn duplicate(&self) -> (copy: YamlValue)
        ensures
            copy@ == self@,
        decreases self,
    {
        match self {
            YamlValue::Null => YamlValue::Null,
            YamlValue::Bool(b) => YamlValue::Bool(*b),
            YamlValue::Number(t) => YamlValue::Number(t.clone()),
            YamlValue::String(t) => YamlValue::String(t.clone()),
            YamlValue::Sequence(items) => {
                let mut copies: Vec<YamlValue> = Vec::new();
                let mut i: usize = 0;
                while i < items.len()
                    invariant
                        i <= items.len(),
                        self == YamlValue::Sequence(*items),
                        copies@.len() == i,
                        forall|k: int| 0 <= k < i ==> (#[trigger] copies@[k])@ == items@[k]@,
                    decreases items.len() - i,
                {
                    proof {
                        assert(self->Sequence_0 == *items);
                        assert(decreases_to!(self => self->Sequence_0));
                        assert(decreases_to!(*items => items@));
                        assert(decreases_to!(items@ => items@[i as int]));
                    }
                    copies.push(items[i].duplicate());
                    i += 1;
                }
                proof {
                    lemma_sequence_model(*items);
                    lemma_sequence_model(copies);
                    assert(models(copies@) =~= models(items@));
                }
                YamlValue::Sequence(copies)
            },
            YamlValue::Mapping(entries) => {
                let mut copies: Vec<(YamlValue, YamlValue)> = Vec::new();
                let mut i: usize = 0;
                while i < entries.len()
                    invariant
                        i <= entries.len(),
                        self == YamlValue::Mapping(*entries),
                        copies@.len() == i,
                        forall|k: int|
                            0 <= k < i ==> (#[trigger] copies@[k]).0@ == entries@[k].0@
                                && copies@[k].1@ == entries@[k].1@,
                    decreases entries.len() - i,
                {
                    proof {
                        assert(self->Mapping_0 == *entries);
                        assert(decreases_to!(self => self->Mapping_0));
                        assert(decreases_to!(*entries => entries@));
                        assert(decreases_to!(entries@ => entries@[i as int]));
                        assert(decreases_to!(entries@[i as int] => entries@[i as int].0));
                        assert(decreases_to!(entries@[i as int] => entries@[i as int].1));
                    }
                    copies.push((entries[i].0.duplicate(), entries[i].1.duplicate()));
                    i += 1;
                }
                proof {
                    lemma_mapping_model(*entries);
                    lemma_mapping_model(copies);
                    assert(entry_models(copies@) =~= entry_models(entries@));
                }
                YamlValue::Mapping(copies)
            },
            YamlValue::Tagged(tag, inner) => YamlValue::Tagged(
                tag.clone(),
                Box::new(inner.duplicate()),
            ),
        }
    }
}

/// Position of the first entry whose key is the plain string `key`, or
/// `entries.len()`.
pub fn find_entry(entries: &Vec<(YamlValue, YamlValue)>, key: &str) -> (i: usize)
    ensures
        i == entry_index(entry_models(entries@), key@, 0),
        i <= entries.len(),
{
    let wanted = chars_of(key);
    let mut i: usize = 0;
    while i < entries.len()
        invariant
            i <= entries.len(),
            wanted@ == key@,
            entry_index(entry_models(entries@), key@, i as int) == entry_index(
                entry_models(entries@),
                key@,
                0,
            ),
        decreases entries.len() - i,
    {
        let hit = match &entries[i].0 {
            YamlValue::String(t) => same_text(&chars_of(t.as_str()), &wanted),
            _ => false,
        };
        assert(hit == (entry_models(entries@)[i as int].0 == Yaml::Text(key@)));
        if hit {
            return i;
        }
        i += 1;
    }
    i
}

// ---------------------------------------------------------------------------
// Reading and writing text
// ---------------------------------------------------------------------------

#[verifier::external_type_specification]
#[verifier::external_body]
pub struct ExValue(serde_yaml::Value);

#[verifier::external_type_specification]
#[verifier::external_body]
pub struct ExError(serde_yaml::Error);

/// The document that `serde_yaml` reads from a text, `None` where it
/// refuses the text.
pub uninterp spec fn yaml_parsed(text: Seq<char>) -> Option<Yaml>;

/// The tree that a value of `serde_yaml` holds.
pub uninterp spec fn yaml_tree(value: serde_yaml::Value) -> Yaml;

/// The text that `serde_yaml` writes for a document, `None` where it cannot
/// write it.
pub uninterp spec fn yaml_text(tree: Yaml) -> Option<Seq<char>>;

/// The tree as `serde_yaml` holds it once a value was built from it: the
/// same tree, but for the texts of numbers and tags, which `serde_yaml`
/// reads and writes in its own way. `None` for a tree of which no value can
/// be built, because the text of one of its numbers is no number.
pub uninterp spec fn yaml_reread(tree: Yaml) -> Option<Yaml>;

/// The text that is written for a tree: `None` for a tree with an empty
/// tag, for one of which no value can be built, and for one that
/// `serde_yaml` does not write.
pub open spec fn yaml_written(tree: Yaml) -> Option<Seq<char>> {
    if !well_tagged(tree) {
        None
    } else {
        match yaml_reread(tree) {
            Some(held) => yaml_text(held),
            None => None,
        }
    }
}

/// `serde_yaml::from_str` for a `Value`: reads one YAML document. The value
/// it returns holds the tree that the text denotes; it fails exactly on the
/// texts that denote none.
#[verifier::external_body]
fn value_from_str(text: &str) -> (r: Result<Value, serde_yaml::Error>)
    ensures
        match r {
            Ok(v) => yaml_parsed(text@) == Some(yaml_tree(v)),
            Err(_) => yaml_parsed(text@) is None,
        },
{
    serde_yaml::from_str::<Value>(text)
}

/// The variants of `serde_yaml::Value`, one for one: a number by the text
/// that its `Display` gives, a tag likewise, a mapping by its entries in
/// order. No tag comes out empty, since that text starts with `!`.
#[verifier::external_body]
fn node_from_value(v: &Value) -> (n: YamlValue)
    ensures
        n@ == yaml_tree(*v),
        well_tagged(n@),
{
    match v {
        Value::Null => YamlValue::Null,
        Value::Bool(b) => YamlValue::Bool(*b),
        Value::Number(x) => YamlValue::Number(x.to_string()),
        Value::String(s) => YamlValue::String(s.clone()),
        Value::Sequence(s) => YamlValue::Sequence(s.iter().map(node_from_value).collect()),
        Value::Mapping(m) => YamlValue::Mapping(
            m.iter().map(|(k, x)| (node_from_value(k), node_from_value(x))).collect(),
        ),
        Value::Tagged(t) => YamlValue::Tagged(t.tag.to_string(), Box::new(node_from_value(&t.value))),
    }
}

/// The way back: builds the `serde_yaml::Value` of a tree, one variant for
/// one, the number read from its text by `serde_yaml::Number`'s `FromStr`.
/// Whether a value comes back, and what it holds, depends on the tree
/// alone. `Tag::new` panics on an empty tag, which `requires` leaves out.
#[verifier::external_body]
fn value_from_node(n: &YamlValue) -> (r: serde_yaml::Result<Value>)
    requires
        well_tagged(n@),
    ensures
        match r {
            Ok(v) => yaml_reread(n@) == Some(yaml_tree(v)),
            Err(_) => yaml_reread(n@) is None,
        },
{
    Ok(match n {
        YamlValue::Null => Value::Null,
        YamlValue::Bool(b) => Value::Bool(*b),
        YamlValue::Number(t) => Value::Number(t.parse()?),
        YamlValue::String(s) => Value::String(s.clone()),
        YamlValue::Sequence(s) => Value::Sequence(s.iter().map(value_from_node).collect::<Result<_, _>>()?),
        YamlValue::Mapping(m) => Value::Mapping(
            m.iter().map(|(k, x)| Ok((value_from_node(k)?, value_from_node(x)?))).collect::<serde_yaml::Result<_>>()?,
        ),
        YamlValue::Tagged(t, x) => Value::Tagged(TaggedValue { tag: Tag::new(t), value: value_from_node(x)? }.into()),
    })
}

/// `serde_yaml::to_string`: the YAML text of a value, which depends on the
/// tree alone.
#[verifier::external_body]
fn value_to_string(v: &Value) -> (r: Result<String, serde_yaml::Error>)
    ensures
        match r {
            Ok(s) => yaml_text(yaml_tree(*v)) == Some(s@),
            Err(_) => yaml_text(yaml_tree(*v)) is None,
        },
{
    serde_yaml::to_string(v)
}

/// `to_string` on a `serde_yaml::Error`: the message that its `Display`
/// gives, which names the line and column where there is one. Nothing is
/// claimed of the text.
#[verifier::external_body]
fn error_message(e: &serde_yaml::Error) -> (message: String) {
    e.to_string()
}

/// Why a YAML text could not be read or written.
#[derive(Debug)]
pub enum YamlError {
    /// The text is no YAML document. The message says where it went wrong.
    Syntax(String),
    /// The tree holds an empty tag and cannot be written.
    EmptyTag,
    /// The tree cannot be written for another reason, such as a number
    /// whose text is no number.
    Unwritable(String),
}

impl YamlError {
    /// The error in words.
    pub fn message(&self) -> (text: String)
        ensures
            text@ == match self {
                YamlError::Syntax(m) => m@,
                YamlError::EmptyTag => "empty YAML tag is not allowed"@,
                YamlError::Unwritable(m) => m@,
            },
    {
        match self {
            YamlError::Syntax(m) => m.clone(),
            YamlError::EmptyTag => "empty YAML tag is not allowed".to_owned(),
            YamlError::Unwritable(m) => m.clone(),
        }
    }
}

/// Reads a YAML document from its text.
pub fn parse_yaml(text: &str) -> (r: Result<YamlValue, YamlError>)
    ensures
        match r {
            Ok(doc) => yaml_parsed(text@) == Some(doc@) && well_tagged(doc@),
            Err(e) => yaml_parsed(text@) is None && e is Syntax,
        },
{
    match value_from_str(text) {
        Ok(v) => Ok(node_from_value(&v)),
        Err(e) => Err(YamlError::Syntax(error_message(&e))),
    }
}

/// Writes a YAML document as text. A tree with an empty tag is refused;
/// any other tree gives the text that `serde_yaml` writes for it, or the
/// reason why it writes none.
pub fn render_yaml(doc: &YamlValue) -> (r: Result<String, YamlError>)
    ensures
        !well_tagged(doc@) <==> r matches Err(YamlError::EmptyTag),
        match r {
            Ok(text) => yaml_written(doc@) == Some(text@),
            Err(e) => yaml_written(doc@) is None && (e is EmptyTag || e is Unwritable),
        },
{
    if !doc.is_well_tagged() {
        return Err(YamlError::EmptyTag);
    }
    match value_from_node(doc) {
        Ok(v) => match value_to_string(&v) {
            Ok(text) => Ok(text),
            Err(e) => Err(YamlError::Unwritable(error_message(&e))),
        },
        Err(e) => Err(YamlError::Unwritable(error_message(&e))),
    }
}

} // verus!
