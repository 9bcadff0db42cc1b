//! Schemas: an ordered list of fields and sorted key/value metadata.
use vstd::prelude::*;
use vstd::utf8::encode_utf8;
use crate::datatype::{clone_field, clone_fields, fields_equal, fields_layout_same, fields_model, DataType, Field, FieldModel, SchemaModel};
use crate::error::{DataError, DataErrorModel};
use crate::lex::{lemma_lex_total, lemma_lex_transitive, lemma_text_bytes_injective, text_before, text_equal, text_lt};

verus! {

/// Key/value pairs as their texts.
pub open spec fn entries_model(entries: Seq<(String, String)>) -> Seq<(Seq<char>, Seq<char>)> {
    Seq::new(entries.len(), |i: int| (entries[i].0@, entries[i].1@))
}

/// Keys strictly ascending: sorted, and none twice.
pub open spec fn keys_ascending(entries: Seq<(Seq<char>, Seq<char>)>) -> bool {
    forall|i: int, j: int|
        #![trigger entries[i], entries[j]]
        0 <= i < j < entries.len() ==> text_lt(entries[i].0, entries[j].0)
}

/// How many entries have a key before `key`.
pub open spec fn key_rank(entries: Seq<(Seq<char>, Seq<char>)>, key: Seq<char>) -> nat
    decreases entries.len(),
{
    if entries.len() == 0 || !text_lt(entries[0].0, key) {
        0
    } else {
        1 + key_rank(entries.drop_first(), key)
    }
}

/// The entries with `key` set to `value`: replaced where it stands, or put at
/// its place in the order.
pub open spec fn entries_set(
    entries: Seq<(Seq<char>, Seq<char>)>,
    key: Seq<char>,
    value: Seq<char>,
) -> Seq<(Seq<char>, Seq<char>)> {
    let at = key_rank(entries, key) as int;
    if at < entries.len() && entries[at].0 == key {
        entries.update(at, (key, value))
    } else {
        entries.insert(at, (key, value))
    }
}

/// The rank of a key counts exactly the entries before it.
pub proof fn lemma_key_rank(entries: Seq<(Seq<char>, Seq<char>)>, key: Seq<char>)
    ensures
        key_rank(entries, key) <= entries.len(),
        forall|i: int|
            #![trigger entries[i]]
            0 <= i < key_rank(entries, key) ==> text_lt(entries[i].0, key),
        key_rank(entries, key) < entries.len() ==> !text_lt(
            entries[key_rank(entries, key) as int].0,
            key,
        ),
    decreases entries.len(),
{
    if entries.len() > 0 && text_lt(entries[0].0, key) {
        lemma_key_rank(entries.drop_first(), key);
        assert forall|i: int| #![trigger entries[i]] 0 <= i < key_rank(entries, key) implies text_lt(
            entries[i].0,
            key,
        ) by {
            if i > 0 {
                assert(entries.drop_first()[i - 1] == entries[i]);
            }
        }
        let r = key_rank(entries.drop_first(), key) as int;
        if r < entries.drop_first().len() {
            assert(entries.drop_first()[r] == entries[r + 1]);
        }
    }
}

/// A position that splits the entries as the rank does is the rank.
proof fn lemma_key_rank_is(entries: Seq<(Seq<char>, Seq<char>)>, key: Seq<char>, at: int)
    requires
        0 <= at <= entries.len(),
        forall|i: int| #![trigger entries[i]] 0 <= i < at ==> text_lt(entries[i].0, key),
        at < entries.len() ==> !text_lt(entries[at].0, key),
    ensures
        key_rank(entries, key) == at,
{
    lemma_key_rank(entries, key);
    let r = key_rank(entries, key) as int;
    if r < at {
        assert(text_lt(entries[r].0, key));
    } else if at < r {
        assert(text_lt(entries[at].0, key));
    }
}

/// Setting an entry keeps the keys ascending.
pub proof fn lemma_entries_set_ascending(
    entries: Seq<(Seq<char>, Seq<char>)>,
    key: Seq<char>,
    value: Seq<char>,
)
    requires
        keys_ascending(entries),
    ensures
        keys_ascending(entries_set(entries, key, value)),
{
    lemma_key_rank(entries, key);
    let at = key_rank(entries, key) as int;
    let out = entries_set(entries, key, value);
    let replaced = at < entries.len() && entries[at].0 == key;
    assert forall|i: int, j: int| #![trigger out[i], out[j]] 0 <= i < j < out.len() implies text_lt(
        out[i].0,
        out[j].0,
    ) by {
        if replaced {
            assert(text_lt(entries[i].0, entries[j].0));
        } else {
            if j < at {
                assert(text_lt(entries[i].0, entries[j].0));
            } else if j == at {
                assert(text_lt(entries[i].0, key));
            } else {
                assert(out[j] == entries[j - 1]);
                lemma_lex_total(encode_utf8(entries[at].0), encode_utf8(key));
                if encode_utf8(entries[at].0) == encode_utf8(key) {
                    lemma_text_bytes_injective(entries[at].0, key);
                }
                assert(text_lt(key, entries[at].0));
                if j - 1 > at {
                    assert(text_lt(entries[at].0, entries[j - 1].0));
                    lemma_lex_transitive(encode_utf8(key), encode_utf8(entries[at].0), encode_utf8(entries[j - 1].0));
                }
                assert(text_lt(key, entries[j - 1].0));
                if i < at {
                    assert(text_lt(entries[i].0, key));
                    lemma_lex_transitive(encode_utf8(entries[i].0), encode_utf8(key), encode_utf8(entries[j - 1].0));
                } else if i > at {
                    assert(out[i] == entries[i - 1]);
                    assert(text_lt(entries[i - 1].0, entries[j - 1].0));
                }
            }
        }
    }
}

/// Setting a key that comes after all others appends it.
pub proof fn lemma_entries_set_last(
    entries: Seq<(Seq<char>, Seq<char>)>,
    key: Seq<char>,
    value: Seq<char>,
)
    requires
        forall|i: int| #![trigger entries[i]] 0 <= i < entries.len() ==> text_lt(entries[i].0, key),
    ensures
        entries_set(entries, key, value) == entries.push((key, value)),
{
    lemma_key_rank_is(entries, key, entries.len() as int);
    assert(entries.insert(entries.len() as int, (key, value)) =~= entries.push((key, value)));
}

/// Key/value metadata, sorted by key.
#[derive(Debug, PartialEq, Eq)]
pub struct Metadata {
    entries: Vec<(String, String)>,
}

impl View for Metadata {
    type V = Seq<(Seq<char>, Seq<char>)>;

    closed spec fn view(&self) -> Seq<(Seq<char>, Seq<char>)> {
        entries_model(self.entries@)
    }
}

impl Metadata {
    #[verifier::type_invariant]
    closed spec fn inv(self) -> bool {
        keys_ascending(entries_model(self.entries@))
    }

    /// No entries.
    pub fn new() -> (r: Metadata)
        ensures
            r@ == Seq::<(Seq<char>, Seq<char>)>::empty(),
            keys_ascending(r@),
    {
        let r = Metadata { entries: Vec::new() };
        assert(r@ =~= Seq::<(Seq<char>, Seq<char>)>::empty());
        r
    }

    /// Number of entries.
    pub fn len(&self) -> (r: usize)
        ensures
            r == self@.len(),
            keys_ascending(self@),
    {
        proof {
            use_type_invariant(self);
        }
        self.entries.len()
    }

    /// Whether there are no entries.
    pub fn is_empty(&self) -> (r: bool)
        ensures
            r == (self@.len() == 0),
    {
        self.entries.len() == 0
    }

    /// The key at `index`.
    pub fn key(&self, index: usize) -> (r: &str)
        requires
            index < self@.len(),
        ensures
            r@ == self@[index as int].0,
    {
        self.entries[index].0.as_str()
    }

    /// The value at `index`.
    pub fn value(&self, index: usize) -> (r: &str)
        requires
            index < self@.len(),
        ensures
            r@ == self@[index as int].1,
    {
        self.entries[index].1.as_str()
    }

    /// The keys, ascending.
    pub fn keys(&self) -> (r: Vec<&str>)
        ensures
            r@.len() == self@.len(),
            forall|i: int| 0 <= i < r@.len() ==> (#[trigger] r@[i])@ == self@[i].0,
            keys_ascending(self@),
    {
        proof {
            use_type_invariant(self);
        }
        let mut out: Vec<&str> = Vec::new();
        let mut i: usize = 0;
        while i < self.entries.len()
            invariant
                0 <= i <= self.entries@.len(),
                out@.len() == i,
                forall|k: int| 0 <= k < i ==> (#[trigger] out@[k])@ == self@[k].0,
            decreases self.entries@.len() - i,
        {
            out.push(self.entries[i].0.as_str());
            i = i + 1;
        }
        out
    }

    /// The value of `key`.
    pub fn get(&self, key: &str) -> (r: Option<&str>)
        ensures
            match r {
                Some(v) => exists|i: int|
                    #![trigger self@[i]]
                    0 <= i < self@.len() && self@[i].0 == key@ && self@[i].1 == v@,
                None => forall|i: int|
                    #![trigger self@[i]]
                    0 <= i < self@.len() ==> self@[i].0 != key@,
            },
    {
        let mut i: usize = 0;
        while i < self.entries.len()
            invariant
                0 <= i <= self.entries@.len(),
                forall|k: int| #![trigger self@[k]] 0 <= k < i ==> self@[k].0 != key@,
            decreases self.entries@.len() - i,
        {
            if text_equal(self.entries[i].0.as_str(), key) {
                assert(self@[i as int].0 == key@);
                return Some(self.entries[i].1.as_str());
            }
            i = i + 1;
        }
        None
    }

    /// Sets `key` to `value`.
    pub fn insert(self, key: &str, value: &str) -> (r: Metadata)
        ensures
            r@ == entries_set(self@, key@, value@),
            keys_ascending(r@),
    {
        proof {
            use_type_invariant(&self);
            lemma_entries_set_ascending(self@, key@, value@);
        }
        let ghost before = self@;
        let mut entries = self.entries;
        let mut at: usize = 0;
        while at < entries.len() && text_before(entries[at].0.as_str(), key)
            invariant
                before == entries_model(entries@),
                0 <= at <= entries@.len(),
                forall|k: int| #![trigger before[k]] 0 <= k < at ==> text_lt(before[k].0, key@),
            decreases entries@.len() - at,
        {
            assert(before[at as int].0 == entries@[at as int].0@);
            at = at + 1;
        }
        proof {
            if at < entries@.len() {
                assert(before[at as int].0 == entries@[at as int].0@);
            }
            lemma_key_rank_is(before, key@, at as int);
        }
        let entry = (key.to_owned(), value.to_owned());
        if at < entries.len() && text_equal(entries[at].0.as_str(), key) {
            let ghost old_entries = entries@;
            entries[at] = entry;
            assert(entries_model(entries@) =~= before.update(at as int, (key@, value@)));
        } else {
            entries.insert(at, entry);
            assert(entries_model(entries@) =~= before.insert(at as int, (key@, value@)));
        }
        Metadata { entries }
    }

    /// Whether two lists of entries are the same.
    pub fn equal(&self, other: &Metadata) -> (r: bool)
        ensures
            r == (self@ == other@),
    {
        if self.entries.len() != other.entries.len() {
            assert(self@.len() != other@.len());
            return false;
        }
        let mut i: usize = 0;
        while i < self.entries.len()
            invariant
                0 <= i <= self.entries@.len(),
                self.entries@.len() == other.entries@.len(),
                forall|k: int| 0 <= k < i ==> self@[k] == other@[k],
            decreases self.entries@.len() - i,
        {
            let same = text_equal(self.entries[i].0.as_str(), other.entries[i].0.as_str())
                && text_equal(self.entries[i].1.as_str(), other.entries[i].1.as_str());
            if !same {
                assert(self@[i as int] != other@[i as int]);
                return false;
            }
            i = i + 1;
        }
        assert(self@ =~= other@);
        true
    }

    /// A copy.
    pub fn copy(&self) -> (r: Metadata)
        ensures
            r@ == self@,
    {
        proof {
            use_type_invariant(self);
        }
        let mut entries: Vec<(String, String)> = Vec::new();
        let mut i: usize = 0;
        while i < self.entries.len()
            invariant
                0 <= i <= self.entries@.len(),
                entries@.len() == i,
                forall|k: int|
                    0 <= k < i ==> (#[trigger] entries@[k]).0@ == self.entries@[k].0@
                        && entries@[k].1@ == self.entries@[k].1@,
            decreases self.entries@.len() - i,
        {
            entries.push((self.entries[i].0.clone(), self.entries[i].1.clone()));
            i = i + 1;
        }
        assert(entries_model(entries@) =~= self@);
        Metadata { entries }
    }
}

impl Clone for Metadata {
    fn clone(&self) -> (r: Self)
        ensures
            r@ == self@,
    {
        self.copy()
    }
}

/// The fields of a batch, and metadata about it.
#[derive(Debug, PartialEq, Eq)]
pub struct Schema {
    fields: Vec<Field>,
    metadata: Metadata,
}

impl View for Schema {
    type V = SchemaModel;

    closed spec fn view(&self) -> SchemaModel {
        SchemaModel { fields: fields_model(self.fields@), metadata: self.metadata@ }
    }
}

/// The position of the first field named `name`.
pub open spec fn first_named(fields: Seq<FieldModel>, name: Seq<char>) -> Option<nat>
    decreases fields.len(),
{
    if fields.len() == 0 {
        None
    } else if fields[0].name == name {
        Some(0)
    } else {
        match first_named(fields.drop_first(), name) {
            Some(i) => Some(i + 1),
            None => None,
        }
    }
}

/// What the first field of a name is.
pub proof fn lemma_first_named(fields: Seq<FieldModel>, name: Seq<char>)
    ensures
        match first_named(fields, name) {
            Some(i) => i < fields.len() && fields[i as int].name == name && forall|k: int|
                #![trigger fields[k]]
                0 <= k < i ==> fields[k].name != name,
            None => forall|k: int|
                #![trigger fields[k]]
                0 <= k < fields.len() ==> fields[k].name != name,
        },
    decreases fields.len(),
{
    if fields.len() > 0 && fields[0].name != name {
        lemma_first_named(fields.drop_first(), name);
        let tail = fields.drop_first();
        assert forall|k: int| #![trigger fields[k]] 0 < k < fields.len() implies fields[k] == tail[k - 1] by {
        }
    }
}

/// A position that is the first of its name.
pub proof fn lemma_first_named_is(fields: Seq<FieldModel>, name: Seq<char>, at: int)
    requires
        0 <= at <= fields.len(),
        forall|k: int| #![trigger fields[k]] 0 <= k < at ==> fields[k].name != name,
        at < fields.len() ==> fields[at].name == name,
    ensures
        first_named(fields, name) == if at < fields.len() {
            Some(at as nat)
        } else {
            None
        },
{
    lemma_first_named(fields, name);
    match first_named(fields, name) {
        Some(i) => {
            if (i as int) < at {
                assert(fields[i as int].name != name);
            } else if at < i as int {
                assert(fields[at].name != name);
            }
        },
        None => {
            if at < fields.len() {
                assert(fields[at].name != name);
            }
        },
    }
}

/// The fields at `indices`, in that order.
pub open spec fn pick_fields(fields: Seq<FieldModel>, indices: Seq<usize>) -> Seq<FieldModel> {
    Seq::new(indices.len(), |i: int| fields[indices[i] as int])
}

/// The position of the first index past `len`, if there is one.
pub open spec fn first_past(indices: Seq<usize>, len: nat) -> Option<nat>
    decreases indices.len(),
{
    if indices.len() == 0 {
        None
    } else if indices[0] >= len {
        Some(0)
    } else {
        match first_past(indices.drop_first(), len) {
            Some(i) => Some(i + 1),
            None => None,
        }
    }
}

/// What the first index past a length is.
pub proof fn lemma_first_past_is(indices: Seq<usize>, len: nat, at: int)
    requires
        0 <= at <= indices.len(),
        forall|k: int| 0 <= k < at ==> indices[k] < len,
        at < indices.len() ==> indices[at] >= len,
    ensures
        first_past(indices, len) == if at < indices.len() {
            Some(at as nat)
        } else {
            None
        },
    decreases indices.len(),
{
    if indices.len() > 0 && at > 0 {
        let tail = indices.drop_first();
        assert forall|k: int| 0 <= k < at - 1 implies tail[k] < len by {
            assert(tail[k] == indices[k + 1]);
        }
        lemma_first_past_is(tail, len, at - 1);
    }
}

impl Schema {
    /// A schema without metadata. Two fields may have one name.
    pub fn new(fields: Vec<Field>) -> (r: Schema)
        ensures
            r@ == (SchemaModel { fields: fields_model(fields@), metadata: Seq::empty() }),
    {
        Schema { fields, metadata: Metadata::new() }
    }

    /// A schema in which no two fields have one name.
    pub fn try_new(fields: Vec<Field>) -> (r: Result<Schema, DataError>)
        ensures
            match r {
                Ok(s) => s@ == (SchemaModel { fields: fields_model(fields@), metadata: Seq::empty() })
                    && (forall|i: int, j: int|
                    #![trigger fields@[i], fields@[j]]
                    0 <= i < j < fields@.len() ==> fields@[i]@.name != fields@[j]@.name),
                Err(e) => exists|i: int, j: int|
                    #![trigger fields@[i], fields@[j]]
                    0 <= i < j < fields@.len() && fields@[i]@.name == fields@[j]@.name && e@ == (
                    DataErrorModel::DuplicateField { name: fields@[j]@.name }),
            },
    {
        let mut j: usize = 0;
        while j < fields.len()
            invariant
                0 <= j <= fields@.len(),
                forall|a: int, b: int|
                    #![trigger fields@[a], fields@[b]]
                    0 <= a < b < j ==> fields@[a]@.name != fields@[b]@.name,
            decreases fields@.len() - j,
        {
            let mut i: usize = 0;
            while i < j
                invariant
                    0 <= i <= j < fields@.len(),
                    forall|a: int| #![trigger fields@[a]] 0 <= a < i ==> fields@[a]@.name != fields@[j as int]@.name,
                decreases j - i,
            {
                if text_equal(fields[i].name(), fields[j].name()) {
                    assert(fields@[i as int]@.name == fields@[j as int]@.name);
                    return Err(DataError::DuplicateField { name: fields[j].name().to_owned() });
                }
                i = i + 1;
            }
            j = j + 1;
        }
        Ok(Schema::new(fields))
    }

    /// One field named `data`.
    pub fn payload(data_type: DataType, nullable: bool) -> (r: Schema)
        ensures
            r@ == (SchemaModel {
                fields: seq![FieldModel { name: crate::DATA_COLUMN@, data_type: data_type@, nullable }],
                metadata: Seq::empty(),
            }),
    {
        let mut fields: Vec<Field> = Vec::new();
        fields.push(Field::new(crate::DATA_COLUMN, data_type, nullable));
        let r = Schema::new(fields);
        assert(r@.fields =~= seq![FieldModel { name: crate::DATA_COLUMN@, data_type: data_type@, nullable }]);
        r
    }

    /// Number of fields.
    pub fn len(&self) -> (r: usize)
        ensures
            r == self@.fields.len(),
    {
        self.fields.len()
    }

    /// Whether there are no fields.
    pub fn is_empty(&self) -> (r: bool)
        ensures
            r == (self@.fields.len() == 0),
    {
        self.fields.len() == 0
    }

    /// The fields, in order.
    pub fn fields(&self) -> (r: &Vec<Field>)
        ensures
            fields_model(r@) == self@.fields,
    {
        &self.fields
    }

    /// The field at `index`.
    pub fn field(&self, index: usize) -> (r: Option<&Field>)
        ensures
            match r {
                Some(f) => index < self@.fields.len() && f@ == self@.fields[index as int],
                None => index >= self@.fields.len(),
            },
    {
        if index < self.fields.len() {
            Some(&self.fields[index])
        } else {
            None
        }
    }

    /// The position of the first field named `name`.
    pub fn index_of(&self, name: &str) -> (r: Option<usize>)
        ensures
            match r {
                Some(i) => first_named(self@.fields, name@) == Some(i as nat),
                None => first_named(self@.fields, name@) is None,
            },
    {
        let mut i: usize = 0;
        while i < self.fields.len()
            invariant
                0 <= i <= self.fields@.len(),
                forall|k: int| #![trigger self@.fields[k]] 0 <= k < i ==> self@.fields[k].name != name@,
            decreases self.fields@.len() - i,
        {
            if text_equal(self.fields[i].name(), name) {
                proof {
                    lemma_first_named_is(self@.fields, name@, i as int);
                }
                return Some(i);
            }
            i = i + 1;
        }
        proof {
            lemma_first_named_is(self@.fields, name@, i as int);
        }
        None
    }

    /// The position of the first field named `name`, or an error.
    pub fn try_index_of(&self, name: &str) -> (r: Result<usize, DataError>)
        ensures
            match r {
                Ok(i) => first_named(self@.fields, name@) == Some(i as nat),
                Err(e) => first_named(self@.fields, name@) is None && e@ == (DataErrorModel::FieldNotFound {
                    name: name@,
                }),
            },
    {
        match self.index_of(name) {
            Some(i) => Ok(i),
            None => Err(DataError::FieldNotFound { name: name.to_owned() }),
        }
    }

    /// The first field named `name`.
    pub fn field_by_name(&self, name: &str) -> (r: Option<&Field>)
        ensures
            match r {
                Some(f) => first_named(self@.fields, name@) is Some && f@
                    == self@.fields[first_named(self@.fields, name@)->0 as int],
                None => first_named(self@.fields, name@) is None,
            },
    {
        proof {
            lemma_first_named(self@.fields, name@);
        }
        match self.index_of(name) {
            Some(i) => Some(&self.fields[i]),
            None => None,
        }
    }

    /// The fields at `indices`, in that order, with the same metadata.
    pub fn project(&self, indices: &[usize]) -> (r: Result<Schema, DataError>)
        ensures
            match r {
                Ok(s) => first_past(indices@, self@.fields.len()) is None && s@ == (SchemaModel {
                    fields: pick_fields(self@.fields, indices@),
                    metadata: self@.metadata,
                }),
                Err(e) => match first_past(indices@, self@.fields.len()) {
                    Some(at) => e@ == (DataErrorModel::IndexOutOfBounds {
                        index: indices@[at as int],
                        len: self@.fields.len() as usize,
                    }),
                    None => false,
                },
            },
    {
        let mut fields: Vec<Field> = Vec::new();
        let mut i: usize = 0;
        while i < indices.len()
            invariant
                0 <= i <= indices@.len(),
                fields@.len() == i,
                forall|k: int| 0 <= k < i ==> indices@[k] < self@.fields.len(),
                forall|k: int| 0 <= k < i ==> (#[trigger] fields@[k])@ == self@.fields[indices@[k] as int],
            decreases indices@.len() - i,
        {
            let index: usize = indices[i];
            if index >= self.fields.len() {
                proof {
                    lemma_first_past_is(indices@, self@.fields.len(), i as int);
                }
                return Err(DataError::IndexOutOfBounds { index, len: self.fields.len() });
            }
            fields.push(clone_field(&self.fields[index]));
            i = i + 1;
        }
        proof {
            lemma_first_past_is(indices@, self@.fields.len(), i as int);
            assert(fields_model(fields@) =~= pick_fields(self@.fields, indices@));
        }
        Ok(Schema { fields, metadata: self.metadata.copy() })
    }

    /// The metadata.
    pub fn metadata(&self) -> (r: &Metadata)
        ensures
            r@ == self@.metadata,
            keys_ascending(r@),
    {
        let _n: usize = self.metadata.len();
        &self.metadata
    }

    /// The metadata value of `key`.
    pub fn metadata_value(&self, key: &str) -> (r: Option<&str>)
        ensures
            match r {
                Some(v) => exists|i: int|
                    #![trigger self@.metadata[i]]
                    0 <= i < self@.metadata.len() && self@.metadata[i].0 == key@ && self@.metadata[i].1 == v@,
                None => forall|i: int|
                    #![trigger self@.metadata[i]]
                    0 <= i < self@.metadata.len() ==> self@.metadata[i].0 != key@,
            },
    {
        let r = self.metadata.get(key);
        assert(forall|i: int| self@.metadata[i] == #[trigger] self.metadata@[i]);
        r
    }

    /// The schema with other metadata.
    pub fn with_metadata(self, metadata: Metadata) -> (r: Schema)
        ensures
            r@ == (SchemaModel { fields: self@.fields, metadata: metadata@ }),
    {
        Schema { fields: self.fields, metadata }
    }

    /// The schema with one metadata entry set.
    pub fn with_metadata_entry(self, key: &str, value: &str) -> (r: Schema)
        ensures
            r@ == (SchemaModel {
                fields: self@.fields,
                metadata: entries_set(self@.metadata, key@, value@),
            }),
    {
        Schema { fields: self.fields, metadata: self.metadata.insert(key, value) }
    }

    /// Whether two schemas describe the same buffers.
    pub fn layout_eq(&self, other: &Schema) -> (r: bool)
        ensures
            r == fields_layout_same(self@.fields, other@.fields),
    {
        crate::datatype::fields_layout_equal(&self.fields, &other.fields)
    }

    /// Whether two schemas are the same, metadata included.
    pub fn equal(&self, other: &Schema) -> (r: bool)
        ensures
            r == (self@ == other@),
    {
        fields_equal(&self.fields, &other.fields) && self.metadata.equal(&other.metadata)
    }
}

impl Clone for Schema {
    fn clone(&self) -> (r: Self)
        ensures
            r@ == self@,
    {
        Schema { fields: clone_fields(&self.fields), metadata: self.metadata.copy() }
    }
}

impl Default for Schema {
    /// No fields, no metadata.
    fn default() -> (r: Self)
        ensures
            r@ == (SchemaModel { fields: Seq::empty(), metadata: Seq::empty() }),
    {
        let r = Schema::new(Vec::new());
        assert(r@.fields =~= Seq::<FieldModel>::empty());
        r
    }
}

} // verus!
