//! Settings of a read or a write, and the collected results of reads.
use vstd::prelude::*;

use crate::error::TomlExtractError;
use crate::json::{
    json_error_message, json_object_pretty_text, json_object_text, object_json,
    object_json_pretty, pairs_view,
};

verus! {

/// What to read, and how to present it.
#[derive(Debug)]
pub struct ExtractConfig {
    /// Path of the document file.
    pub file_path: String,
    /// Dot path of the field, such as `package.authors[0]`.
    pub field_path: String,
    /// `None` for the raw form, `json` or `json-pretty`.
    pub output_format: Option<String>,
    /// Whether to remove one pair of surrounding quotes from the output.
    pub strip_quotes: bool,
}

impl Default for ExtractConfig {
    fn default() -> (r: Self)
        ensures
            r.file_path@ == "Cargo.toml"@,
            r.field_path@ == "package.name"@,
            r.output_format is None,
            !r.strip_quotes,
    {
        ExtractConfig {
            file_path: String::from_str("Cargo.toml"),
            field_path: String::from_str("package.name"),
            output_format: None,
            strip_quotes: false,
        }
    }
}

/// What to read, and how to present it.
#[derive(Debug)]
pub struct GetConfig {
    /// Path of the document file.
    pub file_path: String,
    /// Dot path of the field.
    pub field_path: String,
    /// `None` for the raw form, `json` or `json-pretty`.
    pub output_format: Option<String>,
    /// Whether to remove one pair of surrounding quotes from the output.
    pub strip_quotes: bool,
}

impl Default for GetConfig {
    fn default() -> (r: Self)
        ensures
            r.file_path@ == "Cargo.toml"@,
            r.field_path@ == "package.name"@,
            r.output_format is None,
            !r.strip_quotes,
    {
        GetConfig {
            file_path: String::from_str("Cargo.toml"),
            field_path: String::from_str("package.name"),
            output_format: None,
            strip_quotes: false,
        }
    }
}

/// What to write, where, and how.
#[derive(Debug)]
pub struct SetConfig {
    /// Path of the document file.
    pub file_path: String,
    /// Dot path of the field.
    pub field_path: String,
    /// The text of the value to write.
    pub value: String,
    /// Type hint for the value; `None` types it automatically.
    pub value_type: Option<String>,
    /// Whether missing tables, arrays and array slots may be created.
    pub create_missing: bool,
}

impl Default for SetConfig {
    fn default() -> (r: Self)
        ensures
            r.file_path@ == "Cargo.toml"@,
            r.field_path@ == "package.name"@,
            r.value@.len() == 0,
            r.value_type is None,
            !r.create_missing,
    {
        SetConfig {
            file_path: String::from_str("Cargo.toml"),
            field_path: String::from_str("package.name"),
            value: String::new(),
            value_type: None,
            create_missing: false,
        }
    }
}

impl SetConfig {
    /// A setting with automatic typing that creates nothing.
    pub fn new(file_path: String, field_path: String, value: String) -> (r: Self)
        ensures
            r.file_path == file_path,
            r.field_path == field_path,
            r.value == value,
            r.value_type is None,
            !r.create_missing,
    {
        SetConfig { file_path, field_path, value, value_type: None, create_missing: false }
    }

    /// The same setting with an explicit type hint.
    pub fn with_type(self, value_type: &str) -> (r: Self)
        ensures
            r.file_path == self.file_path,
            r.field_path == self.field_path,
            r.value == self.value,
            r.value_type is Some,
            r.value_type->0@ == value_type@,
            r.create_missing == self.create_missing,
    {
        SetConfig { value_type: Some(String::from_str(value_type)), ..self }
    }

    /// The same setting with creation of missing parts switched on or off.
    pub fn with_create_missing(self, create_missing: bool) -> (r: Self)
        ensures
            r.file_path == self.file_path,
            r.field_path == self.field_path,
            r.value == self.value,
            r.value_type == self.value_type,
            r.create_missing == create_missing,
    {
        SetConfig { create_missing, ..self }
    }
}

/// `j` is the position of the first entry of `e` under `k`.
pub open spec fn is_first(e: Seq<(Seq<char>, Seq<char>)>, k: Seq<char>, j: int) -> bool {
    &&& 0 <= j < e.len()
    &&& e[j].0 == k
    &&& forall|i: int| 0 <= i < j ==> e[i].0 != k
}

/// The position of the first entry under `k`, if any.
pub open spec fn first_pos(e: Seq<(Seq<char>, Seq<char>)>, k: Seq<char>) -> Option<int> {
    if exists|j: int| is_first(e, k, j) {
        Some(choose|j: int| is_first(e, k, j))
    } else {
        None
    }
}

/// `e` after recording `v` under `k`: written over the entry under `k`, or
/// appended when there is none.
pub open spec fn record(e: Seq<(Seq<char>, Seq<char>)>, k: Seq<char>, v: Seq<char>) -> Seq<
    (Seq<char>, Seq<char>),
> {
    match first_pos(e, k) {
        Some(j) => e.update(j, (k, v)),
        None => e.push((k, v)),
    }
}

/// The text recorded under `k`, if any.
pub open spec fn lookup(e: Seq<(Seq<char>, Seq<char>)>, k: Seq<char>) -> Option<Seq<char>> {
    match first_pos(e, k) {
        Some(j) => Some(e[j].1),
        None => None,
    }
}

proof fn lemma_first_pos_is(e: Seq<(Seq<char>, Seq<char>)>, k: Seq<char>, j: int)
    requires
        is_first(e, k, j),
    ensures
        first_pos(e, k) == Some(j),
{
    let c = choose|c: int| is_first(e, k, c);
    assert(is_first(e, k, c));
    if c < j {
        assert(e[c].0 != k);
    } else if j < c {
        assert(e[j].0 != k);
    }
}

proof fn lemma_first_pos_none(e: Seq<(Seq<char>, Seq<char>)>, k: Seq<char>)
    requires
        forall|i: int| 0 <= i < e.len() ==> e[i].0 != k,
    ensures
        first_pos(e, k) is None,
{
    if exists|j: int| is_first(e, k, j) {
        let j = choose|j: int| is_first(e, k, j);
        assert(e[j].0 == k);
    }
}

/// Recording under a key and then looking that key up gives what was
/// recorded.
pub proof fn lemma_record_lookup(e: Seq<(Seq<char>, Seq<char>)>, k: Seq<char>, v: Seq<char>)
    ensures
        lookup(record(e, k, v), k) == Some(v),
{
    match first_pos(e, k) {
        Some(j) => {
            assert(is_first(e, k, j));
            lemma_first_pos_is(e.update(j, (k, v)), k, j);
        },
        None => {
            assert forall|i: int| 0 <= i < e.len() implies e[i].0 != k by {
                if e[i].0 == k {
                    if !is_first(e, k, i) {
                        let m = choose|m: int| 0 <= m < i && e[m].0 == k;
                        lemma_first_exists(e, k, m);
                    }
                }
            }
            lemma_first_pos_is(e.push((k, v)), k, e.len() as int);
        },
    }
}

/// A key that occurs has a first occurrence.
proof fn lemma_first_exists(e: Seq<(Seq<char>, Seq<char>)>, k: Seq<char>, i: int)
    requires
        0 <= i < e.len(),
        e[i].0 == k,
    ensures
        first_pos(e, k) is Some,
    decreases i,
{
    if is_first(e, k, i) {
        lemma_first_pos_is(e, k, i);
    } else {
        let m = choose|m: int| 0 <= m < i && e[m].0 == k;
        lemma_first_exists(e, k, m);
    }
}

/// Field paths and their rendered values, in the order in which they were
/// first recorded; recording a path again replaces its value.
#[derive(Debug)]
pub struct FieldMap {
    entries: Vec<(String, String)>,
}

impl View for FieldMap {
    type V = Seq<(Seq<char>, Seq<char>)>;

    closed spec fn view(&self) -> Seq<(Seq<char>, Seq<char>)> {
        pairs_view(self.entries@)
    }
}

impl FieldMap {
    /// An empty map.
    pub fn new() -> (r: Self)
        ensures
            r@ == Seq::<(Seq<char>, Seq<char>)>::empty(),
    {
        let r = FieldMap { entries: Vec::new() };
        assert(r@ =~= Seq::<(Seq<char>, Seq<char>)>::empty());
        r
    }

    fn position(&self, key: &String) -> (r: Option<usize>)
        ensures
            match r {
                Some(j) => first_pos(self@, key@) == Some(j as int),
                None => first_pos(self@, key@) is None,
            },
    {
        let mut i: usize = 0;
        while i < self.entries.len()
            invariant
                i <= self.entries.len(),
                self@.len() == self.entries.len(),
                forall|k: int| 0 <= k < i ==> self@[k].0 != key@,
            decreases self.entries.len() - i,
        {
            if self.entries[i].0 == *key {
                proof {
                    lemma_first_pos_is(self@, key@, i as int);
                }
                return Some(i);
            }
            i = i + 1;
        }
        proof {
            lemma_first_pos_none(self@, key@);
        }
        None
    }

    /// Records `value` under `key`, replacing what was there.
    pub fn insert(&mut self, key: String, value: String)
        ensures
            final(self)@ == record(old(self)@, key@, value@),
            lookup(final(self)@, key@) == Some(value@),
    {
        let ghost before = self@;
        let ghost kv = key@;
        let ghost vv = value@;
        match self.position(&key) {
            Some(j) => {
                self.entries.set(j, (key, value));
                assert(self@ =~= before.update(j as int, (kv, vv)));
            },
            None => {
                self.entries.push((key, value));
                assert(self@ =~= before.push((kv, vv)));
            },
        }
        proof {
            lemma_record_lookup(before, kv, vv);
        }
    }

    /// The text recorded under `key`.
    pub fn get(&self, key: &str) -> (r: Option<&String>)
        ensures
            match r {
                Some(v) => lookup(self@, key@) == Some(v@),
                None => lookup(self@, key@) is None,
            },
    {
        let k = String::from_str(key);
        match self.position(&k) {
            Some(j) => Some(&self.entries[j].1),
            None => None,
        }
    }

    /// The number of fields recorded.
    pub fn len(&self) -> (r: usize)
        ensures
            r == self@.len(),
    {
        self.entries.len()
    }

    /// Whether no field is recorded.
    pub fn is_empty(&self) -> (r: bool)
        ensures
            r == (self@.len() == 0),
    {
        self.entries.len() == 0
    }

    /// The compact JSON text of an object with the recorded fields as
    /// members.
    pub fn to_json(&self) -> (r: Result<String, TomlExtractError>)
        ensures
            match r {
                Ok(s) => s@ == json_object_text(self@),
                Err(e) => e@ is JsonError,
            },
    {
        match object_json(&self.entries) {
            Ok(s) => Ok(s),
            Err(e) => Err(TomlExtractError::JsonError(json_error_message(&e))),
        }
    }

    /// The pretty-printed JSON text of an object with the recorded fields as
    /// members.
    pub fn to_json_pretty(&self) -> (r: Result<String, TomlExtractError>)
        ensures
            match r {
                Ok(s) => s@ == json_object_pretty_text(self@),
                Err(e) => e@ is JsonError,
            },
    {
        match object_json_pretty(&self.entries) {
            Ok(s) => Ok(s),
            Err(e) => Err(TomlExtractError::JsonError(json_error_message(&e))),
        }
    }

    /// The entries in the order in which they were first recorded.
    pub fn entries(&self) -> (r: &Vec<(String, String)>)
        ensures
            r@.len() == self@.len(),
            forall|i: int| 0 <= i < r@.len() ==> (#[trigger] r@[i].0@, r@[i].1@) == self@[i],
    {
        &self.entries
    }
}

/// The fields read from one document.
#[derive(Debug)]
pub struct ExtractionResult {
    /// Field paths and their rendered values.
    pub fields: FieldMap,
    /// Path of the document file.
    pub source_file: String,
}

impl ExtractionResult {
    /// An empty result for `source_file`.
    pub fn new(source_file: String) -> (r: Self)
        ensures
            r.fields@ == Seq::<(Seq<char>, Seq<char>)>::empty(),
            r.source_file == source_file,
    {
        ExtractionResult { fields: FieldMap::new(), source_file }
    }

    /// Records `value` for `field_path`, replacing an earlier value.
    pub fn add_field(&mut self, field_path: String, value: String)
        ensures
            final(self).fields@ == record(old(self).fields@, field_path@, value@),
            lookup(final(self).fields@, field_path@) == Some(value@),
            final(self).source_file == old(self).source_file,
    {
        self.fields.insert(field_path, value);
    }

    /// The value recorded for `field_path`.
    pub fn get(&self, field_path: &str) -> (r: Option<&String>)
        ensures
            match r {
                Some(v) => lookup(self.fields@, field_path@) == Some(v@),
                None => lookup(self.fields@, field_path@) is None,
            },
    {
        self.fields.get(field_path)
    }

    /// Whether no field is recorded.
    pub fn is_empty(&self) -> (r: bool)
        ensures
            r == (self.fields@.len() == 0),
    {
        self.fields.is_empty()
    }

    /// The compact JSON text of an object with the recorded fields as
    /// members.
    pub fn to_json(&self) -> (r: Result<String, TomlExtractError>)
        ensures
            match r {
                Ok(s) => s@ == json_object_text(self.fields@),
                Err(e) => e@ is JsonError,
            },
    {
        self.fields.to_json()
    }

    /// The pretty-printed JSON text of an object with the recorded fields as
    /// members.
    pub fn to_json_pretty(&self) -> (r: Result<String, TomlExtractError>)
        ensures
            match r {
                Ok(s) => s@ == json_object_pretty_text(self.fields@),
                Err(e) => e@ is JsonError,
            },
    {
        self.fields.to_json_pretty()
    }
}

/// The fields read from one document.
#[derive(Debug)]
pub struct GetResult {
    /// Field paths and their rendered values.
    pub fields: FieldMap,
    /// Path of the document file.
    pub source_file: String,
}

impl GetResult {
    /// An empty result for `source_file`.
    pub fn new(source_file: String) -> (r: Self)
        ensures
            r.fields@ == Seq::<(Seq<char>, Seq<char>)>::empty(),
            r.source_file == source_file,
    {
        GetResult { fields: FieldMap::new(), source_file }
    }

    /// Records `value` for `field_path`, replacing an earlier value.
    pub fn add_field(&mut self, field_path: String, value: String)
        ensures
            final(self).fields@ == record(old(self).fields@, field_path@, value@),
            lookup(final(self).fields@, field_path@) == Some(value@),
            final(self).source_file == old(self).source_file,
    {
        self.fields.insert(field_path, value);
    }

    /// The value recorded for `field_path`.
    pub fn get(&self, field_path: &str) -> (r: Option<&String>)
        ensures
            match r {
                Some(v) => lookup(self.fields@, field_path@) == Some(v@),
                None => lookup(self.fields@, field_path@) is None,
            },
    {
        self.fields.get(field_path)
    }

    /// Whether no field is recorded.
    pub fn is_empty(&self) -> (r: bool)
        ensures
            r == (self.fields@.len() == 0),
    {
        self.fields.is_empty()
    }

    /// The compact JSON text of an object with the recorded fields as
    /// members.
    pub fn to_json(&self) -> (r: Result<String, TomlExtractError>)
        ensures
            match r {
                Ok(s) => s@ == json_object_text(self.fields@),
                Err(e) => e@ is JsonError,
            },
    {
        self.fields.to_json()
    }

    /// The pretty-printed JSON text of an object with the recorded fields as
    /// members.
    pub fn to_json_pretty(&self) -> (r: Result<String, TomlExtractError>)
        ensures
            match r {
                Ok(s) => s@ == json_object_pretty_text(self.fields@),
                Err(e) => e@ is JsonError,
            },
    {
        self.fields.to_json_pretty()
    }

    /// The number of fields recorded.
    pub fn len(&self) -> (r: usize)
        ensures
            r == self.fields@.len(),
    {
        self.fields.len()
    }

    /// The recorded fields, in the order in which they were first recorded.
    pub fn iter(&self) -> (r: &Vec<(String, String)>)
        ensures
            r@.len() == self.fields@.len(),
            forall|i: int| 0 <= i < r@.len() ==> (#[trigger] r@[i].0@, r@[i].1@) == self.fields@[i],
    {
        self.fields.entries()
    }
}

} // verus!
