//! The document tree and its abstract model.
use vstd::prelude::*;

verus! {

broadcast use vstd::std_specs::vec::axiom_vec_index_decreases;

/// A node of a parsed document.
///
/// A table keeps its entries in insertion order. A float is held as the bits
/// of its IEEE-754 binary64 form; a datetime as its text.
#[derive(Debug, PartialEq)]
pub enum Value {
    String(String),
    Integer(i64),
    Float(u64),
    Boolean(bool),
    Datetime(String),
    Array(Vec<Value>),
    Table(Vec<(String, Value)>),
}

/// The mathematical model of a [`Value`].
pub enum Node {
    Str(Seq<char>),
    Int(i64),
    Float(u64),
    Bool(bool),
    Datetime(Seq<char>),
    Array(Seq<Node>),
    Table(Seq<(Seq<char>, Node)>),
}

/// The model of a value: its text as character sequences, its children as
/// their models.
pub open spec fn node_of(v: Value) -> Node
    decreases v,
{
    match v {
        Value::String(s) => Node::Str(s@),
        Value::Integer(i) => Node::Int(i),
        Value::Float(b) => Node::Float(b),
        Value::Boolean(b) => Node::Bool(b),
        Value::Datetime(s) => Node::Datetime(s@),
        Value::Array(a) => Node::Array(
            Seq::new(
                a.len() as nat,
                |i: int|
                    if 0 <= i < a.len() {
                        node_of(a[i])
                    } else {
                        Node::Bool(false)
                    },
            ),
        ),
        Value::Table(e) => Node::Table(
            Seq::new(
                e.len() as nat,
                |i: int|
                    if 0 <= i < e.len() {
                        (e[i].0@, node_of(e[i].1))
                    } else {
                        (Seq::empty(), Node::Bool(false))
                    },
            ),
        ),
    }
}

impl View for Value {
    type V = Node;

    open spec fn view(&self) -> Node {
        node_of(*self)
    }
}

/// `j` is the position of the first entry of `e` under `key`.
pub open spec fn is_first_key(e: Seq<(Seq<char>, Node)>, key: Seq<char>, j: int) -> bool {
    &&& 0 <= j < e.len()
    &&& e[j].0 == key
    &&& forall|i: int| 0 <= i < j ==> e[i].0 != key
}

/// The position of the first entry under `key`, if any.
pub open spec fn key_index(e: Seq<(Seq<char>, Node)>, key: Seq<char>) -> Option<int> {
    if exists|j: int| is_first_key(e, key, j) {
        Some(choose|j: int| is_first_key(e, key, j))
    } else {
        None
    }
}

/// The value of the first entry under `key`, if any.
pub open spec fn table_get(e: Seq<(Seq<char>, Node)>, key: Seq<char>) -> Option<Node> {
    match key_index(e, key) {
        Some(j) => Some(e[j].1),
        None => None,
    }
}

/// A first occurrence is what `key_index` finds.
pub proof fn lemma_key_index_is(e: Seq<(Seq<char>, Node)>, key: Seq<char>, j: int)
    requires
        is_first_key(e, key, j),
    ensures
        key_index(e, key) == Some(j),
{
    let k = choose|k: int| is_first_key(e, key, k);
    assert(is_first_key(e, key, k));
    if k < j {
        assert(e[k].0 != key);
    } else if j < k {
        assert(e[j].0 != key);
    }
}

/// A key that never occurs has no index.
pub proof fn lemma_key_index_none(e: Seq<(Seq<char>, Node)>, key: Seq<char>)
    requires
        forall|i: int| 0 <= i < e.len() ==> e[i].0 != key,
    ensures
        key_index(e, key) is None,
{
    if exists|j: int| is_first_key(e, key, j) {
        let j = choose|j: int| is_first_key(e, key, j);
        assert(e[j].0 == key);
    }
}

/// A key that occurs has a first occurrence.
pub proof fn lemma_key_occurs(e: Seq<(Seq<char>, Node)>, key: Seq<char>, i: int)
    requires
        0 <= i < e.len(),
        e[i].0 == key,
    ensures
        key_index(e, key) is Some,
    decreases i,
{
    if is_first_key(e, key, i) {
        lemma_key_index_is(e, key, i);
    } else {
        let m = choose|m: int| 0 <= m < i && e[m].0 == key;
        lemma_key_occurs(e, key, m);
    }
}

/// Writing over the first entry under a key keeps it the first.
pub proof fn lemma_key_index_update(e: Seq<(Seq<char>, Node)>, key: Seq<char>, j: int, v: Node)
    requires
        key_index(e, key) == Some(j),
    ensures
        key_index(e.update(j, (key, v)), key) == Some(j),
{
    let c = choose|c: int| is_first_key(e, key, c);
    assert(is_first_key(e, key, c));
    let e2 = e.update(j, (key, v));
    assert(is_first_key(e2, key, j)) by {
        assert forall|i: int| 0 <= i < j implies e2[i].0 != key by {
            assert(e2[i] == e[i]);
        }
    }
    lemma_key_index_is(e2, key, j);
}

/// Appending under a key that is absent makes the new entry the first.
pub proof fn lemma_key_index_push(e: Seq<(Seq<char>, Node)>, key: Seq<char>, v: Node)
    requires
        key_index(e, key) is None,
    ensures
        key_index(e.push((key, v)), key) == Some(e.len() as int),
{
    let e2 = e.push((key, v));
    assert(is_first_key(e2, key, e.len() as int)) by {
        assert forall|i: int| 0 <= i < e.len() implies e2[i].0 != key by {
            assert(e2[i] == e[i]);
            if e[i].0 == key {
                lemma_key_occurs(e, key, i);
            }
        }
    }
    lemma_key_index_is(e2, key, e.len() as int);
}

/// The model of a table's entries.
pub open spec fn entries_view(e: Seq<(String, Value)>) -> Seq<(Seq<char>, Node)> {
    Seq::new(e.len(), |i: int| (e[i].0@, e[i].1@))
}

/// The model of a table value is the model of its entries.
pub proof fn lemma_table_view(e: Vec<(String, Value)>)
    ensures
        Value::Table(e)@ == Node::Table(entries_view(e@)),
{
    let v = Value::Table(e);
    if let Node::Table(t) = v@ {
        assert(t =~= entries_view(e@));
    }
}

/// The model of an array value is the models of its elements.
pub proof fn lemma_array_view(a: Vec<Value>)
    ensures
        Value::Array(a)@ == Node::Array(a@.map_values(|v: Value| v@)),
{
    let v = Value::Array(a);
    assert(v@->Array_0.len() == a.len());
    assert forall|i: int| 0 <= i < a.len() implies v@->Array_0[i] == a@[i]@ by {}
    assert(v@->Array_0 =~= a@.map_values(|v: Value| v@));
}

/// Finds the first entry under `key`.
pub fn find_key(entries: &Vec<(String, Value)>, key: &String) -> (r: Option<usize>)
    ensures
        match r {
            Some(j) => key_index(entries_view(entries@), key@) == Some(j as int),
            None => key_index(entries_view(entries@), key@) is None,
        },
{
    let ghost ev = entries_view(entries@);
    let mut i: usize = 0;
    while i < entries.len()
        invariant
            i <= entries.len(),
            ev == entries_view(entries@),
            forall|k: int| 0 <= k < i ==> ev[k].0 != key@,
        decreases entries.len() - i,
    {
        if entries[i].0 == *key {
            proof {
                lemma_key_index_is(ev, key@, i as int);
            }
            return Some(i);
        }
        i = i + 1;
    }
    proof {
        lemma_key_index_none(ev, key@);
    }
    None
}

} // verus!
