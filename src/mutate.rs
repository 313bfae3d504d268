//! Writing a value into a document at a path, creating what is missing when
//! asked to.
use vstd::prelude::*;

use crate::coerce::{coerce_spec, hint_view, parse_value_with_type};
use crate::config::SetConfig;
use crate::error::{Fault, TomlExtractError};
use crate::resolve::{resolve_spec, step_spec};
use crate::path::{parse_path, path_spec, segs_view, PathSegment, Seg};
use crate::value::{
    entries_view, find_key, key_index, lemma_array_view, lemma_key_index_push,
    lemma_key_index_update, lemma_table_view, table_get, Node, Value,
};

verus! {

/// The model of an outcome that carries a value.
pub open spec fn node_result(r: Result<Value, TomlExtractError>) -> Result<Node, Fault> {
    match r {
        Ok(v) => Ok(v@),
        Err(e) => Err(e@),
    }
}

/// The entries of `node` when it is a table; an empty table in place of any
/// other node when creation is allowed.
pub open spec fn writable_entries(node: Node, create: bool) -> Option<Seq<(Seq<char>, Node)>> {
    match node {
        Node::Table(e) => Some(e),
        _ => if create {
            Some(Seq::empty())
        } else {
            None
        },
    }
}

/// `a` lengthened with empty strings to at least `n` elements.
pub open spec fn pad(a: Seq<Node>, n: nat) -> Seq<Node> {
    if a.len() < n {
        a + Seq::new((n - a.len()) as nat, |_j: int| Node::Str(Seq::empty()))
    } else {
        a
    }
}

/// The array under `k` in the entries `e`, if there is one; an empty one when
/// `k` is absent and creation is allowed.
pub open spec fn writable_array(e: Seq<(Seq<char>, Node)>, k: Seq<char>, create: bool) -> Option<
    Seq<Node>,
> {
    match key_index(e, k) {
        Some(j) => match e[j].1 {
            Node::Array(a) => Some(a),
            _ => None,
        },
        None => if create {
            Some(Seq::empty())
        } else {
            None
        },
    }
}

/// `e` with `(k, v)` written over the first entry under `k`, or appended
/// when there is none.
pub open spec fn put(e: Seq<(Seq<char>, Node)>, k: Seq<char>, v: Node) -> Seq<(Seq<char>, Node)> {
    match key_index(e, k) {
        Some(j) => e.update(j, (k, v)),
        None => e.push((k, v)),
    }
}

/// The node that writing `value` at `segs` below `node` produces, or the
/// first error met on the way.
///
/// At the end of the path the (already coerced) value, or its coercion
/// error, is what is written. On the way down:
/// - a node that is not a table fails with `NotATable`, or is replaced by an
///   empty table when `create` holds;
/// - a missing key is added when it is the last segment; otherwise it fails
///   with `FieldNotFound`, or is created as an empty table when `create`
///   holds;
/// - for `name[i]`, a missing or non-array entry fails with `NotAnArray`
///   (a missing one is created empty when `create` holds); an index past the
///   end fails with `ArrayIndexOutOfBounds`, or, when `create` holds, the
///   array is padded with empty strings up to it. The element is then
///   overwritten, never inserted.
pub open spec fn set_spec(
    node: Node,
    segs: Seq<Seg>,
    value: Result<Node, Fault>,
    create: bool,
) -> Result<Node, Fault>
    decreases segs.len(),
{
    if segs.len() == 0 {
        value
    } else {
        let rest = segs.drop_first();
        match writable_entries(node, create) {
            None => Err(Fault::NotATable(segs[0].key())),
            Some(e) => match segs[0] {
                Seg::Field(k) => match key_index(e, k) {
                    Some(j) => match set_spec(e[j].1, rest, value, create) {
                        Ok(c) => Ok(Node::Table(e.update(j, (k, c)))),
                        Err(x) => Err(x),
                    },
                    None => if rest.len() == 0 || create {
                        match set_spec(Node::Table(Seq::empty()), rest, value, create) {
                            Ok(c) => Ok(Node::Table(e.push((k, c)))),
                            Err(x) => Err(x),
                        }
                    } else {
                        Err(Fault::FieldNotFound(k))
                    },
                },
                Seg::Indexed(k, i) => match writable_array(e, k, create) {
                    None => Err(Fault::NotAnArray(k)),
                    Some(a) => {
                        let padded = if create {
                            pad(a, i + 1)
                        } else {
                            a
                        };
                        if i < padded.len() {
                            match set_spec(padded[i as int], rest, value, create) {
                                Ok(c) => Ok(
                                    Node::Table(put(e, k, Node::Array(padded.update(i as int, c)))),
                                ),
                                Err(x) => Err(x),
                            }
                        } else {
                            Err(Fault::ArrayIndexOutOfBounds(k, i, a.len()))
                        }
                    },
                },
            },
        }
    }
}

/// Writes `value` at `segs[k..]` below `node` and gives back the new node.
#[verifier::rlimit(40)]
fn set_node(
    node: Value,
    segs: &Vec<PathSegment>,
    k: usize,
    value: Result<Value, TomlExtractError>,
    create: bool,
) -> (r: Result<Value, TomlExtractError>)
    requires
        k <= segs.len(),
    ensures
        node_result(r) == set_spec(
            node@,
            segs_view(segs@).subrange(k as int, segs.len() as int),
            node_result(value),
            create,
        ),
    decreases segs.len() - k,
{
    let ghost all = segs_view(segs@);
    let ghost here = all.subrange(k as int, segs.len() as int);
    if k == segs.len() {
        return value;
    }
    let ghost rest = all.subrange(k + 1, segs.len() as int);
    assert(here.drop_first() =~= rest);
    assert(here[0] == segs[k as int]@);
    let ghost old_node = node@;
    let seg = &segs[k];
    let mut entries: Vec<(String, Value)> = match node {
        Value::Table(e) => {
            proof {
                lemma_table_view(e);
            }
            e
        },
        _ => {
            if create {
                Vec::new()
            } else {
                return Err(TomlExtractError::NotATable(seg.key().clone()));
            }
        },
    };
    let ghost e0 = entries_view(entries@);
    assert(writable_entries(old_node, create) == Some(e0)) by {
        if !(old_node is Table) {
            assert(e0 =~= Seq::<(Seq<char>, Node)>::empty());
        }
    }
    match seg {
        PathSegment::Field(key) => {
            match find_key(&entries, key) {
                Some(j) => {
                    let (name, child) = entries.remove(j);
                    assert(child@ == e0[j as int].1);
                    match set_node(child, segs, k + 1, value, create) {
                        Ok(c) => {
                            let ghost cv = c@;
                            entries.insert(j, (name, c));
                            assert(entries_view(entries@) =~= e0.update(j as int, (key@, cv)));
                            proof {
                                lemma_table_view(entries);
                            }
                            Ok(Value::Table(entries))
                        },
                        Err(x) => Err(x),
                    }
                },
                None => {
                    if k + 1 == segs.len() || create {
                        let fresh: Vec<(String, Value)> = Vec::new();
                        proof {
                            lemma_table_view(fresh);
                            assert(entries_view(fresh@) =~= Seq::<(Seq<char>, Node)>::empty());
                        }
                        match set_node(Value::Table(fresh), segs, k + 1, value, create) {
                            Ok(c) => {
                                let ghost cv = c@;
                                entries.push((key.clone(), c));
                                assert(entries_view(entries@) =~= e0.push((key@, cv)));
                                proof {
                                    lemma_table_view(entries);
                                }
                                Ok(Value::Table(entries))
                            },
                            Err(x) => Err(x),
                        }
                    } else {
                        Err(TomlExtractError::FieldNotFound(key.clone()))
                    }
                },
            }
        },
        PathSegment::IndexedField(name, i) => {
            let found = find_key(&entries, name);
            let mut arr: Vec<Value> = match found {
                Some(j) => {
                    let (_, child) = entries.remove(j);
                    assert(child@ == e0[j as int].1);
                    match child {
                        Value::Array(a) => {
                            proof {
                                lemma_array_view(a);
                            }
                            a
                        },
                        _ => {
                            return Err(TomlExtractError::NotAnArray(name.clone()));
                        },
                    }
                },
                None => {
                    if create {
                        Vec::new()
                    } else {
                        return Err(TomlExtractError::NotAnArray(name.clone()));
                    }
                },
            };
            let ghost a0 = arr@.map_values(|v: Value| v@);
            assert(writable_array(e0, name@, create) == Some(a0)) by {
                if found is None {
                    assert(a0 =~= Seq::<Node>::empty());
                }
            }
            if create {
                while arr.len() <= *i
                    invariant
                        a0.len() <= arr.len(),
                        arr.len() <= a0.len() || arr.len() <= *i + 1,
                        arr@.map_values(|v: Value| v@) =~= a0 + Seq::new(
                            (arr.len() - a0.len()) as nat,
                            |_j: int| Node::Str(Seq::empty()),
                        ),
                    decreases *i + 1 - arr.len(),
                {
                    let ghost before = arr@.map_values(|v: Value| v@);
                    let blank = Value::String(String::new());
                    assert(blank@ == Node::Str(Seq::empty()));
                    arr.push(blank);
                    assert(arr@.map_values(|v: Value| v@) =~= before.push(Node::Str(Seq::empty())));
                    assert(arr@.map_values(|v: Value| v@) =~= a0 + Seq::new(
                        (arr.len() - a0.len()) as nat,
                        |_j: int| Node::Str(Seq::empty()),
                    ));
                }
            }
            let ghost padded = arr@.map_values(|v: Value| v@);
            assert(padded == if create {
                pad(a0, (*i + 1) as nat)
            } else {
                a0
            }) by {
                if create && a0.len() >= *i + 1 {
                    assert(padded =~= a0);
                }
            }
            if *i < arr.len() {
                let elem = arr.remove(*i);
                assert(elem@ == padded[*i as int]);
                match set_node(elem, segs, k + 1, value, create) {
                    Ok(c) => {
                        let ghost cv = c@;
                        arr.insert(*i, c);
                        assert(arr@.map_values(|v: Value| v@) =~= padded.update(*i as int, cv));
                        proof {
                            lemma_array_view(arr);
                        }
                        let ghost av = Value::Array(arr)@;
                        let na = Value::Array(arr);
                        match found {
                            Some(j) => {
                                entries.insert(j, (name.clone(), na));
                                assert(entries_view(entries@) =~= e0.update(j as int, (name@, av)));
                            },
                            None => {
                                entries.push((name.clone(), na));
                                assert(entries_view(entries@) =~= e0.push((name@, av)));
                            },
                        }
                        proof {
                            lemma_table_view(entries);
                        }
                        Ok(Value::Table(entries))
                    },
                    Err(x) => Err(x),
                }
            } else {
                Err(
                    TomlExtractError::ArrayIndexOutOfBounds {
                        path: name.clone(),
                        index: *i,
                        length: arr.len(),
                    },
                )
            }
        },
    }
}

/// Writes `value` (or its coercion error, met only at the end of the path)
/// at `segs` in `doc`, and gives back the new document.
pub fn set_nested_value(
    doc: Value,
    segs: &Vec<PathSegment>,
    value: Result<Value, TomlExtractError>,
    create_missing: bool,
) -> (r: Result<Value, TomlExtractError>)
    ensures
        node_result(r) == set_spec(doc@, segs_view(segs@), node_result(value), create_missing),
{
    assert(segs_view(segs@).subrange(0, segs.len() as int) =~= segs_view(segs@));
    set_node(doc, segs, 0, value, create_missing)
}

/// What writing `value` at `path` in `doc` gives.
pub open spec fn set_path_spec(
    doc: Node,
    path: Seq<char>,
    value: Result<Node, Fault>,
    create: bool,
) -> Result<Node, Fault> {
    match path_spec(path) {
        Ok(segs) => set_spec(doc, segs, value, create),
        Err(e) => Err(e),
    }
}

/// The model of a setting's type hint.
pub open spec fn config_hint(config: &SetConfig) -> Option<Seq<char>> {
    match config.value_type {
        Some(h) => Some(h@),
        None => None,
    }
}

/// Carries out `config` on `doc`: coerces `config.value` by its type hint
/// and writes it at `config.field_path`. `float_bits` is what reading
/// `config.value` as a binary64 float gives, as bits, or `None` when it does
/// not read as one.
pub fn set_field(doc: Value, config: &SetConfig, float_bits: Option<u64>) -> (r: Result<
    Value,
    TomlExtractError,
>)
    ensures
        node_result(r) == set_path_spec(
            doc@,
            config.field_path@,
            coerce_spec(config.value@, config_hint(config), float_bits),
            config.create_missing,
        ),
{
    let segs = match parse_path(config.field_path.as_str()) {
        Ok(s) => s,
        Err(e) => {
            return Err(e);
        },
    };
    let hint: Option<&str> = match &config.value_type {
        Some(h) => Some(h.as_str()),
        None => None,
    };
    assert(hint_view(hint) == config_hint(config));
    let value = parse_value_with_type(config.value.as_str(), hint, float_bits);
    set_nested_value(doc, &segs, value, config.create_missing)
}

proof fn lemma_put_again(e: Seq<(Seq<char>, Node)>, k: Seq<char>, v: Node)
    ensures
        key_index(put(e, k, v), k) is Some,
        put(e, k, v)[key_index(put(e, k, v), k)->0].1 == v,
        put(put(e, k, v), k, v) == put(e, k, v),
{
    match key_index(e, k) {
        Some(j) => {
            lemma_key_index_update(e, k, j, v);
            assert(e.update(j, (k, v)).update(j, (k, v)) =~= e.update(j, (k, v)));
        },
        None => {
            lemma_key_index_push(e, k, v);
            assert(e.push((k, v)).update(e.len() as int, (k, v)) =~= e.push((k, v)));
        },
    }
}

/// Writing the same value at the same path a second time changes nothing:
/// the document after two writes is the document after one.
pub proof fn lemma_set_idempotent(
    node: Node,
    segs: Seq<Seg>,
    value: Result<Node, Fault>,
    create: bool,
)
    requires
        set_spec(node, segs, value, create) is Ok,
    ensures
        set_spec(set_spec(node, segs, value, create)->Ok_0, segs, value, create) == set_spec(
            node,
            segs,
            value,
            create,
        ),
    decreases segs.len(),
{
    if segs.len() > 0 {
        let rest = segs.drop_first();
        let e = writable_entries(node, create)->0;
        match segs[0] {
            Seg::Field(k) => match key_index(e, k) {
                Some(j) => {
                    let c = set_spec(e[j].1, rest, value, create)->Ok_0;
                    lemma_set_idempotent(e[j].1, rest, value, create);
                    lemma_key_index_update(e, k, j, c);
                    assert(e.update(j, (k, c)).update(j, (k, c)) =~= e.update(j, (k, c)));
                },
                None => {
                    let c = set_spec(Node::Table(Seq::empty()), rest, value, create)->Ok_0;
                    lemma_set_idempotent(Node::Table(Seq::empty()), rest, value, create);
                    lemma_key_index_push(e, k, c);
                    assert(e.push((k, c)).update(e.len() as int, (k, c)) =~= e.push((k, c)));
                },
            },
            Seg::Indexed(k, i) => {
                let a = writable_array(e, k, create)->0;
                let padded = if create {
                    pad(a, i + 1)
                } else {
                    a
                };
                let c = set_spec(padded[i as int], rest, value, create)->Ok_0;
                lemma_set_idempotent(padded[i as int], rest, value, create);
                let a2 = padded.update(i as int, c);
                lemma_put_again(e, k, Node::Array(a2));
                assert(a2.update(i as int, c) =~= a2);
            },
        }
    }
}

/// Writing the same text at the same field path twice gives the same
/// document as writing it once.
pub proof fn lemma_set_field_idempotent(
    doc: Node,
    path: Seq<char>,
    value: Result<Node, Fault>,
    create: bool,
)
    requires
        set_path_spec(doc, path, value, create) is Ok,
    ensures
        set_path_spec(set_path_spec(doc, path, value, create)->Ok_0, path, value, create)
            == set_path_spec(doc, path, value, create),
{
    lemma_set_idempotent(doc, path_spec(path)->Ok_0, value, create);
}

/// An index at or past the end of an array: reading through it fails with
/// `ArrayIndexOutOfBounds` carrying the array's length, and so does writing
/// when creation is off; with creation on, writing succeeds and the array is
/// padded with empty strings to `i + 1` elements, the last being the value.
pub proof fn lemma_index_bounds(
    e: Seq<(Seq<char>, Node)>,
    k: Seq<char>,
    i: nat,
    a: Seq<Node>,
    rest: Seq<Seg>,
    v: Node,
)
    requires
        table_get(e, k) == Some(Node::Array(a)),
        i >= a.len(),
    ensures
        resolve_spec(Node::Table(e), seq![Seg::Indexed(k, i)] + rest) == Err::<Node, _>(
            Fault::ArrayIndexOutOfBounds(k, i, a.len()),
        ),
        set_spec(Node::Table(e), seq![Seg::Indexed(k, i)] + rest, Ok(v), false) == Err::<Node, _>(
            Fault::ArrayIndexOutOfBounds(k, i, a.len()),
        ),
        set_spec(Node::Table(e), seq![Seg::Indexed(k, i)], Ok(v), true) == Ok::<_, Fault>(
            Node::Table(put(e, k, Node::Array(pad(a, i + 1).update(i as int, v)))),
        ),
        pad(a, i + 1).len() == i + 1,
        pad(a, i + 1).update(i as int, v)[i as int] == v,
{
    let segs = seq![Seg::Indexed(k, i)] + rest;
    assert(segs[0] == Seg::Indexed(k, i));
    let one = seq![Seg::Indexed(k, i)];
    assert(one.drop_first() =~= Seq::<Seg>::empty());
    assert(step_spec(Node::Table(e), Seg::Indexed(k, i)) == Err::<Node, _>(
        Fault::ArrayIndexOutOfBounds(k, i, a.len()),
    ));
    let padded = pad(a, i + 1);
    assert(padded.len() == i + 1);
    assert(writable_entries(Node::Table(e), true) == Some(e));
    assert(writable_array(e, k, true) == Some(a));
    assert(set_spec(padded[i as int], one.drop_first(), Ok::<_, Fault>(v), true) == Ok::<_, Fault>(v));
}

} // verus!
