//! Reading a node of a document by its path.
use vstd::prelude::*;

use crate::error::{Fault, TomlExtractError};
use crate::path::{parse_path, path_spec, segs_view, PathSegment, Seg};
use crate::value::{
    entries_view, find_key, key_index, table_get, lemma_array_view, lemma_table_view, Node, Value,
};

verus! {

/// One step down the tree: look `seg`'s key up in the table `node`, then,
/// for an indexed segment, index into the array found there. Existence is
/// checked before kind, kind before bounds.
pub open spec fn step_spec(node: Node, seg: Seg) -> Result<Node, Fault> {
    match node {
        Node::Table(e) => match key_index(e, seg.key()) {
            None => Err(Fault::FieldNotFound(seg.key())),
            Some(j) => match seg {
                Seg::Field(_) => Ok(e[j].1),
                Seg::Indexed(k, i) => match e[j].1 {
                    Node::Array(a) => if i < a.len() {
                        Ok(a[i as int])
                    } else {
                        Err(Fault::ArrayIndexOutOfBounds(k, i, a.len()))
                    },
                    _ => Err(Fault::NotAnArray(k)),
                },
            },
        },
        _ => Err(Fault::NotATable(seg.key())),
    }
}

/// The node that `segs` lead to from `node`, or the first error met.
pub open spec fn resolve_spec(node: Node, segs: Seq<Seg>) -> Result<Node, Fault>
    decreases segs.len(),
{
    if segs.len() == 0 {
        Ok(node)
    } else {
        match step_spec(node, segs[0]) {
            Ok(child) => resolve_spec(child, segs.drop_first()),
            Err(e) => Err(e),
        }
    }
}

/// What reading `path` in `doc` gives.
pub open spec fn get_spec(doc: Node, path: Seq<char>) -> Result<Node, Fault> {
    match path_spec(path) {
        Ok(segs) => resolve_spec(doc, segs),
        Err(e) => Err(e),
    }
}

/// Follows `segs` down from `root`.
pub fn resolve<'a>(root: &'a Value, segs: &Vec<PathSegment>) -> (r: Result<
    &'a Value,
    TomlExtractError,
>)
    ensures
        match r {
            Ok(v) => resolve_spec(root@, segs_view(segs@)) == Ok::<_, Fault>(v@),
            Err(e) => resolve_spec(root@, segs_view(segs@)) == Err::<Node, _>(e@),
        },
{
    let ghost all = segs_view(segs@);
    let mut current: &Value = root;
    let mut k: usize = 0;
    assert(all.subrange(0, all.len() as int) =~= all);
    while k < segs.len()
        invariant
            k <= segs.len(),
            all == segs_view(segs@),
            all.len() == segs.len(),
            resolve_spec(root@, all) == resolve_spec(current@, all.subrange(k as int, all.len() as int)),
        decreases segs.len() - k,
    {
        let ghost rest = all.subrange(k as int, all.len() as int);
        assert(rest.drop_first() =~= all.subrange(k + 1, all.len() as int));
        assert(rest[0] == segs[k as int]@);
        let seg = &segs[k];
        match current {
            Value::Table(entries) => {
                proof {
                    lemma_table_view(*entries);
                }
                match find_key(entries, seg.key()) {
                    None => {
                        return Err(TomlExtractError::FieldNotFound(seg.key().clone()));
                    },
                    Some(j) => {
                        let child = &entries[j].1;
                        assert(entries_view(entries@)[j as int].1 == child@);
                        match seg {
                            PathSegment::Field(_) => {
                                current = child;
                            },
                            PathSegment::IndexedField(name, i) => match child {
                                Value::Array(a) => {
                                    proof {
                                        lemma_array_view(*a);
                                    }
                                    if *i < a.len() {
                                        current = &a[*i];
                                    } else {
                                        return Err(
                                            TomlExtractError::ArrayIndexOutOfBounds {
                                                path: name.clone(),
                                                index: *i,
                                                length: a.len(),
                                            },
                                        );
                                    }
                                },
                                _ => {
                                    return Err(TomlExtractError::NotAnArray(name.clone()));
                                },
                            },
                        }
                    },
                }
            },
            _ => {
                return Err(TomlExtractError::NotATable(seg.key().clone()));
            },
        }
        k = k + 1;
    }
    Ok(current)
}

/// Reads the node at `path` (such as `package.authors[1]`) in `value`.
pub fn get_nested_value<'a>(value: &'a Value, path: &str) -> (r: Result<
    &'a Value,
    TomlExtractError,
>)
    ensures
        match r {
            Ok(v) => get_spec(value@, path@) == Ok::<_, Fault>(v@),
            Err(e) => get_spec(value@, path@) == Err::<Node, _>(e@),
        },
{
    match parse_path(path) {
        Ok(segs) => resolve(value, &segs),
        Err(e) => Err(e),
    }
}

/// The elements of the array at `path` in `doc`, or why there is none:
/// the error of reading the path, or `NotAnArray` naming the path.
pub open spec fn array_spec(doc: Node, path: Seq<char>) -> Result<Seq<Node>, Fault> {
    match get_spec(doc, path) {
        Ok(Node::Array(a)) => Ok(a),
        Ok(_) => Err(Fault::NotAnArray(path)),
        Err(e) => Err(e),
    }
}

/// Element `index` of the array at `path` in `doc`, or why there is none.
pub open spec fn element_spec(doc: Node, path: Seq<char>, index: nat) -> Result<Node, Fault> {
    match array_spec(doc, path) {
        Ok(a) => if index < a.len() {
            Ok(a[index as int])
        } else {
            Err(Fault::ArrayIndexOutOfBounds(path, index, a.len()))
        },
        Err(e) => Err(e),
    }
}

/// Reads the array at `array_path` in `doc`.
pub fn extract_array<'a>(doc: &'a Value, array_path: &str) -> (r: Result<
    &'a Value,
    TomlExtractError,
>)
    ensures
        match r {
            Ok(v) => v@ is Array && array_spec(doc@, array_path@) == Ok::<_, Fault>(
                v@->Array_0,
            ),
            Err(e) => array_spec(doc@, array_path@) == Err::<Seq<Node>, _>(e@),
        },
{
    let v = match get_nested_value(doc, array_path) {
        Ok(v) => v,
        Err(e) => {
            return Err(e);
        },
    };
    match v {
        Value::Array(_) => Ok(v),
        _ => Err(TomlExtractError::NotAnArray(String::from_str(array_path))),
    }
}

/// The length of the array at `array_path` in `doc`.
pub fn extract_array_length(doc: &Value, array_path: &str) -> (r: Result<
    usize,
    TomlExtractError,
>)
    ensures
        match r {
            Ok(n) => array_spec(doc@, array_path@) is Ok && array_spec(
                doc@,
                array_path@,
            )->Ok_0.len() == n,
            Err(e) => array_spec(doc@, array_path@) == Err::<Seq<Node>, _>(e@),
        },
{
    match extract_array(doc, array_path) {
        Ok(Value::Array(a)) => {
            proof {
                lemma_array_view(*a);
            }
            Ok(a.len())
        },
        Ok(_) => Err(TomlExtractError::NotAnArray(String::from_str(array_path))),
        Err(e) => Err(e),
    }
}

/// Element `index` of the array at `array_path` in `doc`. Fails with
/// `ArrayIndexOutOfBounds` naming the path when `index` is not below the
/// array's length.
pub fn extract_array_element<'a>(doc: &'a Value, array_path: &str, index: usize) -> (r: Result<
    &'a Value,
    TomlExtractError,
>)
    ensures
        match r {
            Ok(v) => element_spec(doc@, array_path@, index as nat) == Ok::<_, Fault>(v@),
            Err(e) => element_spec(doc@, array_path@, index as nat) == Err::<Node, _>(e@),
        },
{
    match extract_array(doc, array_path) {
        Ok(Value::Array(a)) => {
            proof {
                lemma_array_view(*a);
            }
            if index < a.len() {
                Ok(&a[index])
            } else {
                Err(
                    TomlExtractError::ArrayIndexOutOfBounds {
                        path: String::from_str(array_path),
                        index,
                        length: a.len(),
                    },
                )
            }
        },
        Ok(_) => Err(TomlExtractError::NotAnArray(String::from_str(array_path))),
        Err(e) => Err(e),
    }
}

/// `package.name` of a manifest.
pub fn get_package_name(doc: &Value) -> (r: Result<&Value, TomlExtractError>)
    ensures
        match r {
            Ok(v) => get_spec(doc@, "package.name"@) == Ok::<_, Fault>(v@),
            Err(e) => get_spec(doc@, "package.name"@) == Err::<Node, _>(e@),
        },
{
    get_nested_value(doc, "package.name")
}

/// `package.version` of a manifest.
pub fn get_package_version(doc: &Value) -> (r: Result<&Value, TomlExtractError>)
    ensures
        match r {
            Ok(v) => get_spec(doc@, "package.version"@) == Ok::<_, Fault>(v@),
            Err(e) => get_spec(doc@, "package.version"@) == Err::<Node, _>(e@),
        },
{
    get_nested_value(doc, "package.version")
}

/// What a list field of a manifest gives: one element when `index` is
/// given, else the whole array.
pub open spec fn list_field_spec(doc: Node, path: Seq<char>, index: Option<usize>) -> Result<
    Node,
    Fault,
> {
    match index {
        Some(i) => element_spec(doc, path, i as nat),
        None => match array_spec(doc, path) {
            Ok(a) => Ok(Node::Array(a)),
            Err(e) => Err(e),
        },
    }
}

fn list_field<'a>(doc: &'a Value, path: &str, index: Option<usize>) -> (r: Result<
    &'a Value,
    TomlExtractError,
>)
    ensures
        match r {
            Ok(v) => list_field_spec(doc@, path@, index) == Ok::<_, Fault>(v@),
            Err(e) => list_field_spec(doc@, path@, index) == Err::<Node, _>(e@),
        },
{
    match index {
        Some(i) => extract_array_element(doc, path, i),
        None => extract_array(doc, path),
    }
}

/// `package.authors` of a manifest, or its element `index`.
pub fn get_package_authors(doc: &Value, index: Option<usize>) -> (r: Result<
    &Value,
    TomlExtractError,
>)
    ensures
        match r {
            Ok(v) => list_field_spec(doc@, "package.authors"@, index) == Ok::<_, Fault>(v@),
            Err(e) => list_field_spec(doc@, "package.authors"@, index) == Err::<Node, _>(e@),
        },
{
    list_field(doc, "package.authors", index)
}

/// `package.keywords` of a manifest, or its element `index`.
pub fn get_package_keywords(doc: &Value, index: Option<usize>) -> (r: Result<
    &Value,
    TomlExtractError,
>)
    ensures
        match r {
            Ok(v) => list_field_spec(doc@, "package.keywords"@, index) == Ok::<_, Fault>(v@),
            Err(e) => list_field_spec(doc@, "package.keywords"@, index) == Err::<Node, _>(e@),
        },
{
    list_field(doc, "package.keywords", index)
}

/// `package.categories` of a manifest, or its element `index`.
pub fn get_package_categories(doc: &Value, index: Option<usize>) -> (r: Result<
    &Value,
    TomlExtractError,
>)
    ensures
        match r {
            Ok(v) => list_field_spec(doc@, "package.categories"@, index) == Ok::<_, Fault>(v@),
            Err(e) => list_field_spec(doc@, "package.categories"@, index) == Err::<Node, _>(e@),
        },
{
    list_field(doc, "package.categories", index)
}

/// The model of an optional string.
pub open spec fn opt_text(o: Option<String>) -> Option<Seq<char>> {
    match o {
        Some(s) => Some(s@),
        None => None,
    }
}

/// The version text of a dependency entry: the string itself, or the
/// `version` string of a table (empty when that is missing or not a string).
/// `None` for any other kind of entry, whose text is its rendering.
pub open spec fn dep_version_spec(n: Node) -> Option<Seq<char>> {
    match n {
        Node::Str(s) => Some(s),
        Node::Table(t) => match table_get(t, "version"@) {
            Some(Node::Str(v)) => Some(v),
            _ => Some(Seq::empty()),
        },
        _ => None,
    }
}

/// The entries of the `dependencies` table of a manifest; none when it is
/// missing or not a table.
pub open spec fn deps_spec(doc: Node) -> Seq<(Seq<char>, Node)> {
    match doc {
        Node::Table(e) => match table_get(e, "dependencies"@) {
            Some(Node::Table(d)) => d,
            _ => Seq::empty(),
        },
        _ => Seq::empty(),
    }
}

/// The version text of one dependency entry.
pub fn dependency_version(v: &Value) -> (r: Option<String>)
    ensures
        opt_text(r) == dep_version_spec(v@),
{
    match v {
        Value::String(s) => Some(s.clone()),
        Value::Table(t) => {
            proof {
                lemma_table_view(*t);
            }
            match find_key(t, &String::from_str("version")) {
                Some(j) => match &t[j].1 {
                    Value::String(s) => Some(s.clone()),
                    _ => Some(String::new()),
                },
                None => Some(String::new()),
            }
        },
        _ => None,
    }
}

/// Each dependency of a manifest with its version text, in table order.
pub fn get_dependencies(doc: &Value) -> (r: Vec<(String, Option<String>)>)
    ensures
        r@.len() == deps_spec(doc@).len(),
        forall|i: int|
            0 <= i < r@.len() ==> #[trigger] r@[i].0@ == deps_spec(doc@)[i].0 && opt_text(r@[i].1)
                == dep_version_spec(deps_spec(doc@)[i].1),
{
    let mut out: Vec<(String, Option<String>)> = Vec::new();
    let deps = match doc {
        Value::Table(e) => {
            proof {
                lemma_table_view(*e);
            }
            match find_key(e, &String::from_str("dependencies")) {
                Some(j) => match &e[j].1 {
                    Value::Table(d) => d,
                    _ => {
                        return out;
                    },
                },
                None => {
                    return out;
                },
            }
        },
        _ => {
            return out;
        },
    };
    proof {
        lemma_table_view(*deps);
    }
    let ghost dv = entries_view(deps@);
    assert(deps_spec(doc@) == dv);
    let mut i: usize = 0;
    while i < deps.len()
        invariant
            i <= deps.len(),
            dv == entries_view(deps@),
            out@.len() == i,
            forall|k: int|
                0 <= k < i ==> #[trigger] out@[k].0@ == dv[k].0 && opt_text(out@[k].1)
                    == dep_version_spec(dv[k].1),
        decreases deps.len() - i,
    {
        let name = deps[i].0.clone();
        let version = dependency_version(&deps[i].1);
        out.push((name, version));
        i = i + 1;
    }
    out
}

} // verus!
