//! Field paths: splitting them into segments and reading array syntax.
use vstd::prelude::*;

use crate::error::{Fault, TomlExtractError};
use crate::number::{parse_usize, usize_text_value};

verus! {

/// Index of the first `c` in `s`, or -1 when there is none.
pub open spec fn first_index(s: Seq<char>, c: char) -> int
    decreases s.len(),
{
    if s.len() == 0 {
        -1
    } else {
        let r = first_index(s.drop_last(), c);
        if r >= 0 {
            r
        } else if s.last() == c {
            s.len() - 1
        } else {
            -1
        }
    }
}

/// Index of the last `c` in `s`, or -1 when there is none.
pub open spec fn last_index(s: Seq<char>, c: char) -> int
    decreases s.len(),
{
    if s.len() == 0 {
        -1
    } else if s.last() == c {
        s.len() - 1
    } else {
        last_index(s.drop_last(), c)
    }
}

proof fn lemma_first_index_range(s: Seq<char>, c: char)
    ensures
        -1 <= first_index(s, c) < s.len(),
        first_index(s, c) >= 0 ==> s[first_index(s, c)] == c,
        first_index(s, c) == -1 ==> forall|i: int| 0 <= i < s.len() ==> s[i] != c,
    decreases s.len(),
{
    if s.len() > 0 {
        lemma_first_index_range(s.drop_last(), c);
        if first_index(s.drop_last(), c) >= 0 {
            assert(s[first_index(s, c)] == s.drop_last()[first_index(s, c)]);
        } else {
            assert forall|i: int| 0 <= i < s.len() - 1 implies s[i] != c by {
                assert(s[i] == s.drop_last()[i]);
            }
        }
    }
}

proof fn lemma_last_index_range(s: Seq<char>, c: char)
    ensures
        -1 <= last_index(s, c) < s.len(),
        last_index(s, c) >= 0 ==> s[last_index(s, c)] == c,
    decreases s.len(),
{
    if s.len() > 0 && s.last() != c {
        lemma_last_index_range(s.drop_last(), c);
        if last_index(s, c) >= 0 {
            assert(s[last_index(s, c)] == s.drop_last()[last_index(s, c)]);
        }
    }
}

/// The first `c` of a string is the first `c` of any prefix that holds one.
proof fn lemma_first_index_prefix(s: Seq<char>, c: char, j: int)
    requires
        0 <= j <= s.len(),
        first_index(s.subrange(0, j), c) >= 0,
    ensures
        first_index(s, c) == first_index(s.subrange(0, j), c),
    decreases s.len(),
{
    if j < s.len() {
        assert(s.drop_last().subrange(0, j) =~= s.subrange(0, j));
        lemma_first_index_prefix(s.drop_last(), c, j);
    } else {
        assert(s.subrange(0, j) =~= s);
    }
}

/// Finds the first `c` in `s`.
pub fn find_char(s: &str, c: char) -> (r: Option<usize>)
    ensures
        match r {
            Some(i) => first_index(s@, c) == i,
            None => first_index(s@, c) == -1,
        },
{
    let n = s.unicode_len();
    let mut i: usize = 0;
    assert(s@.subrange(0, 0).len() == 0);
    while i < n
        invariant
            i <= n,
            n == s@.len(),
            first_index(s@.subrange(0, i as int), c) == -1,
        decreases n - i,
    {
        assert(s@.subrange(0, i + 1).drop_last() =~= s@.subrange(0, i as int));
        if s.get_char(i) == c {
            proof {
                lemma_first_index_prefix(s@, c, i + 1);
            }
            return Some(i);
        }
        i = i + 1;
    }
    assert(s@.subrange(0, n as int) =~= s@);
    None
}

/// Finds the last `c` in `s`.
fn find_last_char(s: &str, c: char) -> (r: Option<usize>)
    ensures
        match r {
            Some(i) => last_index(s@, c) == i,
            None => last_index(s@, c) == -1,
        },
{
    let n = s.unicode_len();
    let mut i: usize = 0;
    let mut found: Option<usize> = None;
    while i < n
        invariant
            i <= n,
            n == s@.len(),
            match found {
                Some(k) => last_index(s@.subrange(0, i as int), c) == k,
                None => last_index(s@.subrange(0, i as int), c) == -1,
            },
        decreases n - i,
    {
        assert(s@.subrange(0, i + 1).drop_last() =~= s@.subrange(0, i as int));
        if s.get_char(i) == c {
            found = Some(i);
        }
        i = i + 1;
    }
    assert(s@.subrange(0, n as int) =~= s@);
    found
}

/// A segment in array syntax: it holds a `[` and ends with `]`.
pub open spec fn array_syntax(s: Seq<char>) -> bool {
    first_index(s, '[') >= 0 && s.len() >= 1 && s.last() == ']'
}

/// The name before the first `[` of an array segment.
pub open spec fn access_name(s: Seq<char>) -> Seq<char> {
    s.subrange(0, first_index(s, '['))
}

/// The text between the first `[` and the final `]` of an array segment.
pub open spec fn access_index_text(s: Seq<char>) -> Seq<char> {
    s.subrange(first_index(s, '[') + 1, s.len() - 1)
}

/// True when `part` holds a `[` and ends with `]`.
pub fn is_array_access(part: &str) -> (r: bool)
    ensures
        r == array_syntax(part@),
{
    let n = part.unicode_len();
    match find_char(part, '[') {
        Some(_) => n >= 1 && part.get_char(n - 1) == ']',
        None => false,
    }
}

/// Splits an array segment such as `authors[1]` into its name and index.
///
/// Fails with `InvalidFieldPath` when `part` is not in array syntax or its
/// name is empty, and with `InvalidArrayIndex` when the text between the
/// brackets is not a non-negative integer.
pub fn parse_array_access(part: &str) -> (r: Result<(String, usize), TomlExtractError>)
    ensures
        match r {
            Ok((name, index)) => {
                &&& array_syntax(part@)
                &&& access_name(part@).len() > 0
                &&& name@ == access_name(part@)
                &&& usize_text_value(access_index_text(part@)) == Some(index as int)
            },
            Err(e) => if !array_syntax(part@) || access_name(part@).len() == 0 {
                e@ == Fault::InvalidFieldPath(part@)
            } else {
                &&& usize_text_value(access_index_text(part@)) is None
                &&& e@ == Fault::InvalidArrayIndex(access_index_text(part@))
            },
        },
{
    if !is_array_access(part) {
        return Err(TomlExtractError::InvalidFieldPath(String::from_str(part)));
    }
    let n = part.unicode_len();
    let open = match find_char(part, '[') {
        Some(k) => k,
        None => {
            return Err(TomlExtractError::InvalidFieldPath(String::from_str(part)));
        },
    };
    if open == 0 {
        return Err(TomlExtractError::InvalidFieldPath(String::from_str(part)));
    }
    proof {
        lemma_first_index_range(part@, '[');
    }
    let text = part.substring_char(open + 1, n - 1);
    match parse_usize(text) {
        Some(index) => Ok((String::from_str(part.substring_char(0, open)), index)),
        None => Err(TomlExtractError::InvalidArrayIndex(String::from_str(text))),
    }
}

/// The pieces of `s` between the occurrences of `c`, as `str::split` gives
/// them.
pub open spec fn split_on(s: Seq<char>, c: char) -> Seq<Seq<char>>
    decreases s.len(),
{
    if s.len() == 0 {
        seq![Seq::empty()]
    } else {
        let r = split_on(s.drop_last(), c);
        if s.last() == c {
            r.push(Seq::empty())
        } else {
            r.update(r.len() - 1, r.last().push(s.last()))
        }
    }
}

/// The models of a list of strings.
pub open spec fn views_of(v: Seq<String>) -> Seq<Seq<char>> {
    v.map_values(|p: String| p@)
}

/// Splits a path at every dot; an empty path gives one empty piece.
pub fn split_path(path: &str) -> (r: Vec<String>)
    ensures
        views_of(r@) == split_on(path@, '.'),
{
    let n = path.unicode_len();
    let mut parts: Vec<String> = Vec::new();
    let mut start: usize = 0;
    let mut i: usize = 0;
    assert(path@.subrange(0, 0) =~= Seq::<char>::empty());
    assert(split_on(Seq::<char>::empty(), '.') =~= views_of(parts@).push(path@.subrange(0, 0)));
    while i < n
        invariant
            start <= i <= n,
            n == path@.len(),
            split_on(path@.subrange(0, i as int), '.') == views_of(parts@).push(
                path@.subrange(start as int, i as int),
            ),
        decreases n - i,
    {
        let c = path.get_char(i);
        let ghost pre = path@.subrange(0, i as int);
        assert(path@.subrange(0, i + 1).drop_last() =~= pre);
        if c == '.' {
            let ghost old_parts = parts@;
            parts.push(String::from_str(path.substring_char(start, i)));
            assert(views_of(parts@) =~= views_of(old_parts).push(
                path@.subrange(start as int, i as int),
            ));
            assert(path@.subrange(i + 1, i + 1) =~= Seq::<char>::empty());
            start = i + 1;
        } else {
            assert(path@.subrange(start as int, i + 1) =~= path@.subrange(
                start as int,
                i as int,
            ).push(c));
            assert(split_on(path@.subrange(0, i + 1), '.') =~= views_of(parts@).push(
                path@.subrange(start as int, i + 1),
            ));
        }
        i = i + 1;
    }
    assert(path@.subrange(0, n as int) =~= path@);
    let ghost old_parts = parts@;
    parts.push(String::from_str(path.substring_char(start, n)));
    assert(views_of(parts@) =~= views_of(old_parts).push(path@.subrange(start as int, n as int)));
    parts
}

/// Everything before the last dot, or `None` when there is no dot.
pub fn parent_path(path: &str) -> (r: Option<String>)
    ensures
        match r {
            Some(p) => last_index(path@, '.') >= 0 && p@ == path@.subrange(
                0,
                last_index(path@, '.'),
            ),
            None => last_index(path@, '.') == -1,
        },
{
    match find_last_char(path, '.') {
        Some(k) => {
            proof {
                lemma_last_index_range(path@, '.');
            }
            Some(String::from_str(path.substring_char(0, k)))
        },
        None => None,
    }
}

/// Everything after the last dot (the whole path when there is none).
pub fn last_part(path: &str) -> (r: Option<String>)
    ensures
        match r {
            Some(p) => p@ == path@.subrange(last_index(path@, '.') + 1, path@.len() as int),
            None => false,
        },
{
    proof {
        lemma_last_index_range(path@, '.');
    }
    let n = path.unicode_len();
    match find_last_char(path, '.') {
        Some(k) => Some(String::from_str(path.substring_char(k + 1, n))),
        None => Some(String::from_str(path)),
    }
}

/// The state of a left-to-right scan of a field path: the segments closed so
/// far, the open segment, whether the scan is between brackets, and whether
/// the path has already proved malformed.
pub struct Scan {
    pub parts: Seq<Seq<char>>,
    pub cur: Seq<char>,
    pub in_brackets: bool,
    pub bad: bool,
}

/// One character of the scan. A dot outside brackets closes the open segment
/// (an empty one makes the path malformed); `[` and `]` open and close
/// brackets and stay in the segment; a `]` with no open bracket makes the
/// path malformed.
pub open spec fn scan_step(st: Scan, c: char) -> Scan {
    if st.bad {
        st
    } else if c == '.' && !st.in_brackets {
        if st.cur.len() == 0 {
            Scan { parts: st.parts, cur: st.cur, in_brackets: st.in_brackets, bad: true }
        } else {
            Scan {
                parts: st.parts.push(st.cur),
                cur: Seq::empty(),
                in_brackets: st.in_brackets,
                bad: false,
            }
        }
    } else if c == '[' {
        Scan { parts: st.parts, cur: st.cur.push(c), in_brackets: true, bad: false }
    } else if c == ']' {
        if st.in_brackets {
            Scan { parts: st.parts, cur: st.cur.push(c), in_brackets: false, bad: false }
        } else {
            Scan { parts: st.parts, cur: st.cur, in_brackets: st.in_brackets, bad: true }
        }
    } else {
        Scan { parts: st.parts, cur: st.cur.push(c), in_brackets: st.in_brackets, bad: false }
    }
}

/// The state after scanning all of `s`.
pub open spec fn scan(s: Seq<char>) -> Scan
    decreases s.len(),
{
    if s.len() == 0 {
        Scan { parts: Seq::empty(), cur: Seq::empty(), in_brackets: false, bad: false }
    } else {
        scan_step(scan(s.drop_last()), s.last())
    }
}

/// The segments of a field path, or `InvalidFieldPath` when it is empty, has
/// an empty segment (leading, trailing or doubled dot) or unmatched brackets.
pub open spec fn split_field_spec(s: Seq<char>) -> Result<Seq<Seq<char>>, Fault> {
    let st = scan(s);
    if st.bad || st.in_brackets || st.cur.len() == 0 {
        Err(Fault::InvalidFieldPath(s))
    } else {
        Ok(st.parts.push(st.cur))
    }
}

proof fn lemma_scan_bad_sticks(s: Seq<char>, j: int)
    requires
        0 <= j <= s.len(),
        scan(s.subrange(0, j)).bad,
    ensures
        scan(s).bad,
    decreases s.len(),
{
    if j < s.len() {
        assert(s.drop_last().subrange(0, j) =~= s.subrange(0, j));
        lemma_scan_bad_sticks(s.drop_last(), j);
    } else {
        assert(s.subrange(0, j) =~= s);
    }
}

/// Splits a field path into its segments. Dots between brackets do not
/// split; brackets stay in their segment.
pub fn split_field_path(field_path: &str) -> (r: Result<Vec<String>, TomlExtractError>)
    ensures
        match r {
            Ok(parts) => split_field_spec(field_path@) == Ok::<_, Fault>(views_of(parts@)),
            Err(e) => split_field_spec(field_path@) == Err::<Seq<Seq<char>>, _>(e@),
        },
{
    let ghost s = field_path@;
    let n = field_path.unicode_len();
    let mut parts: Vec<String> = Vec::new();
    let mut start: usize = 0;
    let mut in_brackets = false;
    let mut i: usize = 0;
    assert(s.subrange(0, 0) =~= Seq::<char>::empty());
    assert(views_of(parts@) =~= Seq::<Seq<char>>::empty());
    while i < n
        invariant
            start <= i <= n,
            n == s.len(),
            s == field_path@,
            scan(s.subrange(0, i as int)) == (Scan {
                parts: views_of(parts@),
                cur: s.subrange(start as int, i as int),
                in_brackets,
                bad: false,
            }),
        decreases n - i,
    {
        let c = field_path.get_char(i);
        assert(s.subrange(0, i + 1).drop_last() =~= s.subrange(0, i as int));
        assert(s.subrange(start as int, i + 1) =~= s.subrange(start as int, i as int).push(c));
        if c == '.' && !in_brackets {
            if start == i {
                proof {
                    lemma_scan_bad_sticks(s, i + 1);
                }
                return Err(TomlExtractError::InvalidFieldPath(String::from_str(field_path)));
            }
            let ghost old_parts = parts@;
            parts.push(String::from_str(field_path.substring_char(start, i)));
            assert(views_of(parts@) =~= views_of(old_parts).push(
                s.subrange(start as int, i as int),
            ));
            assert(s.subrange(i + 1, i + 1) =~= Seq::<char>::empty());
            start = i + 1;
        } else if c == '[' {
            in_brackets = true;
        } else if c == ']' {
            if !in_brackets {
                proof {
                    lemma_scan_bad_sticks(s, i + 1);
                }
                return Err(TomlExtractError::InvalidFieldPath(String::from_str(field_path)));
            }
            in_brackets = false;
        }
        i = i + 1;
    }
    assert(s.subrange(0, n as int) =~= s);
    if in_brackets || start == n {
        return Err(TomlExtractError::InvalidFieldPath(String::from_str(field_path)));
    }
    let ghost old_parts = parts@;
    parts.push(String::from_str(field_path.substring_char(start, n)));
    assert(views_of(parts@) =~= views_of(old_parts).push(s.subrange(start as int, n as int)));
    Ok(parts)
}

/// One step of a path: a key, or a key followed by an index into the array
/// stored under it.
#[derive(Debug, PartialEq, Eq)]
pub enum PathSegment {
    Field(String),
    IndexedField(String, usize),
}

/// The abstract form of a [`PathSegment`].
pub enum Seg {
    Field(Seq<char>),
    Indexed(Seq<char>, nat),
}

impl Seg {
    /// The key that the segment looks up in a table.
    pub open spec fn key(self) -> Seq<char> {
        match self {
            Seg::Field(k) => k,
            Seg::Indexed(k, _) => k,
        }
    }
}

impl View for PathSegment {
    type V = Seg;

    open spec fn view(&self) -> Seg {
        match self {
            PathSegment::Field(k) => Seg::Field(k@),
            PathSegment::IndexedField(k, i) => Seg::Indexed(k@, *i as nat),
        }
    }
}

impl PathSegment {
    /// The key that the segment looks up in a table.
    pub fn key(&self) -> (r: &String)
        ensures
            r@ == self@.key(),
    {
        match self {
            PathSegment::Field(k) => k,
            PathSegment::IndexedField(k, _) => k,
        }
    }
}

/// What one segment of a split path denotes.
pub open spec fn segment_spec(part: Seq<char>) -> Result<Seg, Fault> {
    if array_syntax(part) {
        match usize_text_value(access_index_text(part)) {
            Some(i) => Ok(Seg::Indexed(access_name(part), i as nat)),
            None => Err(Fault::InvalidArrayIndex(access_index_text(part))),
        }
    } else {
        Ok(Seg::Field(part))
    }
}

/// Reads one segment of a split path.
pub fn parse_segment(part: &str) -> (r: Result<PathSegment, TomlExtractError>)
    ensures
        match r {
            Ok(seg) => segment_spec(part@) == Ok::<_, Fault>(seg@),
            Err(e) => segment_spec(part@) == Err::<Seg, _>(e@),
        },
{
    if is_array_access(part) {
        let n = part.unicode_len();
        let open = match find_char(part, '[') {
            Some(k) => k,
            None => {
                return Err(TomlExtractError::InvalidFieldPath(String::from_str(part)));
            },
        };
        proof {
            lemma_first_index_range(part@, '[');
        }
        let text = part.substring_char(open + 1, n - 1);
        match parse_usize(text) {
            Some(index) => Ok(
                PathSegment::IndexedField(String::from_str(part.substring_char(0, open)), index),
            ),
            None => Err(TomlExtractError::InvalidArrayIndex(String::from_str(text))),
        }
    } else {
        Ok(PathSegment::Field(String::from_str(part)))
    }
}

/// The models of a list of segments.
pub open spec fn segs_view(v: Seq<PathSegment>) -> Seq<Seg> {
    v.map_values(|p: PathSegment| p@)
}

/// The segments of every part in turn; the first part that fails decides the
/// error.
pub open spec fn segments_spec(parts: Seq<Seq<char>>) -> Result<Seq<Seg>, Fault>
    decreases parts.len(),
{
    if parts.len() == 0 {
        Ok(Seq::empty())
    } else {
        match segments_spec(parts.drop_last()) {
            Ok(v) => match segment_spec(parts.last()) {
                Ok(x) => Ok(v.push(x)),
                Err(e) => Err(e),
            },
            Err(e) => Err(e),
        }
    }
}

proof fn lemma_segments_err_sticks(parts: Seq<Seq<char>>, j: int)
    requires
        0 <= j <= parts.len(),
        segments_spec(parts.subrange(0, j)) is Err,
    ensures
        segments_spec(parts) == segments_spec(parts.subrange(0, j)),
    decreases parts.len(),
{
    if j < parts.len() {
        assert(parts.drop_last().subrange(0, j) =~= parts.subrange(0, j));
        lemma_segments_err_sticks(parts.drop_last(), j);
    } else {
        assert(parts.subrange(0, j) =~= parts);
    }
}

/// What a whole field path denotes: its segments, or the first error met.
pub open spec fn path_spec(s: Seq<char>) -> Result<Seq<Seg>, Fault> {
    match split_field_spec(s) {
        Ok(parts) => segments_spec(parts),
        Err(e) => Err(e),
    }
}

/// Parses a field path such as `package.authors[0]` into segments.
pub fn parse_path(path: &str) -> (r: Result<Vec<PathSegment>, TomlExtractError>)
    ensures
        match r {
            Ok(segs) => path_spec(path@) == Ok::<_, Fault>(segs_view(segs@)),
            Err(e) => path_spec(path@) == Err::<Seq<Seg>, _>(e@),
        },
        r is Ok ==> r->Ok_0.len() > 0,
{
    let parts = match split_field_path(path) {
        Ok(p) => p,
        Err(e) => {
            return Err(e);
        },
    };
    let ghost pv = views_of(parts@);
    let mut segs: Vec<PathSegment> = Vec::new();
    let mut i: usize = 0;
    assert(pv.subrange(0, 0) =~= Seq::<Seq<char>>::empty());
    assert(segs_view(segs@) =~= Seq::<Seg>::empty());
    while i < parts.len()
        invariant
            i <= parts.len(),
            pv == views_of(parts@),
            pv.len() == parts.len(),
            split_field_spec(path@) == Ok::<_, Fault>(pv),
            segs.len() == i,
            segments_spec(pv.subrange(0, i as int)) == Ok::<_, Fault>(segs_view(segs@)),
        decreases parts.len() - i,
    {
        assert(pv.subrange(0, i + 1).drop_last() =~= pv.subrange(0, i as int));
        assert(pv[i as int] == parts[i as int]@);
        assert(pv.subrange(0, i + 1).last() == pv[i as int]);
        match parse_segment(parts[i].as_str()) {
            Ok(seg) => {
                let ghost old_segs = segs@;
                segs.push(seg);
                assert(segs_view(segs@) =~= segs_view(old_segs).push(seg@));
            },
            Err(e) => {
                proof {
                    lemma_segments_err_sticks(pv, i + 1);
                }
                return Err(e);
            },
        }
        i = i + 1;
    }
    assert(pv.subrange(0, i as int) =~= pv);
    Ok(segs)
}

} // verus!
