//! JSON-like documents and the field extractor.
//!
//! A device's status payload is a structured document of arbitrarily nested
//! keys and values.  The library holds it as a tagged variant of its own;
//! numeric leaves carry the bit pattern of their binary64 value, so that the
//! logic never computes on the number itself, only carries it through to the
//! storage layer.  Extraction follows a dot-separated path key by key and
//! yields the numeric leaf if, and only if, every segment resolves.

use vstd::prelude::*;

use crate::text::push_char;

verus! {

/// A JSON-like document: object, array, string, number, boolean or null.
/// A number holds the bit pattern of its binary64 value.
pub enum JsonDoc {
    Null,
    Bool(bool),
    Num(u64),
    Text(String),
    Arr(Vec<JsonDoc>),
    Obj(Vec<(String, JsonDoc)>),
}

/// The value bound to `key` in an entry list: the first entry whose name
/// equals `key`, if any.
pub open spec fn spec_entries_get(es: Seq<(String, JsonDoc)>, key: Seq<char>) -> Option<JsonDoc>
    decreases es.len(),
{
    if es.len() == 0 {
        Option::None
    } else if es[0].0@ == key {
        Option::Some(es[0].1)
    } else {
        spec_entries_get(es.drop_first(), key)
    }
}

/// The child of `doc` under `key`: present only when `doc` is an object
/// with such a member.
pub open spec fn spec_doc_get(doc: JsonDoc, key: Seq<char>) -> Option<JsonDoc> {
    match doc {
        JsonDoc::Obj(entries) => spec_entries_get(entries@, key),
        _ => Option::None,
    }
}

/// The value reached from `doc` by the path segments `segs`: present
/// exactly when every segment resolves to a present member.
pub open spec fn spec_navigate(doc: JsonDoc, segs: Seq<Seq<char>>) -> Option<JsonDoc>
    decreases segs.len(),
{
    if segs.len() == 0 {
        Option::Some(doc)
    } else {
        match spec_doc_get(doc, segs[0]) {
            Option::Some(child) => spec_navigate(child, segs.drop_first()),
            Option::None => Option::None,
        }
    }
}

/// The numeric leaf reached from `doc` by the path segments `segs`:
/// present exactly when every segment resolves to a present member and the
/// terminal value is a number.
pub open spec fn spec_extract(doc: JsonDoc, segs: Seq<Seq<char>>) -> Option<u64> {
    match spec_navigate(doc, segs) {
        Option::Some(JsonDoc::Num(bits)) => Option::Some(bits),
        _ => Option::None,
    }
}

/// A dot-separated path, split into its segments.  The result is never
/// empty: an empty path has the empty string as its only segment.
pub open spec fn spec_split(path: Seq<char>) -> Seq<Seq<char>>
    decreases path.len(),
{
    if path.len() == 0 {
        seq![Seq::<char>::empty()]
    } else if path.last() == '.' {
        spec_split(path.drop_last()).push(Seq::<char>::empty())
    } else {
        let r = spec_split(path.drop_last());
        r.update(r.len() - 1, r.last().push(path.last()))
    }
}

/// The numeric leaf reached from `doc` by the dot-separated path `path`.
pub open spec fn spec_extract_path(doc: JsonDoc, path: Seq<char>) -> Option<u64> {
    spec_extract(doc, spec_split(path))
}

/// A split path always has at least one segment.
pub proof fn lemma_spec_split_nonempty(path: Seq<char>)
    ensures
        spec_split(path).len() >= 1,
    decreases path.len(),
{
    if path.len() != 0 {
        lemma_spec_split_nonempty(path.drop_last());
    }
}

/// Splits a path on `'.'` into its segments.
pub fn split_path(path: &str) -> (segs: Vec<String>)
    ensures
        segs@.map_values(|s: String| s@) == spec_split(path@),
{
    let n = path.unicode_len();
    let mut segs: Vec<String> = Vec::new();
    let mut cur = String::new();
    let mut i: usize = 0;
    while i < n
        invariant
            i <= n,
            n == path@.len(),
            segs@.map_values(|s: String| s@).push(cur@) =~= spec_split(path@.take(i as int)),
        decreases n - i,
    {
        let c = path.get_char(i);
        proof {
            assert(path@.take(i + 1).drop_last() =~= path@.take(i as int));
            assert(path@.take(i + 1).last() == path@[i as int]);
            lemma_spec_split_nonempty(path@.take(i as int));
        }
        if c == '.' {
            segs.push(cur);
            cur = String::new();
            proof {
                assert(segs@.map_values(|s: String| s@).push(cur@) =~= spec_split(
                    path@.take(i + 1),
                ));
            }
        } else {
            push_char(&mut cur, c);
            proof {
                let ghost m = segs@.map_values(|s: String| s@);
                let ghost r = spec_split(path@.take(i as int));
                assert(m.push(cur@) =~= r.update(r.len() - 1, r.last().push(path@[i as int])));
            }
        }
        i = i + 1;
    }
    proof {
        assert(path@.take(n as int) =~= path@);
    }
    segs.push(cur);
    segs
}

/// Looks a key up in `doc`: the first member of that name, when `doc` is an
/// object that has one.
pub fn get_field<'a>(doc: &'a JsonDoc, key: &String) -> (r: Option<&'a JsonDoc>)
    ensures
        match r {
            Option::Some(child) => spec_doc_get(*doc, key@) == Option::Some(*child),
            Option::None => spec_doc_get(*doc, key@) is None,
        },
{
    match doc {
        JsonDoc::Obj(entries) => {
            let n = entries.len();
            let mut i: usize = 0;
            proof {
                assert(entries@.skip(0) =~= entries@);
            }
            while i < n
                invariant
                    i <= n,
                    n == entries@.len(),
                    *doc == JsonDoc::Obj(*entries),
                    spec_entries_get(entries@.skip(i as int), key@) == spec_entries_get(
                        entries@,
                        key@,
                    ),
                decreases n - i,
            {
                proof {
                    assert(entries@.skip(i as int)[0] == entries@[i as int]);
                    assert(entries@.skip(i as int).drop_first() =~= entries@.skip(i + 1));
                }
                if entries[i].0 == *key {
                    return Option::Some(&entries[i].1);
                }
                i = i + 1;
            }
            proof {
                assert(entries@.skip(n as int) =~= Seq::<(String, JsonDoc)>::empty());
            }
            Option::None
        },
        _ => Option::None,
    }
}

/// Follows the already split path `segs` from `doc`, member by member:
/// the value it leads to, or nothing once a segment fails to resolve.
pub fn navigate_segments<'a>(doc: &'a JsonDoc, segs: &Vec<String>) -> (r: Option<&'a JsonDoc>)
    ensures
        match r {
            Option::Some(d) => spec_navigate(*doc, segs@.map_values(|s: String| s@))
                == Option::Some(*d),
            Option::None => spec_navigate(*doc, segs@.map_values(|s: String| s@)) is None,
        },
{
    let ghost all = segs@.map_values(|s: String| s@);
    let mut cur: &JsonDoc = doc;
    let n = segs.len();
    let mut i: usize = 0;
    proof {
        assert(all.skip(0) =~= all);
    }
    while i < n
        invariant
            i <= n,
            n == segs@.len(),
            all == segs@.map_values(|s: String| s@),
            spec_navigate(*doc, all) == spec_navigate(*cur, all.skip(i as int)),
        decreases n - i,
    {
        proof {
            assert(all.skip(i as int)[0] == all[i as int]);
            assert(all.skip(i as int).drop_first() =~= all.skip(i + 1));
        }
        match get_field(cur, &segs[i]) {
            Option::Some(child) => {
                cur = child;
            },
            Option::None => {
                return Option::None;
            },
        }
        i = i + 1;
    }
    proof {
        assert(all.skip(n as int) =~= Seq::<Seq<char>>::empty());
    }
    Option::Some(cur)
}

/// Extracts the numeric leaf reached from `doc` by the already split path
/// `segs`: the bit pattern of its binary64 value, or nothing if a segment
/// fails to resolve or the terminal value is not a number.
pub fn extract_segments(doc: &JsonDoc, segs: &Vec<String>) -> (r: Option<u64>)
    ensures
        r == spec_extract(*doc, segs@.map_values(|s: String| s@)),
{
    match navigate_segments(doc, segs) {
        Option::Some(JsonDoc::Num(bits)) => Option::Some(*bits),
        _ => Option::None,
    }
}

/// Extracts the numeric leaf at the dot-separated `path` in `doc`.  Returns
/// the bit pattern of its binary64 value if every path segment resolves to
/// a present member and the terminal value is a number, and nothing
/// otherwise; it is total and never fails.
pub fn extract(doc: &JsonDoc, path: &str) -> (r: Option<u64>)
    ensures
        r == spec_extract_path(*doc, path@),
{
    let segs = split_path(path);
    extract_segments(doc, &segs)
}

/// `s` with every leading `'.'` removed.
pub open spec fn spec_trim_dots(s: Seq<char>) -> Seq<char>
    decreases s.len(),
{
    if s.len() > 0 && s[0] == '.' {
        spec_trim_dots(s.drop_first())
    } else {
        s
    }
}

/// Removes every leading `'.'` of `path`.
pub fn trim_leading_dots(path: &str) -> (r: String)
    ensures
        r@ == spec_trim_dots(path@),
{
    let n = path.unicode_len();
    let mut i: usize = 0;
    proof {
        assert(path@.skip(0) =~= path@);
    }
    while i < n && path.get_char(i) == '.'
        invariant
            i <= n,
            n == path@.len(),
            spec_trim_dots(path@) == spec_trim_dots(path@.skip(i as int)),
            i < n ==> path@.skip(i as int)[0] == path@[i as int],
        decreases n - i,
    {
        proof {
            assert(path@.skip(i as int).drop_first() =~= path@.skip(i + 1));
        }
        i = i + 1;
    }
    let rest = path.substring_char(i, n);
    proof {
        assert(path@.subrange(i as int, n as int) =~= path@.skip(i as int));
    }
    String::from_str(rest)
}

/// The subtree of `doc` under a dot-separated key path, leading dots
/// ignored: present exactly when every segment resolves.
pub open spec fn spec_subtree(doc: JsonDoc, path: Seq<char>) -> Option<JsonDoc> {
    spec_navigate(doc, spec_split(spec_trim_dots(path)))
}

/// Follows a dot-separated key path, its leading dots ignored, down the
/// document: the subtree it names, or nothing if a segment is absent.
pub fn subtree<'a>(doc: &'a JsonDoc, path: &str) -> (r: Option<&'a JsonDoc>)
    ensures
        match r {
            Option::Some(d) => spec_subtree(*doc, path@) == Option::Some(*d),
            Option::None => spec_subtree(*doc, path@) is None,
        },
{
    let trimmed = trim_leading_dots(path);
    let segs = split_path(trimmed.as_str());
    navigate_segments(doc, &segs)
}

/// The string member of `doc` under `key`, when there is one.
pub fn text_field<'a>(doc: &'a JsonDoc, key: &String) -> (r: Option<&'a String>)
    ensures
        match r {
            Option::Some(s) => spec_doc_get(*doc, key@) == Option::Some(JsonDoc::Text(*s)),
            Option::None => !(spec_doc_get(*doc, key@) matches Option::Some(JsonDoc::Text(_))),
        },
{
    match get_field(doc, key) {
        Option::Some(JsonDoc::Text(s)) => Option::Some(s),
        _ => Option::None,
    }
}

/// The numeric member of `doc` under `key`, as the bit pattern of its
/// binary64 value, when there is one.
pub fn num_field(doc: &JsonDoc, key: &String) -> (r: Option<u64>)
    ensures
        match r {
            Option::Some(bits) => spec_doc_get(*doc, key@) == Option::Some(JsonDoc::Num(bits)),
            Option::None => !(spec_doc_get(*doc, key@) matches Option::Some(JsonDoc::Num(_))),
        },
{
    match get_field(doc, key) {
        Option::Some(JsonDoc::Num(bits)) => Option::Some(*bits),
        _ => Option::None,
    }
}

/// The boolean member of `doc` under `key`, when there is one.
pub open spec fn spec_flag(doc: JsonDoc, key: Seq<char>) -> bool {
    match spec_doc_get(doc, key) {
        Option::Some(JsonDoc::Bool(b)) => b,
        _ => false,
    }
}

/// Reads the boolean member of `doc` under `key`, taking anything absent
/// or of another type as false.
pub fn flag_field(doc: &JsonDoc, key: &String) -> (r: bool)
    ensures
        r == spec_flag(*doc, key@),
{
    match get_field(doc, key) {
        Option::Some(JsonDoc::Bool(b)) => *b,
        _ => false,
    }
}

/// The array member of `doc` under `key`, when there is one.
pub fn array_field<'a>(doc: &'a JsonDoc, key: &String) -> (r: Option<&'a Vec<JsonDoc>>)
    ensures
        match r {
            Option::Some(v) => spec_doc_get(*doc, key@) == Option::Some(JsonDoc::Arr(*v)),
            Option::None => !(spec_doc_get(*doc, key@) matches Option::Some(JsonDoc::Arr(_))),
        },
{
    match get_field(doc, key) {
        Option::Some(JsonDoc::Arr(v)) => Option::Some(v),
        _ => Option::None,
    }
}

} // verus!
