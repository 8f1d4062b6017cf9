//! Nested configuration trees.
//!
//! The configuration set subcommand folds dot-separated key paths into a
//! nested, string-keyed tree before sending it to the device.  The leaf
//! values themselves are opaque to this logic: inserting walks the path
//! segment by segment, descends into present branches, grows absent ones,
//! and sets the leaf under the last segment.  An intermediate segment that
//! names a leaf cannot be descended into; callers keep such paths out.

use vstd::prelude::*;

use crate::json::{lemma_spec_split_nonempty, spec_split, spec_trim_dots, split_path,
    trim_leading_dots};
use vstd::pervasive::VecAdditionalExecFns;

verus! {

/// A nested, string-keyed tree with opaque leaf values.
pub enum Nested<V> {
    Leaf(V),
    Branch(Vec<(String, Nested<V>)>),
}

/// The ghost shape of a nested tree: keys as character sequences.
pub enum NestedView<V> {
    Leaf(V),
    Branch(Seq<(Seq<char>, NestedView<V>)>),
}

/// The ghost shape of a tree.
pub open spec fn nested_view<V>(n: Nested<V>) -> NestedView<V>
    decreases n,
    via nested_view_decreases::<V>
{
    match n {
        Nested::Leaf(v) => NestedView::Leaf(v),
        Nested::Branch(es) => NestedView::Branch(entry_views(es@)),
    }
}

/// The ghost shape of a branch's entry list.
pub open spec fn entry_views<V>(es: Seq<(String, Nested<V>)>) -> Seq<(Seq<char>, NestedView<V>)>
    decreases es,
{
    if es.len() == 0 {
        Seq::<(Seq<char>, NestedView<V>)>::empty()
    } else {
        seq![(es[0].0@, nested_view(es[0].1))] + entry_views(es.drop_first())
    }
}

#[via_fn]
proof fn nested_view_decreases<V>(n: Nested<V>) {
    broadcast use vstd::std_specs::vec::axiom_vec_decreases_to_view;

    match n {
        Nested::Branch(es) => {
            assert(decreases_to!(n => es));
            assert(decreases_to!(es => es@));
        },
        _ => {},
    }
}

proof fn lemma_entry_views_index<V>(es: Seq<(String, Nested<V>)>)
    ensures
        entry_views(es).len() == es.len(),
        forall|i: int|
            0 <= i < es.len() ==> #[trigger] entry_views(es)[i] == (
                es[i].0@,
                nested_view(es[i].1),
            ),
    decreases es.len(),
{
    if es.len() != 0 {
        lemma_entry_views_index(es.drop_first());
        assert forall|i: int|
            0 <= i < es.len() implies #[trigger] entry_views(es)[i] == (
            es[i].0@,
            nested_view(es[i].1),
        ) by {
            if i > 0 {
                assert(entry_views(es)[i] == entry_views(es.drop_first())[i - 1]);
                assert(es.drop_first()[i - 1] == es[i]);
            }
        }
    }
}

/// The entry of `es` named `key`: the first one, if any.
pub open spec fn spec_branch_get<V>(
    es: Seq<(Seq<char>, NestedView<V>)>,
    key: Seq<char>,
) -> Option<NestedView<V>>
    decreases es.len(),
{
    if es.len() == 0 {
        Option::None
    } else if es[0].0 == key {
        Option::Some(es[0].1)
    } else {
        spec_branch_get(es.drop_first(), key)
    }
}

/// `es` with `key` bound to `v`: the first entry of that name replaced in
/// place, or a new entry appended when none exists.
pub open spec fn spec_branch_set<V>(
    es: Seq<(Seq<char>, NestedView<V>)>,
    key: Seq<char>,
    v: NestedView<V>,
) -> Seq<(Seq<char>, NestedView<V>)>
    decreases es.len(),
{
    if es.len() == 0 {
        seq![(key, v)]
    } else if es[0].0 == key {
        seq![(key, v)] + es.drop_first()
    } else {
        seq![es[0]] + spec_branch_set(es.drop_first(), key, v)
    }
}

proof fn lemma_branch_get_found<V>(es: Seq<(Seq<char>, NestedView<V>)>, i: int)
    requires
        0 <= i < es.len(),
        forall|j: int| 0 <= j < i ==> (#[trigger] es[j]).0 != es[i].0,
    ensures
        spec_branch_get(es, es[i].0) == Option::Some(es[i].1),
    decreases i,
{
    if i > 0 {
        assert forall|j: int| 0 <= j < i - 1 implies (#[trigger] es.drop_first()[j]).0
            != es.drop_first()[i - 1].0 by {
            assert(es.drop_first()[j] == es[j + 1]);
        }
        lemma_branch_get_found(es.drop_first(), i - 1);
        assert(es.drop_first()[i - 1] == es[i]);
        assert(es[0].0 != es[i].0);
    }
}

proof fn lemma_branch_get_absent<V>(es: Seq<(Seq<char>, NestedView<V>)>, key: Seq<char>)
    requires
        forall|j: int| 0 <= j < es.len() ==> (#[trigger] es[j]).0 != key,
    ensures
        spec_branch_get(es, key) is None,
    decreases es.len(),
{
    if es.len() != 0 {
        assert forall|j: int| 0 <= j < es.drop_first().len() implies (#[trigger] es.drop_first()[j]).0
            != key by {
            assert(es.drop_first()[j] == es[j + 1]);
        }
        lemma_branch_get_absent(es.drop_first(), key);
    }
}

proof fn lemma_branch_set_found<V>(
    es: Seq<(Seq<char>, NestedView<V>)>,
    i: int,
    v: NestedView<V>,
)
    requires
        0 <= i < es.len(),
        forall|j: int| 0 <= j < i ==> (#[trigger] es[j]).0 != es[i].0,
    ensures
        spec_branch_set(es, es[i].0, v) =~= es.update(i, (es[i].0, v)),
    decreases i,
{
    if i == 0 {
        assert(seq![(es[0].0, v)] + es.drop_first() =~= es.update(0, (es[0].0, v)));
    } else {
        assert forall|j: int| 0 <= j < i - 1 implies (#[trigger] es.drop_first()[j]).0
            != es.drop_first()[i - 1].0 by {
            assert(es.drop_first()[j] == es[j + 1]);
        }
        lemma_branch_set_found(es.drop_first(), i - 1, v);
        assert(es.drop_first()[i - 1] == es[i]);
        assert(es[0].0 != es[i].0);
        assert(seq![es[0]] + spec_branch_set(es.drop_first(), es[i].0, v) =~= es.update(
            i,
            (es[i].0, v),
        ));
    }
}

proof fn lemma_branch_set_absent<V>(
    es: Seq<(Seq<char>, NestedView<V>)>,
    key: Seq<char>,
    v: NestedView<V>,
)
    requires
        forall|j: int| 0 <= j < es.len() ==> (#[trigger] es[j]).0 != key,
    ensures
        spec_branch_set(es, key, v) =~= es.push((key, v)),
    decreases es.len(),
{
    if es.len() != 0 {
        assert forall|j: int| 0 <= j < es.drop_first().len() implies (#[trigger] es.drop_first()[j]).0
            != key by {
            assert(es.drop_first()[j] == es[j + 1]);
        }
        lemma_branch_set_absent(es.drop_first(), key, v);
        assert(seq![es[0]] + spec_branch_set(es.drop_first(), key, v) =~= es.push((key, v)));
    }
}

/// Whether the path `segs` can be folded into `es`: every intermediate
/// segment resolves to a branch or to nothing.  An intermediate segment
/// that names a leaf cannot be descended into.
pub open spec fn spec_insertable<V>(
    es: Seq<(Seq<char>, NestedView<V>)>,
    segs: Seq<Seq<char>>,
) -> bool
    decreases segs.len(),
{
    if segs.len() <= 1 {
        true
    } else {
        match spec_branch_get(es, segs[0]) {
            Option::None => true,
            Option::Some(NestedView::Branch(children)) => spec_insertable(
                children,
                segs.drop_first(),
            ),
            Option::Some(NestedView::Leaf(_)) => false,
        }
    }
}

/// `es` after folding the path `segs` in with `value` at its end: the
/// branch under the first segment — grown fresh when absent — holds the
/// rest of the path, and the last segment binds the leaf.
pub open spec fn spec_insert_nested<V>(
    es: Seq<(Seq<char>, NestedView<V>)>,
    segs: Seq<Seq<char>>,
    value: V,
) -> Seq<(Seq<char>, NestedView<V>)>
    decreases segs.len(),
{
    if segs.len() == 0 {
        es
    } else if segs.len() == 1 {
        spec_branch_set(es, segs[0], NestedView::Leaf(value))
    } else {
        let children = match spec_branch_get(es, segs[0]) {
            Option::Some(NestedView::Branch(children)) => children,
            _ => Seq::<(Seq<char>, NestedView<V>)>::empty(),
        };
        spec_branch_set(
            es,
            segs[0],
            NestedView::Branch(spec_insert_nested(children, segs.drop_first(), value)),
        )
    }
}

/// The position of the first entry named `key`, if any.
fn find_key<V>(entries: &Vec<(String, Nested<V>)>, key: &String) -> (r: Option<usize>)
    ensures
        match r {
            Option::Some(i) => i < entries@.len() && entries@[i as int].0@ == key@ && forall|j: int|
                0 <= j < i ==> (#[trigger] entries@[j]).0@ != key@,
            Option::None => forall|j: int|
                0 <= j < entries@.len() ==> (#[trigger] entries@[j]).0@ != key@,
        },
{
    let n = entries.len();
    let mut i: usize = 0;
    while i < n
        invariant
            i <= n,
            n == entries@.len(),
            forall|j: int| 0 <= j < i ==> (#[trigger] entries@[j]).0@ != key@,
        decreases n - i,
    {
        if entries[i].0 == *key {
            return Option::Some(i);
        }
        i = i + 1;
    }
    Option::None
}

fn insert_segments<V>(entries: &mut Vec<(String, Nested<V>)>, segs: &Vec<String>, from: usize, value: V)
    requires
        from < segs@.len(),
        spec_insertable(
            entry_views(old(entries)@),
            segs@.map_values(|s: String| s@).skip(from as int),
        ),
    ensures
        entry_views(final(entries)@) == spec_insert_nested(
            entry_views(old(entries)@),
            segs@.map_values(|s: String| s@).skip(from as int),
            value,
        ),
    decreases segs@.len() - from,
{
    let ghost evs = entry_views(entries@);
    let ghost rest = segs@.map_values(|s: String| s@).skip(from as int);
    let ghost key = segs@.map_values(|s: String| s@)[from as int];
    proof {
        assert(rest[0] == key);
        assert(rest.drop_first() =~= segs@.map_values(|s: String| s@).skip(from + 1));
        lemma_entry_views_index(entries@);
    }
    let found = find_key(entries, &segs[from]);
    proof {
        match found {
            Option::Some(i) => {
                assert forall|j: int| 0 <= j < i implies (#[trigger] evs[j]).0 != key by {
                    assert(evs[j] == (entries@[j].0@, nested_view(entries@[j].1)));
                }
                assert(evs[i as int].0 == key);
                lemma_branch_get_found(evs, i as int);
            },
            Option::None => {
                assert forall|j: int| 0 <= j < evs.len() implies (#[trigger] evs[j]).0 != key by {
                    assert(evs[j] == (entries@[j].0@, nested_view(entries@[j].1)));
                }
                lemma_branch_get_absent(evs, key);
            },
        }
    }
    if from == segs.len() - 1 {
        match found {
            Option::Some(i) => {
                entries.set(i, (segs[from].clone(), Nested::Leaf(value)));
                proof {
                    lemma_branch_set_found(evs, i as int, NestedView::Leaf(value));
                    lemma_entry_views_index(entries@);
                    assert(entry_views(entries@) =~= evs.update(
                        i as int,
                        (key, NestedView::Leaf(value)),
                    ));
                }
            },
            Option::None => {
                entries.push((segs[from].clone(), Nested::Leaf(value)));
                proof {
                    lemma_branch_set_absent(evs, key, NestedView::Leaf(value));
                    lemma_entry_views_index(entries@);
                    assert(entry_views(entries@) =~= evs.push((key, NestedView::Leaf(value))));
                }
            },
        }
    } else {
        match found {
            Option::Some(i) => {
                let mut slot: (String, Nested<V>) = (String::new(), Nested::Branch(Vec::new()));
                entries.set_and_swap(i, &mut slot);
                let (name, child) = slot;
                match child {
                    Nested::Branch(mut children) => {
                        let ghost child_views = entry_views(children@);
                        insert_segments(&mut children, segs, from + 1, value);
                        let mut back = (name, Nested::Branch(children));
                        entries.set_and_swap(i, &mut back);
                        proof {
                            lemma_branch_set_found(
                                evs,
                                i as int,
                                NestedView::Branch(
                                    spec_insert_nested(child_views, rest.drop_first(), value),
                                ),
                            );
                            lemma_entry_views_index(entries@);
                            assert(entries@ =~= old(entries)@.update(
                                i as int,
                                (old(entries)@[i as int].0, entries@[i as int].1),
                            ));
                            assert(entry_views(entries@) =~= spec_branch_set(
                                evs,
                                key,
                                NestedView::Branch(
                                    spec_insert_nested(child_views, rest.drop_first(), value),
                                ),
                            ));
                        }
                    },
                    Nested::Leaf(_) => {
                        // The precondition rules a leaf intermediate out.
                        proof {
                            assert(false);
                        }
                    },
                }
            },
            Option::None => {
                let mut children: Vec<(String, Nested<V>)> = Vec::new();
                insert_segments(&mut children, segs, from + 1, value);
                entries.push((segs[from].clone(), Nested::Branch(children)));
                proof {
                    lemma_branch_set_absent(
                        evs,
                        key,
                        NestedView::Branch(
                            spec_insert_nested(
                                Seq::<(Seq<char>, NestedView<V>)>::empty(),
                                rest.drop_first(),
                                value,
                            ),
                        ),
                    );
                    lemma_entry_views_index(entries@);
                    assert(entry_views(entries@) =~= spec_branch_set(
                        evs,
                        key,
                        NestedView::Branch(
                            spec_insert_nested(
                                Seq::<(Seq<char>, NestedView<V>)>::empty(),
                                rest.drop_first(),
                                value,
                            ),
                        ),
                    ));
                }
            },
        }
    }
}

/// Folds one dot-separated key path into a branch's entry list, binding
/// `value` under the path's last segment; leading dots of the key are
/// ignored.  Intermediate segments descend into present branches and grow
/// absent ones; the caller keeps out paths whose intermediate segment
/// names a leaf.
pub fn insert_nested<V>(entries: &mut Vec<(String, Nested<V>)>, key: &str, value: V)
    requires
        spec_insertable(
            entry_views(old(entries)@),
            spec_split(spec_trim_dots(key@)),
        ),
    ensures
        entry_views(final(entries)@) == spec_insert_nested(
            entry_views(old(entries)@),
            spec_split(spec_trim_dots(key@)),
            value,
        ),
{
    let trimmed = trim_leading_dots(key);
    let segs = split_path(trimmed.as_str());
    proof {
        lemma_spec_split_nonempty(trimmed@);
        assert(segs@.map_values(|s: String| s@).skip(0) =~= segs@.map_values(|s: String| s@));
    }
    insert_segments(entries, &segs, 0, value);
}

} // verus!
