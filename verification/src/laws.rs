//! What holds of every insertion.

use crate::model::{
    addresses_mapping, array_entry, child_array, child_mapping, find, grown, inserted, map_entry,
    nulls, put, set_in_array, set_in_mapping,
};
use crate::lookup::looked_up;
use crate::path::{lex_path, PathError, Segment};
use crate::render::{law_render_lexes, plain_key, render, writable_path};
use crate::value::Tree;
use vstd::prelude::*;

verus! {

/// Whether a tree is the kind of container that a path component steps
/// into: a mapping for a key, an array for an index.
pub open spec fn takes(t: Tree, next: Segment) -> bool {
    match next {
        Segment::Key(_) => t is Mapping,
        Segment::Index(_) => t is Array,
    }
}

/// What is set at a path is found at that path.
pub proof fn lemma_find_grown(held: Option<Tree>, rest: Seq<Segment>, v: Tree)
    ensures
        find(grown(held, rest, v), rest) == Some(v),
    decreases rest.len(),
{
    if rest.len() > 0 {
        let below = rest.skip(1);
        match rest[0] {
            Segment::Key(k) => {
                let m = child_mapping(held);
                lemma_find_grown(map_entry(m, k), below, v);
            },
            Segment::Index(i) => {
                let a = child_array(held);
                lemma_find_grown(array_entry(a, i), below, v);
            },
        }
    }
}

/// Setting a value where it was just set changes nothing.
pub proof fn lemma_grown_twice(held: Option<Tree>, rest: Seq<Segment>, v: Tree)
    ensures
        grown(Some(grown(held, rest, v)), rest, v) == grown(held, rest, v),
    decreases rest.len(),
{
    if rest.len() > 0 {
        let below = rest.skip(1);
        match rest[0] {
            Segment::Key(k) => {
                let m = child_mapping(held);
                let once = set_in_mapping(m, rest, v);
                lemma_grown_twice(map_entry(m, k), below, v);
                assert(set_in_mapping(once, rest, v) =~= once);
            },
            Segment::Index(i) => {
                let a = child_array(held);
                let once = set_in_array(a, rest, v);
                lemma_grown_twice(array_entry(a, i), below, v);
                assert(set_in_array(once, rest, v) =~= once);
            },
        }
    }
}

/// After a value is set at a path that starts with a key, looking the path
/// up in the mapping gives that value, whatever the mapping held before.
pub proof fn law_lookup_after_insert(m: Map<Seq<u8>, Tree>, path: Seq<Segment>, v: Tree)
    requires
        addresses_mapping(path),
    ensures
        find(Tree::Mapping(set_in_mapping(m, path, v)), path) == Some(v),
{
    lemma_find_grown(Some(Tree::Mapping(m)), path, v);
}

/// Setting a value at an index of an empty array gives an array that ends
/// at that index, holds nulls before it, and holds there what the rest of
/// the path builds: the value itself where the path ends at the index.
pub proof fn law_fresh_array(i: nat, rest: Seq<Segment>, v: Tree)
    ensures
        ({
            let a = set_in_array(Seq::empty(), seq![Segment::Index(i)] + rest, v);
            &&& a.len() == i + 1
            &&& forall|j: int| 0 <= j < i ==> a[j] == Tree::Null
            &&& a[i as int] == grown(None, rest, v)
            &&& rest.len() == 0 ==> a[i as int] == v
        }),
{
    let path = seq![Segment::Index(i)] + rest;
    assert(path.skip(1) =~= rest);
}

/// Setting a value at a path of two keys and an index in an empty mapping
/// gives, under the two keys, an array of nulls that ends with the value.
pub proof fn law_fresh_array_under_keys(a: Seq<u8>, b: Seq<u8>, i: nat, v: Tree)
    ensures
        set_in_mapping(
            Map::empty(),
            seq![Segment::Key(a), Segment::Key(b), Segment::Index(i)],
            v,
        ) == Map::<Seq<u8>, Tree>::empty().insert(
            a,
            Tree::Mapping(Map::<Seq<u8>, Tree>::empty().insert(b, Tree::Array(nulls(i).push(v)))),
        ),
{
    let path = seq![Segment::Key(a), Segment::Key(b), Segment::Index(i)];
    let below = seq![Segment::Key(b), Segment::Index(i)];
    let last = seq![Segment::Index(i)];
    assert(path.skip(1) =~= below);
    assert(below.skip(1) =~= last);
    assert(last.skip(1) =~= Seq::<Segment>::empty());
    let empty = Map::<Seq<u8>, Tree>::empty();
    assert(set_in_array(Seq::empty(), last, v) =~= nulls(i).push(v));
    assert(grown(None, last, v) == Tree::Array(nulls(i).push(v)));
    assert(set_in_mapping(empty, below, v) == empty.insert(b, grown(None, last, v)));
    assert(grown(None, below, v) == Tree::Mapping(set_in_mapping(empty, below, v)));
}

/// Inserting a value at a text that reads as two keys and an index, such
/// as `a.b[2]`, into fields that hold nothing gives, under the two keys, an
/// array of nulls that ends with the value.
pub proof fn law_fresh_array_text(text: Seq<u8>, a: Seq<u8>, b: Seq<u8>, i: nat, v: Tree)
    requires
        lex_path(text) == Ok::<Seq<Segment>, PathError>(
            seq![Segment::Key(a), Segment::Key(b), Segment::Index(i)],
        ),
    ensures
        inserted(Map::empty(), text, v) == Map::<Seq<u8>, Tree>::empty().insert(
            a,
            Tree::Mapping(Map::<Seq<u8>, Tree>::empty().insert(b, Tree::Array(nulls(i).push(v)))),
        ),
{
    law_fresh_array_under_keys(a, b, i, v);
}

/// Setting the same value at the same path twice gives what setting it
/// once gives.
pub proof fn law_idempotent(m: Map<Seq<u8>, Tree>, path: Seq<Segment>, v: Tree)
    ensures
        set_in_mapping(set_in_mapping(m, path, v), path, v) == set_in_mapping(m, path, v),
{
    lemma_grown_twice(Some(Tree::Mapping(m)), path, v);
}

/// The same, of the array in which a path that starts with an index sets
/// a value.
pub proof fn law_idempotent_in_array(a: Seq<Tree>, path: Seq<Segment>, v: Tree)
    ensures
        set_in_array(set_in_array(a, path, v), path, v) == set_in_array(a, path, v),
{
    lemma_grown_twice(Some(Tree::Array(a)), path, v);
}

/// The same, of a path given as text: also where the text is no path, for
/// then neither insertion changes anything.
pub proof fn law_idempotent_text(m: Map<Seq<u8>, Tree>, text: Seq<u8>, v: Tree)
    ensures
        inserted(inserted(m, text, v), text, v) == inserted(m, text, v),
{
    if let Ok(path) = lex_path(text) {
        law_idempotent(m, path, v);
    }
}

/// Where a key holds something that the rest of the path cannot step into,
/// setting a value below that key puts there what the path would build
/// from nothing: what the key held is gone, and the other keys keep what
/// they held.
pub proof fn law_overwrite(
    m: Map<Seq<u8>, Tree>,
    k: Seq<u8>,
    rest: Seq<Segment>,
    v: Tree,
)
    requires
        m.contains_key(k),
        rest.len() > 0,
        !takes(m[k], rest[0]),
    ensures
        set_in_mapping(m, seq![Segment::Key(k)] + rest, v) == m.insert(k, grown(None, rest, v)),
        grown(None, rest, v) is Mapping || grown(None, rest, v) is Array,
{
    let path = seq![Segment::Key(k)] + rest;
    assert(path.skip(1) =~= rest);
}

/// The same, of an item of an array.
pub proof fn law_overwrite_in_array(a: Seq<Tree>, i: nat, rest: Seq<Segment>, v: Tree)
    requires
        i < a.len(),
        rest.len() > 0,
        !takes(a[i as int], rest[0]),
    ensures
        set_in_array(a, seq![Segment::Index(i)] + rest, v) == a.update(
            i as int,
            grown(None, rest, v),
        ),
{
    let path = seq![Segment::Index(i)] + rest;
    assert(path.skip(1) =~= rest);
}

/// After a value is inserted at a text that is a path starting with a key,
/// looking that text up gives the value, whatever the fields held before.
pub proof fn law_lookup_after_insert_text(m: Map<Seq<u8>, Tree>, text: Seq<u8>, v: Tree)
    requires
        lex_path(text) is Ok,
        addresses_mapping(lex_path(text)->Ok_0),
    ensures
        looked_up(inserted(m, text, v), text) == Some(v),
{
    law_lookup_after_insert(m, lex_path(text)->Ok_0, v);
}

/// After a value is inserted at the path expression of a path that starts
/// with a key, such as `a.b.c`, looking that expression up gives the
/// value, whatever the fields held before.
pub proof fn law_lookup_after_insert_rendered(m: Map<Seq<u8>, Tree>, path: Seq<Segment>, v: Tree)
    requires
        writable_path(path),
        addresses_mapping(path),
    ensures
        looked_up(inserted(m, render(path), v), render(path)) == Some(v),
{
    law_render_lexes(path);
    law_lookup_after_insert_text(m, render(path), v);
}

/// Inserting a value at the path expression of two keys and an index, such
/// as `a.b[2]`, into fields that hold nothing gives, under the two keys, an
/// array of nulls that ends with the value.
pub proof fn law_fresh_array_rendered(a: Seq<u8>, b: Seq<u8>, i: nat, v: Tree)
    requires
        plain_key(a),
        plain_key(b),
        i <= usize::MAX,
    ensures
        inserted(
            Map::empty(),
            render(seq![Segment::Key(a), Segment::Key(b), Segment::Index(i)]),
            v,
        ) == Map::<Seq<u8>, Tree>::empty().insert(
            a,
            Tree::Mapping(Map::<Seq<u8>, Tree>::empty().insert(b, Tree::Array(nulls(i).push(v)))),
        ),
{
    let path = seq![Segment::Key(a), Segment::Key(b), Segment::Index(i)];
    law_render_lexes(path);
    law_fresh_array_text(render(path), a, b, i, v);
}

} // verus!
