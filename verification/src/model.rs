//! What it means to set a value at a path, stated on trees.

use crate::path::{lex_path, Segment};
use crate::value::Tree;
use vstd::prelude::*;

verus! {

/// What a mapping holds under `k`, if anything.
pub open spec fn map_entry(m: Map<Seq<u8>, Tree>, k: Seq<u8>) -> Option<Tree> {
    if m.contains_key(k) {
        Some(m[k])
    } else {
        None
    }
}

/// What an array holds at `i`, if it reaches that far.
pub open spec fn array_entry(a: Seq<Tree>, i: nat) -> Option<Tree> {
    if i < a.len() {
        Some(a[i as int])
    } else {
        None
    }
}

/// The mapping to descend into: the one that is there, or else an empty one.
pub open spec fn child_mapping(held: Option<Tree>) -> Map<Seq<u8>, Tree> {
    match held {
        Some(Tree::Mapping(m)) => m,
        _ => Map::empty(),
    }
}

/// The array to descend into: the one that is there, or else an empty one.
pub open spec fn child_array(held: Option<Tree>) -> Seq<Tree> {
    match held {
        Some(Tree::Array(a)) => a,
        _ => Seq::empty(),
    }
}

/// `n` nulls.
pub open spec fn nulls(n: nat) -> Seq<Tree> {
    Seq::new(n, |j: int| Tree::Null)
}

/// The array with `x` at `i`: in place of what was there, or behind as
/// many nulls as it takes to reach `i`.
pub open spec fn put(a: Seq<Tree>, i: nat, x: Tree) -> Seq<Tree> {
    if i < a.len() {
        a.update(i as int, x)
    } else {
        a + nulls((i - a.len()) as nat) + seq![x]
    }
}

/// What comes to stand at a place that holds `held`, when `v` is set at
/// `rest` below it: `v` itself where the path ends, else a mapping or an
/// array, as the next component asks.
pub open spec fn grown(held: Option<Tree>, rest: Seq<Segment>, v: Tree) -> Tree
    decreases rest.len(), 1int,
{
    if rest.len() == 0 {
        v
    } else {
        match rest[0] {
            Segment::Key(_) => Tree::Mapping(set_in_mapping(child_mapping(held), rest, v)),
            Segment::Index(_) => Tree::Array(set_in_array(child_array(held), rest, v)),
        }
    }
}

/// The mapping after `v` is set at `path`. A path that does not start with
/// a key leaves it as it is.
pub open spec fn set_in_mapping(m: Map<Seq<u8>, Tree>, path: Seq<Segment>, v: Tree) -> Map<
    Seq<u8>,
    Tree,
>
    decreases path.len(), 0int,
{
    if path.len() == 0 {
        m
    } else {
        match path[0] {
            Segment::Key(k) => m.insert(k, grown(map_entry(m, k), path.skip(1), v)),
            Segment::Index(_) => m,
        }
    }
}

/// The array after `v` is set at `path`. A path that does not start with
/// an index leaves it as it is.
pub open spec fn set_in_array(a: Seq<Tree>, path: Seq<Segment>, v: Tree) -> Seq<Tree>
    decreases path.len(), 0int,
{
    if path.len() == 0 {
        a
    } else {
        match path[0] {
            Segment::Index(i) => put(a, i, grown(array_entry(a, i), path.skip(1), v)),
            Segment::Key(_) => a,
        }
    }
}

/// Whether a path addresses a place in a mapping.
pub open spec fn addresses_mapping(path: Seq<Segment>) -> bool {
    path.len() > 0 && path[0] is Key
}

/// The mapping after `v` is set at the path that `text` holds. A text that
/// is no path leaves it as it is.
pub open spec fn inserted(m: Map<Seq<u8>, Tree>, text: Seq<u8>, v: Tree) -> Map<Seq<u8>, Tree> {
    match lex_path(text) {
        Ok(path) => set_in_mapping(m, path, v),
        Err(_) => m,
    }
}

/// What a tree holds at `path`, if the path leads anywhere in it.
pub open spec fn find(t: Tree, path: Seq<Segment>) -> Option<Tree>
    decreases path.len(),
{
    if path.len() == 0 {
        Some(t)
    } else {
        match (path[0], t) {
            (Segment::Key(k), Tree::Mapping(m)) => if m.contains_key(k) {
                find(m[k], path.skip(1))
            } else {
                None
            },
            (Segment::Index(i), Tree::Array(a)) => if i < a.len() {
                find(a[i as int], path.skip(1))
            } else {
                None
            },
            _ => None,
        }
    }
}

} // verus!
