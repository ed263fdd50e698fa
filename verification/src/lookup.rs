//! Reading what an event's fields hold at a path.

use crate::model::{addresses_mapping, find};
use crate::path::{lex_path, parse, path_model, PathComponent};
use crate::value::{lemma_array_value, Fields, Tree, Value};
use vstd::prelude::*;
use vstd::slice::slice_subrange;
use vstd::string::StringSliceAdditionalSpecFns;

verus! {

/// The tree that a value stands for, where there is a value.
pub open spec fn found_model(o: Option<&Value>) -> Option<Tree> {
    match o {
        Some(v) => Some(v@),
        None => None,
    }
}

/// What the fields hold at the path that a text holds: nothing where the
/// text is no path, or a path that does not start with a key.
pub open spec fn looked_up(m: Map<Seq<u8>, Tree>, text: Seq<u8>) -> Option<Tree> {
    match lex_path(text) {
        Ok(path) => if addresses_mapping(path) {
            find(Tree::Mapping(m), path)
        } else {
            None
        },
        Err(_) => None,
    }
}

/// What a value holds at `path`, if the path leads anywhere in it.
pub fn find_in<'a>(value: &'a Value, path: &[PathComponent]) -> (r: Option<&'a Value>)
    ensures
        found_model(r) == find(value@, path_model(path@)),
    decreases path@.len(),
{
    if path.len() == 0 {
        return Some(value);
    }
    let rest = slice_subrange(path, 1, path.len());
    assert(path_model(rest@) =~= path_model(path@).skip(1));
    match &path[0] {
        PathComponent::Key(key) => match value {
            Value::Mapping(fields) => match fields.get(key.as_slice()) {
                Some(child) => find_in(child, rest),
                None => None,
            },
            _ => None,
        },
        PathComponent::Index(index) => match value {
            Value::Array(items) => {
                proof {
                    lemma_array_value(*items);
                }
                if *index < items.len() {
                    find_in(&items[*index], rest)
                } else {
                    None
                }
            },
            _ => None,
        },
    }
}

/// What the fields hold at the path that `path` holds, written as
/// `a.b[1].c`.
pub fn lookup<'a>(fields: &'a Fields, path: &str) -> (r: Option<&'a Value>)
    ensures
        found_model(r) == looked_up(fields@, path.spec_bytes()),
{
    match parse(path) {
        Err(_) => None,
        Ok(components) => {
            if components.len() == 0 {
                return None;
            }
            let whole = components.as_slice();
            let rest = slice_subrange(whole, 1, whole.len());
            assert(path_model(rest@) =~= path_model(whole@).skip(1));
            match &whole[0] {
                PathComponent::Index(_) => None,
                PathComponent::Key(key) => match fields.get(key.as_slice()) {
                    Some(child) => find_in(child, rest),
                    None => None,
                },
            }
        },
    }
}

} // verus!
