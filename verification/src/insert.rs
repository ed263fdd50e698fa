//! Setting a value at a path of an event's fields, with the maps and arrays
//! on the way made as they are needed.

use crate::model::{
    array_entry, child_array, child_mapping, grown, inserted, map_entry, nulls, put, set_in_array,
    set_in_mapping,
};
use crate::path::{lex_path, parse, path_model, PathComponent, PathError, Segment};
use crate::value::{array_model, lemma_array_value, option_model, Fields, Tree, Value};
use vstd::prelude::*;
use vstd::slice::slice_subrange;
use vstd::string::StringSliceAdditionalSpecFns;

verus! {

/// Why an insertion left the fields as they were.
#[derive(Clone, Copy, Debug, PartialEq, Eq)]
pub enum SkipReason {
    /// The text is no path.
    Malformed(PathError),
    /// The path has no component.
    EmptyPath,
    /// The path starts with an index, and the fields are a mapping.
    LeadingIndex,
}

/// What an insertion did.
#[derive(Clone, Copy, Debug, PartialEq, Eq)]
pub enum Outcome {
    Inserted,
    Skipped(SkipReason),
}

/// What an insertion does with a text, by what the text reads as.
pub open spec fn outcome_of(parsed: Result<Seq<Segment>, PathError>) -> Outcome {
    match parsed {
        Err(e) => Outcome::Skipped(SkipReason::Malformed(e)),
        Ok(path) => if path.len() == 0 {
            Outcome::Skipped(SkipReason::EmptyPath)
        } else if path[0] is Index {
            Outcome::Skipped(SkipReason::LeadingIndex)
        } else {
            Outcome::Inserted
        },
    }
}

/// An empty array, with room asked for `next + 1` items where that can be
/// had.
fn fresh_array(next: usize) -> (r: Vec<Value>)
    ensures
        r@ == Seq::<Value>::empty(),
{
    let mut array: Vec<Value> = Vec::new();
    let _ = array.try_reserve(next.saturating_add(1));
    array
}

/// Takes out what the array holds at `i`, and leaves a null in its place.
fn take_at(values: &mut Vec<Value>, i: usize) -> (r: Option<Value>)
    ensures
        option_model(r) == array_entry(array_model(old(values)@), i as nat),
        array_model(final(values)@) == if i < old(values)@.len() {
            array_model(old(values)@).update(i as int, Tree::Null)
        } else {
            array_model(old(values)@)
        },
{
    if i < values.len() {
        let ghost before = values@;
        let mut held = Value::Null;
        values.set_and_swap(i, &mut held);
        assert(array_model(values@) =~= array_model(before).update(i as int, Tree::Null));
        Some(held)
    } else {
        None
    }
}

/// Puts `x` at `i`, behind as many nulls as it takes to reach `i`.
fn put_at(values: &mut Vec<Value>, i: usize, x: Value)
    ensures
        array_model(final(values)@) == put(array_model(old(values)@), i as nat, x@),
{
    let ghost before = values@;
    if i < values.len() {
        values.set(i, x);
        assert(array_model(values@) =~= array_model(before).update(i as int, x@));
    } else {
        while values.len() < i
            invariant
                before.len() <= values@.len() <= i,
                array_model(values@) == array_model(before) + nulls(
                    (values@.len() - before.len()) as nat,
                ),
            decreases i - values@.len(),
        {
            let ghost padded = values@;
            values.push(Value::Null);
            assert(array_model(values@) =~= array_model(padded).push(Tree::Null));
            assert(nulls((values@.len() - before.len()) as nat) =~= nulls(
                (padded.len() - before.len()) as nat,
            ).push(Tree::Null));
            assert(array_model(values@) =~= array_model(before) + nulls(
                (values@.len() - before.len()) as nat,
            ));
        }
        let ghost padded = values@;
        values.push(x);
        assert(array_model(values@) =~= array_model(padded) + seq![x@]);
    }
}

/// Sets `value` at `path` in a mapping. A path that does not start with a
/// key leaves the mapping as it is.
pub fn map_insert(fields: &mut Fields, path: &[PathComponent], value: Value)
    ensures
        final(fields)@ == set_in_mapping(old(fields)@, path_model(path@), value@),
    decreases path@.len(),
{
    if path.len() == 0 {
        return;
    }
    let ghost before = fields@;
    let ghost whole = path_model(path@);
    match &path[0] {
        PathComponent::Index(_) => {},
        PathComponent::Key(current) => {
            if path.len() == 1 {
                fields.insert(current.as_slice(), value);
            } else {
                let rest = slice_subrange(path, 1, path.len());
                assert(path_model(rest@) =~= whole.skip(1));
                match &path[1] {
                    PathComponent::Key(_) => {
                        let mut map = match fields.insert(current.as_slice(), Value::Null) {
                            Some(Value::Mapping(map)) => map,
                            _ => Fields::new(),
                        };
                        assert(map@ == child_mapping(map_entry(before, current@)));
                        map_insert(&mut map, rest, value);
                        fields.insert(current.as_slice(), Value::Mapping(map));
                        assert(fields@ =~= before.insert(
                            current@,
                            grown(map_entry(before, current@), whole.skip(1), value@),
                        ));
                    },
                    PathComponent::Index(next) => {
                        let mut array = match fields.insert(current.as_slice(), Value::Null) {
                            Some(Value::Array(array)) => array,
                            _ => fresh_array(*next),
                        };
                        proof {
                            lemma_array_value(array);
                        }
                        assert(array_model(array@) =~= child_array(map_entry(before, current@)));
                        array_insert(&mut array, rest, value);
                        proof {
                            lemma_array_value(array);
                        }
                        fields.insert(current.as_slice(), Value::Array(array));
                        assert(fields@ =~= before.insert(
                            current@,
                            grown(map_entry(before, current@), whole.skip(1), value@),
                        ));
                    },
                }
            }
        },
    }
}

/// Sets `value` at `path` in an array. A path that does not start with an
/// index leaves the array as it is.
pub fn array_insert(values: &mut Vec<Value>, path: &[PathComponent], value: Value)
    ensures
        array_model(final(values)@) == set_in_array(
            array_model(old(values)@),
            path_model(path@),
            value@,
        ),
    decreases path@.len(),
{
    if path.len() == 0 {
        return;
    }
    let ghost before = array_model(values@);
    let ghost whole = path_model(path@);
    match &path[0] {
        PathComponent::Key(_) => {},
        PathComponent::Index(current) => {
            let current: usize = *current;
            if path.len() == 1 {
                put_at(values, current, value);
            } else {
                let rest = slice_subrange(path, 1, path.len());
                assert(path_model(rest@) =~= whole.skip(1));
                match &path[1] {
                    PathComponent::Key(_) => {
                        let mut map = match take_at(values, current) {
                            Some(Value::Mapping(map)) => map,
                            _ => Fields::new(),
                        };
                        assert(map@ == child_mapping(array_entry(before, current as nat)));
                        map_insert(&mut map, rest, value);
                        put_at(values, current, Value::Mapping(map));
                        assert(array_model(values@) =~= put(
                            before,
                            current as nat,
                            grown(array_entry(before, current as nat), whole.skip(1), value@),
                        ));
                    },
                    PathComponent::Index(next) => {
                        let mut array = match take_at(values, current) {
                            Some(Value::Array(array)) => array,
                            _ => fresh_array(*next),
                        };
                        proof {
                            lemma_array_value(array);
                        }
                        assert(array_model(array@) =~= child_array(
                            array_entry(before, current as nat),
                        ));
                        array_insert(&mut array, rest, value);
                        proof {
                            lemma_array_value(array);
                        }
                        put_at(values, current, Value::Array(array));
                        assert(array_model(values@) =~= put(
                            before,
                            current as nat,
                            grown(array_entry(before, current as nat), whole.skip(1), value@),
                        ));
                    },
                }
            }
        },
    }
}

/// Sets `value` at the path that `path` holds, and says whether it did. A
/// text that is no path, an empty path and a path that starts with an
/// index leave the fields as they are.
pub fn try_insert(fields: &mut Fields, path: &str, value: Value) -> (r: Outcome)
    ensures
        final(fields)@ == inserted(old(fields)@, path.spec_bytes(), value@),
        r == outcome_of(lex_path(path.spec_bytes())),
{
    match parse(path) {
        Err(e) => Outcome::Skipped(SkipReason::Malformed(e)),
        Ok(components) => {
            if components.len() == 0 {
                Outcome::Skipped(SkipReason::EmptyPath)
            } else {
                match &components[0] {
                    PathComponent::Index(_) => Outcome::Skipped(SkipReason::LeadingIndex),
                    PathComponent::Key(_) => {
                        map_insert(fields, components.as_slice(), value);
                        Outcome::Inserted
                    },
                }
            }
        },
    }
}

/// Sets `value` at the path that `path` holds, written as `a.b[1].c`.
pub fn insert(fields: &mut Fields, path: &str, value: Value)
    ensures
        final(fields)@ == inserted(old(fields)@, path.spec_bytes(), value@),
{
    let _ = try_insert(fields, path, value);
}

} // verus!
