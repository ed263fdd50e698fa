//! The value tree of an event, with its mathematical model.

use crate::order::{compare_keys, lemma_lex_less_transitive, lemma_strict, lex_less, KeyOrder};
use vstd::slice::slice_to_vec;
use vstd::prelude::*;

verus! {

/// What a value is: a scalar, a mapping from keys to trees, or a sequence
/// of trees.
pub ghost enum Tree {
    Null,
    Integer(i64),
    Float(u64),
    Boolean(bool),
    Bytes(Seq<u8>),
    Timestamp(i64),
    Mapping(Map<Seq<u8>, Tree>),
    Array(Seq<Tree>),
}

/// One field of an event, or the whole of it.
#[derive(Debug, PartialEq)]
pub enum Value {
    Null,
    Integer(i64),
    /// A binary64 number by its bit pattern.
    Float(u64),
    Boolean(bool),
    Bytes(Vec<u8>),
    /// Nanoseconds since the Unix epoch.
    Timestamp(i64),
    Mapping(Fields),
    Array(Vec<Value>),
}

/// A mapping from keys to values, kept in the order of its keys.
#[derive(Debug, PartialEq)]
pub struct Fields {
    entries: Vec<(Vec<u8>, Value)>,
}

/// The keys stand in strictly increasing order.
pub open spec fn sorted(s: Seq<(Vec<u8>, Value)>) -> bool {
    forall|i: int, j: int| 0 <= i < j < s.len() ==> lex_less(#[trigger] s[i].0@, #[trigger] s[j].0@)
}

/// Some entry has the key `k`.
pub open spec fn has_key(s: Seq<(Vec<u8>, Value)>, k: Seq<u8>) -> bool {
    exists|i: int| 0 <= i < s.len() && #[trigger] s[i].0@ == k
}

/// The place of an entry with the key `k`.
pub open spec fn index_of(s: Seq<(Vec<u8>, Value)>, k: Seq<u8>) -> int {
    choose|i: int| 0 <= i < s.len() && #[trigger] s[i].0@ == k
}

/// The tree that a value stands for.
pub open spec fn value_model(v: Value) -> Tree
    decreases v,
{
    match v {
        Value::Null => Tree::Null,
        Value::Integer(i) => Tree::Integer(i),
        Value::Float(bits) => Tree::Float(bits),
        Value::Boolean(b) => Tree::Boolean(b),
        Value::Bytes(b) => Tree::Bytes(b@),
        Value::Timestamp(t) => Tree::Timestamp(t),
        Value::Mapping(f) => Tree::Mapping(entries_model(f.entries())),
        Value::Array(a) => Tree::Array(
            Seq::new(a.len() as nat, |i: int| if 0 <= i < a.len() {
                value_model(a[i])
            } else {
                Tree::Null
            }),
        ),
    }
}

/// The mapping that a list of entries stands for.
pub open spec fn entries_model(s: Seq<(Vec<u8>, Value)>) -> Map<Seq<u8>, Tree>
    decreases s,
{
    Map::new(
        |k: Seq<u8>| has_key(s, k),
        |k: Seq<u8>|
            {
                let i = index_of(s, k);
                if 0 <= i < s.len() {
                    value_model(s[i].1)
                } else {
                    Tree::Null
                }
            },
    )
}

/// The sequence of trees that a list of values stands for.
pub open spec fn array_model(s: Seq<Value>) -> Seq<Tree> {
    s.map_values(|v: Value| value_model(v))
}

/// The tree that a value stands for, where there is a value.
pub open spec fn option_model(o: Option<Value>) -> Option<Tree> {
    match o {
        Some(v) => Some(value_model(v)),
        None => None,
    }
}

/// An array value stands for the trees of its items.
pub proof fn lemma_array_value(a: Vec<Value>)
    ensures
        value_model(Value::Array(a)) == Tree::Array(array_model(a@)),
{
    assert(value_model(Value::Array(a))->Array_0 =~= array_model(a@));
}

impl Fields {
    /// The entries in order.
    pub closed spec fn entries(self) -> Seq<(Vec<u8>, Value)> {
        self.entries@
    }

    /// The keys stand in strictly increasing order, so that no key occurs
    /// twice.
    #[verifier::type_invariant]
    spec fn ordered(self) -> bool {
        sorted(self.entries@)
    }
}

impl View for Value {
    type V = Tree;

    /// The tree that the value stands for.
    open spec fn view(&self) -> Tree {
        value_model(*self)
    }
}

impl View for Fields {
    type V = Map<Seq<u8>, Tree>;

    /// The mapping that the fields stand for.
    open spec fn view(&self) -> Map<Seq<u8>, Tree> {
        entries_model(self.entries())
    }
}

/// In a sorted list the entry at `i` is the one that its key leads to.
pub proof fn lemma_entry(s: Seq<(Vec<u8>, Value)>, i: int)
    requires
        sorted(s),
        0 <= i < s.len(),
    ensures
        has_key(s, s[i].0@),
        index_of(s, s[i].0@) == i,
        entries_model(s).contains_key(s[i].0@),
        entries_model(s)[s[i].0@] == value_model(s[i].1),
{
    let k = s[i].0@;
    let j = index_of(s, k);
    if j < i {
        lemma_strict(s[j].0@, s[i].0@);
    } else if i < j {
        lemma_strict(s[i].0@, s[j].0@);
    }
}

/// A key that falls between two neighbours of a sorted list is not in it.
pub proof fn lemma_absent(s: Seq<(Vec<u8>, Value)>, k: Seq<u8>, p: int)
    requires
        sorted(s),
        0 <= p <= s.len(),
        forall|i: int| 0 <= i < p ==> lex_less(#[trigger] s[i].0@, k),
        p == s.len() || lex_less(k, s[p].0@),
    ensures
        !has_key(s, k),
        !entries_model(s).contains_key(k),
{
    assert forall|i: int| 0 <= i < s.len() implies #[trigger] s[i].0@ != k by {
        if i < p {
            lemma_strict(s[i].0@, k);
        } else {
            if p < i {
                lemma_lex_less_transitive(k, s[p].0@, s[i].0@);
            }
            lemma_strict(k, s[i].0@);
        }
    }
}

/// Putting a new key at its place in a sorted list adds it to the mapping.
pub proof fn lemma_model_insert(s: Seq<(Vec<u8>, Value)>, p: int, e: (Vec<u8>, Value))
    requires
        sorted(s),
        0 <= p <= s.len(),
        forall|i: int| 0 <= i < p ==> lex_less(#[trigger] s[i].0@, e.0@),
        p == s.len() || lex_less(e.0@, s[p].0@),
    ensures
        sorted(s.insert(p, e)),
        entries_model(s.insert(p, e)) == entries_model(s).insert(e.0@, value_model(e.1)),
{
    let t = s.insert(p, e);
    assert forall|i: int, j: int| 0 <= i < j < t.len() implies lex_less(
        #[trigger] t[i].0@,
        #[trigger] t[j].0@,
    ) by {
        if j == p {
            assert(t[i] == s[i]);
        } else if i == p {
            assert(t[j] == s[j - 1]);
            if p < j - 1 {
                lemma_lex_less_transitive(e.0@, s[p].0@, s[j - 1].0@);
            }
        } else {
            let a = if i < p { i } else { i - 1 };
            let b = if j < p { j } else { j - 1 };
            assert(t[i] == s[a] && t[j] == s[b]);
        }
    }
    let m = entries_model(s).insert(e.0@, value_model(e.1));
    assert forall|k: Seq<u8>| entries_model(t).contains_key(k) implies #[trigger] m.contains_key(
        k,
    ) by {
        let i = index_of(t, k);
        if i != p {
            let a = if i < p { i } else { i - 1 };
            assert(s[a].0@ == k);
        }
    }
    assert forall|k: Seq<u8>| #[trigger] m.contains_key(k) implies entries_model(t).contains_key(
        k,
    ) && entries_model(t)[k] == m[k] by {
        if k == e.0@ {
            assert(t[p] == e);
            lemma_entry(t, p);
        } else {
            let a = index_of(s, k);
            let i = if a < p { a } else { a + 1 };
            assert(t[i] == s[a]);
            lemma_entry(s, a);
            lemma_entry(t, i);
        }
    }
    assert(entries_model(t) =~= m);
}

/// Giving the entry at `p` a new value under the same key sets that key in
/// the mapping.
pub proof fn lemma_model_update(s: Seq<(Vec<u8>, Value)>, p: int, e: (Vec<u8>, Value))
    requires
        sorted(s),
        0 <= p < s.len(),
        s[p].0@ == e.0@,
    ensures
        sorted(s.update(p, e)),
        entries_model(s.update(p, e)) == entries_model(s).insert(e.0@, value_model(e.1)),
{
    let t = s.update(p, e);
    assert forall|i: int, j: int| 0 <= i < j < t.len() implies lex_less(
        #[trigger] t[i].0@,
        #[trigger] t[j].0@,
    ) by {
        assert(t[i].0@ == s[i].0@ && t[j].0@ == s[j].0@);
    }
    let m = entries_model(s).insert(e.0@, value_model(e.1));
    assert forall|k: Seq<u8>| entries_model(t).contains_key(k) implies #[trigger] m.contains_key(
        k,
    ) by {
        let i = index_of(t, k);
        assert(s[i].0@ == k);
    }
    assert forall|k: Seq<u8>| #[trigger] m.contains_key(k) implies entries_model(t).contains_key(
        k,
    ) && entries_model(t)[k] == m[k] by {
        if k == e.0@ {
            lemma_entry(t, p);
        } else {
            let a = index_of(s, k);
            assert(t[a] == s[a]);
            lemma_entry(s, a);
            lemma_entry(t, a);
        }
    }
    assert(entries_model(t) =~= m);
}

/// A sorted list stands for a mapping with as many keys as it has entries.
pub proof fn lemma_model_len(s: Seq<(Vec<u8>, Value)>)
    requires
        sorted(s),
    ensures
        entries_model(s).dom().finite(),
        entries_model(s).len() == s.len(),
    decreases s.len(),
{
    if s.len() == 0 {
        assert(entries_model(s).dom() =~= Set::<Seq<u8>>::empty());
    } else {
        let t = s.drop_last();
        let e = s.last();
        assert forall|i: int, j: int| 0 <= i < j < t.len() implies lex_less(
            #[trigger] t[i].0@,
            #[trigger] t[j].0@,
        ) by {
            assert(t[i] == s[i] && t[j] == s[j]);
        }
        assert forall|i: int| 0 <= i < t.len() implies lex_less(#[trigger] t[i].0@, e.0@) by {
            assert(t[i] == s[i]);
        }
        lemma_model_len(t);
        assert(t.insert(t.len() as int, e) =~= s);
        lemma_model_insert(t, t.len() as int, e);
        lemma_absent(t, e.0@, t.len() as int);
        assert(entries_model(s).dom() =~= entries_model(t).dom().insert(e.0@));
    }
}

impl Fields {
    /// A mapping without entries.
    pub fn new() -> (r: Self)
        ensures
            r@ == Map::<Seq<u8>, Tree>::empty(),
    {
        let r = Fields { entries: Vec::new() };
        assert(r@ =~= Map::<Seq<u8>, Tree>::empty());
        r
    }

    /// The number of keys.
    pub fn len(&self) -> (r: usize)
        ensures
            r == self@.len(),
            r == self.entries().len(),
    {
        proof {
            use_type_invariant(self);
            lemma_model_len(self.entries@);
        }
        self.entries.len()
    }

    /// The key and the value of the entry at `i`, counted in the order of
    /// the keys.
    pub fn entry(&self, i: usize) -> (r: Option<(&Vec<u8>, &Value)>)
        ensures
            sorted(self.entries()),
            match r {
                Some((key, value)) => i < self.entries().len() && *key == self.entries()[i as int].0
                    && *value == self.entries()[i as int].1,
                None => i >= self.entries().len(),
            },
    {
        proof {
            use_type_invariant(self);
        }
        if i < self.entries.len() {
            Some((&self.entries[i].0, &self.entries[i].1))
        } else {
            None
        }
    }

    /// The entries in the order of their keys.
    pub fn into_entries(self) -> (r: Vec<(Vec<u8>, Value)>)
        ensures
            r@ == self.entries(),
            sorted(r@),
    {
        proof {
            use_type_invariant(&self);
        }
        self.entries
    }

    /// The place of `key` among the entries, or the place where it would
    /// stand, and whether it is there.
    fn position(&self, key: &[u8]) -> (r: (usize, bool))
        ensures
            r.0 <= self.entries().len(),
            forall|i: int| 0 <= i < r.0 ==> lex_less(#[trigger] self.entries()[i].0@, key@),
            r.1 ==> r.0 < self.entries().len() && self.entries()[r.0 as int].0@ == key@,
            !r.1 ==> r.0 == self.entries().len() || lex_less(key@, self.entries()[r.0 as int].0@),
    {
        proof {
            use_type_invariant(self);
        }
        let mut lo: usize = 0;
        let mut hi: usize = self.entries.len();
        while lo < hi
            invariant
                lo <= hi <= self.entries@.len(),
                sorted(self.entries@),
                forall|i: int| 0 <= i < lo ==> lex_less(#[trigger] self.entries@[i].0@, key@),
                forall|i: int|
                    hi <= i < self.entries@.len() ==> lex_less(key@, #[trigger] self.entries@[i].0@),
            decreases hi - lo,
        {
            let mid: usize = lo + (hi - lo) / 2;
            match compare_keys(self.entries[mid].0.as_slice(), key) {
                KeyOrder::Same => {
                    return (mid, true);
                },
                KeyOrder::Before => {
                    assert forall|i: int| 0 <= i < mid + 1 implies lex_less(
                        #[trigger] self.entries@[i].0@,
                        key@,
                    ) by {
                        if i < mid {
                            lemma_lex_less_transitive(
                                self.entries@[i].0@,
                                self.entries@[mid as int].0@,
                                key@,
                            );
                        }
                    }
                    lo = mid + 1;
                },
                KeyOrder::After => {
                    assert forall|i: int| mid <= i < self.entries@.len() implies lex_less(
                        key@,
                        #[trigger] self.entries@[i].0@,
                    ) by {
                        if mid < i {
                            lemma_lex_less_transitive(
                                key@,
                                self.entries@[mid as int].0@,
                                self.entries@[i].0@,
                            );
                        }
                    }
                    hi = mid;
                },
            }
        }
        (lo, false)
    }

    /// The value under `key`, if there is one.
    pub fn get(&self, key: &[u8]) -> (r: Option<&Value>)
        ensures
            match r {
                Some(v) => self@.contains_key(key@) && self@[key@] == v@,
                None => !self@.contains_key(key@),
            },
    {
        proof {
            use_type_invariant(self);
        }
        let (pos, found) = self.position(key);
        if found {
            proof {
                lemma_entry(self.entries@, pos as int);
            }
            Some(&self.entries[pos].1)
        } else {
            proof {
                lemma_absent(self.entries@, key@, pos as int);
            }
            None
        }
    }

    /// Sets `key` to `value` and hands back what the key held before.
    pub fn insert(&mut self, key: &[u8], value: Value) -> (r: Option<Value>)
        ensures
            final(self)@ == old(self)@.insert(key@, value@),
            match r {
                Some(v) => old(self)@.contains_key(key@) && old(self)@[key@] == v@,
                None => !old(self)@.contains_key(key@),
            },
    {
        proof {
            use_type_invariant(&*self);
        }
        let (pos, found) = self.position(key);
        let mut entries: Vec<(Vec<u8>, Value)> = Vec::new();
        std::mem::swap(&mut entries, &mut self.entries);
        let ghost before = entries@;
        if found {
            let mut slot: (Vec<u8>, Value) = (Vec::new(), Value::Null);
            entries.set_and_swap(pos, &mut slot);
            let (held_key, held) = slot;
            let entry = (held_key, value);
            proof {
                lemma_entry(before, pos as int);
                lemma_model_update(before, pos as int, entry);
                assert(entries@.update(pos as int, entry) =~= before.update(pos as int, entry));
            }
            entries.set(pos, entry);
            self.entries = entries;
            Some(held)
        } else {
            let entry = (slice_to_vec(key), value);
            proof {
                lemma_absent(before, key@, pos as int);
                lemma_model_insert(before, pos as int, entry);
            }
            entries.insert(pos, entry);
            self.entries = entries;
            None
        }
    }
}

/// Two sorted lists with the same keys and, under each key, values that
/// stand for the same tree, stand for the same mapping.
pub proof fn lemma_same_model(s: Seq<(Vec<u8>, Value)>, t: Seq<(Vec<u8>, Value)>)
    requires
        sorted(s),
        s.len() == t.len(),
        forall|i: int|
            0 <= i < s.len() ==> (#[trigger] t[i]).0@ == s[i].0@ && value_model(t[i].1)
                == value_model(s[i].1),
    ensures
        sorted(t),
        entries_model(t) == entries_model(s),
{
    assert forall|i: int, j: int| 0 <= i < j < t.len() implies lex_less(
        #[trigger] t[i].0@,
        #[trigger] t[j].0@,
    ) by {
        assert(lex_less(s[i].0@, s[j].0@));
    }
    assert forall|k: Seq<u8>| entries_model(t).contains_key(k) implies #[trigger] entries_model(
        s,
    ).contains_key(k) by {
        let i = index_of(t, k);
        assert(s[i].0@ == k);
    }
    assert forall|k: Seq<u8>| #[trigger]
        entries_model(s).contains_key(k) implies entries_model(t).contains_key(k) && entries_model(
        t,
    )[k] == entries_model(s)[k] by {
        let i = index_of(s, k);
        assert(t[i].0@ == k);
        lemma_entry(s, i);
        lemma_entry(t, i);
    }
    assert(entries_model(t) =~= entries_model(s));
}

/// A copy of each item, in order.
fn copy_items(items: &Vec<Value>) -> (r: Vec<Value>)
    ensures
        array_model(r@) == array_model(items@),
    decreases items,
{
    let mut out: Vec<Value> = Vec::new();
    let mut i: usize = 0;
    while i < items.len()
        invariant
            i <= items@.len(),
            out@.len() == i,
            forall|j: int| 0 <= j < i ==> value_model(#[trigger] out@[j]) == value_model(items@[j]),
        decreases items@.len() - i,
    {
        let item = copy_value(&items[i]);
        out.push(item);
        i += 1;
    }
    assert(array_model(out@) =~= array_model(items@));
    out
}

/// A copy of a value.
fn copy_value(value: &Value) -> (r: Value)
    ensures
        r@ == value@,
    decreases value,
{
    match value {
        Value::Null => Value::Null,
        Value::Integer(i) => Value::Integer(*i),
        Value::Float(bits) => Value::Float(*bits),
        Value::Boolean(b) => Value::Boolean(*b),
        Value::Bytes(b) => Value::Bytes(slice_to_vec(b.as_slice())),
        Value::Timestamp(t) => Value::Timestamp(*t),
        Value::Mapping(fields) => Value::Mapping(copy_fields(fields)),
        Value::Array(items) => {
            let copy = copy_items(items);
            proof {
                lemma_array_value(*items);
                lemma_array_value(copy);
            }
            Value::Array(copy)
        },
    }
}

/// A copy of a mapping.
fn copy_fields(fields: &Fields) -> (r: Fields)
    ensures
        r@ == fields@,
    decreases fields,
{
    proof {
        use_type_invariant(fields);
    }
    let mut out: Vec<(Vec<u8>, Value)> = Vec::new();
    let mut i: usize = 0;
    while i < fields.entries.len()
        invariant
            i <= fields.entries@.len(),
            out@.len() == i,
            forall|j: int|
                0 <= j < i ==> (#[trigger] out@[j]).0@ == fields.entries@[j].0@ && value_model(
                    out@[j].1,
                ) == value_model(fields.entries@[j].1),
        decreases fields.entries@.len() - i,
    {
        let key = slice_to_vec(fields.entries[i].0.as_slice());
        let value = copy_value(&fields.entries[i].1);
        out.push((key, value));
        i += 1;
    }
    proof {
        lemma_same_model(fields.entries@, out@);
    }
    Fields { entries: out }
}

impl Clone for Value {
    /// A copy that stands for the same tree.
    fn clone(&self) -> (r: Self)
        ensures
            r@ == self@,
    {
        copy_value(self)
    }
}

impl Clone for Fields {
    /// A copy that stands for the same mapping.
    fn clone(&self) -> (r: Self)
        ensures
            r@ == self@,
    {
        copy_fields(self)
    }
}

} // verus!
