use event_fields::insert::{array_insert, insert, map_insert, try_insert, Outcome, SkipReason};
use event_fields::lookup::lookup;
use event_fields::path::{PathComponent, PathError};
use event_fields::value::{Fields, Value};

fn single(key: &[u8], value: Value) -> Fields {
    let mut fields = Fields::new();
    fields.insert(key, value);
    fields
}

#[test]
fn test_insert_nested() {
    let mut fields = Fields::new();
    insert(&mut fields, "a.b.c".into(), Value::Integer(3));

    let expected = single(
        b"a",
        Value::Mapping(single(
            b"b",
            Value::Mapping(single(b"c", Value::Integer(3))),
        )),
    );
    assert_eq!(fields, expected);
}

#[test]
fn test_insert_array() {
    let mut fields = Fields::new();
    insert(&mut fields, "a.b[0].c[2]".into(), Value::Integer(10));

    let expected = single(
        b"a",
        Value::Mapping(single(
            b"b",
            Value::Array(vec![Value::Mapping(single(
                b"c",
                Value::Array(vec![Value::Null, Value::Null, Value::Integer(10)]),
            ))]),
        )),
    );
    assert_eq!(fields, expected);
}

#[test]
fn lookup_gives_what_was_inserted() {
    let mut fields = Fields::new();
    insert(&mut fields, "a.b.c", Value::Bytes(b"payload".to_vec()));
    assert_eq!(lookup(&fields, "a.b.c"), Some(&Value::Bytes(b"payload".to_vec())));
    assert_eq!(lookup(&fields, "a.b.d"), None);
    assert_eq!(lookup(&fields, "a.b.c.d"), None);
    assert_eq!(lookup(&fields, "a.b[0]"), None);
    assert_eq!(lookup(&fields, ""), None);
    assert_eq!(lookup(&fields, "[0]"), None);
    assert_eq!(lookup(&fields, "a..b"), None);
}

#[test]
fn lookup_through_arrays() {
    let mut fields = Fields::new();
    insert(&mut fields, "a[1].b[2]", Value::Boolean(true));
    assert_eq!(lookup(&fields, "a[1].b[2]"), Some(&Value::Boolean(true)));
    assert_eq!(lookup(&fields, "a[0]"), Some(&Value::Null));
    assert_eq!(lookup(&fields, "a[1].b[1]"), Some(&Value::Null));
    assert_eq!(lookup(&fields, "a[2]"), None);
}

#[test]
fn fresh_array_is_padded_with_nulls() {
    let mut fields = Fields::new();
    insert(&mut fields, "a.b[3]", Value::Integer(7));
    let expected = single(
        b"a",
        Value::Mapping(single(
            b"b",
            Value::Array(vec![Value::Null, Value::Null, Value::Null, Value::Integer(7)]),
        )),
    );
    assert_eq!(fields, expected);
}

#[test]
fn index_zero_of_a_fresh_array() {
    let mut fields = Fields::new();
    insert(&mut fields, "a[0]", Value::Integer(1));
    assert_eq!(fields, single(b"a", Value::Array(vec![Value::Integer(1)])));
}

#[test]
fn inserting_twice_is_inserting_once() {
    let paths = ["a", "a.b.c", "a[2]", "a.b[0].c[2]", "a[1][1].x", "", "[0]", "a..b"];
    for path in paths {
        let mut once = Fields::new();
        insert(&mut once, "a.z", Value::Integer(1));
        insert(&mut once, path, Value::Integer(10));
        let mut twice = Fields::new();
        insert(&mut twice, "a.z", Value::Integer(1));
        insert(&mut twice, path, Value::Integer(10));
        insert(&mut twice, path, Value::Integer(10));
        assert_eq!(once, twice, "path {:?}", path);
    }
}

#[test]
fn a_scalar_on_the_way_is_replaced_by_a_mapping() {
    let mut fields = Fields::new();
    insert(&mut fields, "a", Value::Integer(5));
    insert(&mut fields, "other", Value::Boolean(false));
    insert(&mut fields, "a.b", Value::Integer(6));
    let mut expected = Fields::new();
    expected.insert(b"a", Value::Mapping(single(b"b", Value::Integer(6))));
    expected.insert(b"other", Value::Boolean(false));
    assert_eq!(fields, expected);
}

#[test]
fn a_mapping_on_the_way_is_replaced_by_an_array() {
    let mut fields = Fields::new();
    insert(&mut fields, "a.b", Value::Integer(5));
    insert(&mut fields, "a[1]", Value::Integer(6));
    assert_eq!(
        fields,
        single(b"a", Value::Array(vec![Value::Null, Value::Integer(6)]))
    );
}

#[test]
fn an_array_on_the_way_is_replaced_by_a_mapping() {
    let mut fields = Fields::new();
    insert(&mut fields, "a[1]", Value::Integer(6));
    insert(&mut fields, "a.b", Value::Integer(5));
    assert_eq!(
        fields,
        single(b"a", Value::Mapping(single(b"b", Value::Integer(5))))
    );
}

#[test]
fn a_scalar_item_is_replaced_by_a_container() {
    let mut fields = Fields::new();
    insert(&mut fields, "a[0]", Value::Integer(1));
    insert(&mut fields, "a[1]", Value::Integer(2));
    insert(&mut fields, "a[0].k", Value::Integer(3));
    insert(&mut fields, "a[1][0]", Value::Integer(4));
    assert_eq!(
        fields,
        single(
            b"a",
            Value::Array(vec![
                Value::Mapping(single(b"k", Value::Integer(3))),
                Value::Array(vec![Value::Integer(4)]),
            ])
        )
    );
}

#[test]
fn a_key_is_overwritten_whatever_it_held() {
    let mut fields = Fields::new();
    insert(&mut fields, "a.b.c", Value::Integer(1));
    insert(&mut fields, "a", Value::Null);
    assert_eq!(fields, single(b"a", Value::Null));
}

#[test]
fn an_item_in_range_is_overwritten_in_place() {
    let mut fields = Fields::new();
    insert(&mut fields, "a[2]", Value::Integer(1));
    insert(&mut fields, "a[1]", Value::Integer(2));
    insert(&mut fields, "a[2]", Value::Integer(3));
    assert_eq!(
        fields,
        single(
            b"a",
            Value::Array(vec![Value::Null, Value::Integer(2), Value::Integer(3)])
        )
    );
}

#[test]
fn maps_and_arrays_on_the_way_are_kept() {
    let mut fields = Fields::new();
    insert(&mut fields, "a.b", Value::Integer(1));
    insert(&mut fields, "a.c", Value::Integer(2));
    insert(&mut fields, "l[0].x", Value::Integer(3));
    insert(&mut fields, "l[0].y", Value::Integer(4));
    insert(&mut fields, "l[1][1]", Value::Integer(5));
    insert(&mut fields, "l[1][0]", Value::Integer(6));
    let mut a = Fields::new();
    a.insert(b"b", Value::Integer(1));
    a.insert(b"c", Value::Integer(2));
    let mut l0 = Fields::new();
    l0.insert(b"x", Value::Integer(3));
    l0.insert(b"y", Value::Integer(4));
    let mut expected = Fields::new();
    expected.insert(b"a", Value::Mapping(a));
    expected.insert(
        b"l",
        Value::Array(vec![
            Value::Mapping(l0),
            Value::Array(vec![Value::Integer(6), Value::Integer(5)]),
        ]),
    );
    assert_eq!(fields, expected);
}

#[test]
fn what_is_no_path_changes_nothing() {
    let texts = [
        "", ".", "..", "a.", ".a", "a..b", "[", "]", "[]", "[a]", "[1", "a[1", "a[1]b", "a]",
        "a[-1]", "a[+1]", "a[1.5]", "a[ 1]", "a.[1]", "[0]", "[0].a", "a[1]]", "a[[1]]",
        "a[99999999999999999999999999999999999999999]", "a[18446744073709551616]",
        "\u{0}", "a\u{0}[", "é.[", "日本語[x]",
    ];
    for text in texts {
        let mut fields = Fields::new();
        insert(&mut fields, "kept", Value::Integer(1));
        insert(&mut fields, text, Value::Integer(2));
        let mut expected = Fields::new();
        expected.insert(b"kept", Value::Integer(1));
        if text == "\u{0}" {
            expected.insert(b"\0", Value::Integer(2));
        }
        assert_eq!(fields, expected, "text {:?}", text);
    }
}

#[test]
fn keys_may_hold_any_other_bytes() {
    let mut fields = Fields::new();
    insert(&mut fields, "日本語.a b-c_d", Value::Integer(2));
    assert_eq!(
        fields,
        single(
            "日本語".as_bytes(),
            Value::Mapping(single(b"a b-c_d", Value::Integer(2)))
        )
    );
}

#[test]
fn try_insert_says_what_it_did() {
    let mut fields = Fields::new();
    assert_eq!(try_insert(&mut fields, "a.b", Value::Null), Outcome::Inserted);
    assert_eq!(
        try_insert(&mut fields, "", Value::Null),
        Outcome::Skipped(SkipReason::EmptyPath)
    );
    assert_eq!(
        try_insert(&mut fields, "[1].a", Value::Null),
        Outcome::Skipped(SkipReason::LeadingIndex)
    );
    assert_eq!(
        try_insert(&mut fields, "a..b", Value::Null),
        Outcome::Skipped(SkipReason::Malformed(PathError::EmptyKey))
    );
    assert_eq!(
        try_insert(&mut fields, "a[x]", Value::Null),
        Outcome::Skipped(SkipReason::Malformed(PathError::BadIndex))
    );
    assert_eq!(
        fields,
        single(b"a", Value::Mapping(single(b"b", Value::Null)))
    );
}

#[test]
fn map_insert_takes_components() {
    let mut fields = Fields::new();
    let path = vec![
        PathComponent::Key(b"a".to_vec()),
        PathComponent::Index(1),
        PathComponent::Key(b"b".to_vec()),
    ];
    map_insert(&mut fields, &path, Value::Integer(9));
    assert_eq!(
        fields,
        single(
            b"a",
            Value::Array(vec![
                Value::Null,
                Value::Mapping(single(b"b", Value::Integer(9)))
            ])
        )
    );
    map_insert(&mut fields, &[], Value::Integer(1));
    map_insert(&mut fields, &[PathComponent::Index(0)], Value::Integer(1));
    assert_eq!(lookup(&fields, "a[1].b"), Some(&Value::Integer(9)));
    assert_eq!(fields.len(), 1);
}

#[test]
fn array_insert_takes_components() {
    let mut values = vec![Value::Integer(1)];
    array_insert(&mut values, &[PathComponent::Index(2)], Value::Integer(3));
    assert_eq!(values, vec![Value::Integer(1), Value::Null, Value::Integer(3)]);
    array_insert(&mut values, &[PathComponent::Index(0)], Value::Integer(4));
    assert_eq!(values, vec![Value::Integer(4), Value::Null, Value::Integer(3)]);
    array_insert(&mut values, &[PathComponent::Key(b"a".to_vec())], Value::Integer(5));
    array_insert(&mut values, &[], Value::Integer(5));
    assert_eq!(values, vec![Value::Integer(4), Value::Null, Value::Integer(3)]);
    array_insert(
        &mut values,
        &[PathComponent::Index(1), PathComponent::Index(1)],
        Value::Integer(6),
    );
    assert_eq!(
        values,
        vec![
            Value::Integer(4),
            Value::Array(vec![Value::Null, Value::Integer(6)]),
            Value::Integer(3)
        ]
    );
}

/// Texts of up to eight bytes over the bytes that matter to the lexer, in
/// an order that a fixed seed gives.
fn sample_texts(count: usize) -> Vec<String> {
    let alphabet = ['a', 'b', '.', '[', ']', '0', '1', ' ', 'é'];
    let mut state: u64 = 0x2545_f491_4f6c_dd1d;
    let mut texts = Vec::new();
    for _ in 0..count {
        let mut text = String::new();
        state = state.wrapping_mul(6364136223846793005).wrapping_add(1442695040888963407);
        let length = (state >> 33) % 9;
        for _ in 0..length {
            state = state.wrapping_mul(6364136223846793005).wrapping_add(1442695040888963407);
            text.push(alphabet[((state >> 33) % alphabet.len() as u64) as usize]);
        }
        texts.push(text);
    }
    texts
}

#[test]
fn any_text_is_inserted_or_skipped() {
    let mut inserted = 0;
    let mut skipped = 0;
    for text in sample_texts(20000) {
        let mut fields = Fields::new();
        insert(&mut fields, "a.b", Value::Integer(1));
        let before = fields.clone();
        match try_insert(&mut fields, &text, Value::Integer(2)) {
            Outcome::Inserted => {
                inserted += 1;
                assert_eq!(lookup(&fields, &text), Some(&Value::Integer(2)), "text {:?}", text);
                let once = fields.clone();
                insert(&mut fields, &text, Value::Integer(2));
                assert_eq!(fields, once, "text {:?}", text);
            }
            Outcome::Skipped(_) => {
                skipped += 1;
                assert_eq!(fields, before, "text {:?}", text);
                assert_eq!(lookup(&fields, &text), None, "text {:?}", text);
            }
        }
    }
    assert!(inserted > 100);
    assert!(skipped > 100);
}
