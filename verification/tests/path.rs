use event_fields::order::{compare_keys, KeyOrder};
use event_fields::path::{parse, parse_path, PathComponent, PathError};
use event_fields::value::{Fields, Value};

fn key(text: &str) -> PathComponent {
    PathComponent::Key(text.as_bytes().to_vec())
}

#[test]
fn keys_and_indices_are_read_in_order() {
    assert_eq!(
        parse("a.b[0].c[2]"),
        Ok(vec![
            key("a"),
            key("b"),
            PathComponent::Index(0),
            key("c"),
            PathComponent::Index(2)
        ])
    );
}

#[test]
fn an_empty_text_is_an_empty_path() {
    assert_eq!(parse(""), Ok(vec![]));
    assert_eq!(parse_path(b""), Ok(vec![]));
}

#[test]
fn a_path_may_start_with_an_index() {
    assert_eq!(parse("[3].x"), Ok(vec![PathComponent::Index(3), key("x")]));
    assert_eq!(
        parse("[3][4]"),
        Ok(vec![PathComponent::Index(3), PathComponent::Index(4)])
    );
}

#[test]
fn an_index_is_read_as_a_decimal_number() {
    assert_eq!(parse("a[007]"), Ok(vec![key("a"), PathComponent::Index(7)]));
    assert_eq!(parse("a[1234567890]"), Ok(vec![key("a"), PathComponent::Index(1234567890)]));
    assert_eq!(parse("a[0]"), Ok(vec![key("a"), PathComponent::Index(0)]));
}

#[test]
fn the_largest_index_is_the_largest_word() {
    let text = format!("a[{}]", usize::MAX);
    assert_eq!(parse(&text), Ok(vec![key("a"), PathComponent::Index(usize::MAX)]));
    let beyond = format!("a[{}0]", usize::MAX);
    assert_eq!(parse(&beyond), Err(PathError::IndexTooLarge));
    assert_eq!(
        parse("a[340282366920938463463374607431768211456]"),
        Err(PathError::IndexTooLarge)
    );
}

#[test]
fn a_missing_key_is_an_error() {
    assert_eq!(parse("."), Err(PathError::EmptyKey));
    assert_eq!(parse(".a"), Err(PathError::EmptyKey));
    assert_eq!(parse("a."), Err(PathError::EmptyKey));
    assert_eq!(parse("a..b"), Err(PathError::EmptyKey));
    assert_eq!(parse("a.[0]"), Err(PathError::EmptyKey));
    assert_eq!(parse("]"), Err(PathError::EmptyKey));
}

#[test]
fn a_bracket_that_ends_a_key_is_an_error() {
    assert_eq!(parse("a]"), Err(PathError::UnexpectedBracket));
    assert_eq!(parse("a.b]c"), Err(PathError::UnexpectedBracket));
    assert_eq!(parse("a[1]]"), Err(PathError::UnexpectedBracket));
}

#[test]
fn an_index_needs_digits_and_a_closing_bracket() {
    assert_eq!(parse("["), Err(PathError::BadIndex));
    assert_eq!(parse("[]"), Err(PathError::BadIndex));
    assert_eq!(parse("a[x]"), Err(PathError::BadIndex));
    assert_eq!(parse("a[1"), Err(PathError::BadIndex));
    assert_eq!(parse("a[1x]"), Err(PathError::BadIndex));
    assert_eq!(parse("a[-1]"), Err(PathError::BadIndex));
    assert_eq!(parse("a[+1]"), Err(PathError::BadIndex));
    assert_eq!(parse("a[[1]]"), Err(PathError::BadIndex));
    assert_eq!(parse("a[99999999999999999999999999"), Err(PathError::BadIndex));
}

#[test]
fn an_index_is_followed_by_a_dot_or_a_bracket() {
    assert_eq!(parse("a[1]b"), Err(PathError::MissingSeparator));
    assert_eq!(parse("[1]b.c"), Err(PathError::MissingSeparator));
}

#[test]
fn the_first_error_is_the_one_reported() {
    assert_eq!(parse("a..b[x]"), Err(PathError::EmptyKey));
    assert_eq!(parse("a[x]..b"), Err(PathError::BadIndex));
}

#[test]
fn keys_are_compared_byte_by_byte() {
    assert_eq!(compare_keys(b"", b""), KeyOrder::Same);
    assert_eq!(compare_keys(b"abc", b"abc"), KeyOrder::Same);
    assert_eq!(compare_keys(b"", b"a"), KeyOrder::Before);
    assert_eq!(compare_keys(b"a", b""), KeyOrder::After);
    assert_eq!(compare_keys(b"ab", b"abc"), KeyOrder::Before);
    assert_eq!(compare_keys(b"abd", b"abc"), KeyOrder::After);
    assert_eq!(compare_keys(b"b", b"abc"), KeyOrder::After);
    assert_eq!(compare_keys(b"Z", b"a"), KeyOrder::Before);
    assert_eq!(compare_keys(&[0xff], &[0x00, 0xff]), KeyOrder::After);
}

#[test]
fn fields_do_not_depend_on_the_order_of_insertion() {
    let keys: [&[u8]; 6] = [b"m", b"a", b"z", b"ab", b"", b"b"];
    let mut forward = Fields::new();
    for (i, k) in keys.iter().enumerate() {
        assert_eq!(forward.insert(k, Value::Integer(i as i64)), None);
    }
    let mut backward = Fields::new();
    for (i, k) in keys.iter().enumerate().rev() {
        assert_eq!(backward.insert(k, Value::Integer(i as i64)), None);
    }
    assert_eq!(forward, backward);
    assert_eq!(forward.len(), 6);
    for (i, k) in keys.iter().enumerate() {
        assert_eq!(forward.get(k), Some(&Value::Integer(i as i64)));
    }
    assert_eq!(forward.get(b"c"), None);
}

#[test]
fn inserting_under_a_key_hands_back_what_it_held() {
    let mut fields = Fields::new();
    assert_eq!(fields.insert(b"a", Value::Integer(1)), None);
    assert_eq!(fields.insert(b"b", Value::Integer(2)), None);
    assert_eq!(fields.insert(b"a", Value::Integer(3)), Some(Value::Integer(1)));
    assert_eq!(fields.len(), 2);
    assert_eq!(fields.get(b"a"), Some(&Value::Integer(3)));
    assert_eq!(fields.get(b"b"), Some(&Value::Integer(2)));
}

#[test]
fn entries_come_in_the_order_of_their_keys() {
    let mut fields = Fields::new();
    fields.insert(b"b", Value::Integer(2));
    fields.insert(b"a", Value::Integer(1));
    fields.insert(b"ab", Value::Integer(3));
    assert_eq!(fields.entry(0), Some((&b"a".to_vec(), &Value::Integer(1))));
    assert_eq!(fields.entry(1), Some((&b"ab".to_vec(), &Value::Integer(3))));
    assert_eq!(fields.entry(2), Some((&b"b".to_vec(), &Value::Integer(2))));
    assert_eq!(fields.entry(3), None);
    assert_eq!(
        fields.into_entries(),
        vec![
            (b"a".to_vec(), Value::Integer(1)),
            (b"ab".to_vec(), Value::Integer(3)),
            (b"b".to_vec(), Value::Integer(2)),
        ]
    );
    assert_eq!(Fields::new().len(), 0);
    assert_eq!(Fields::new().entry(0), None);
}

#[test]
fn a_copy_is_equal_and_apart() {
    let mut inner = Fields::new();
    inner.insert(b"x", Value::Array(vec![Value::Null, Value::Bytes(b"y".to_vec())]));
    let mut fields = Fields::new();
    fields.insert(b"a", Value::Mapping(inner));
    fields.insert(b"f", Value::Float(0x3ff8_0000_0000_0000));
    fields.insert(b"t", Value::Timestamp(-1));
    fields.insert(b"b", Value::Boolean(true));
    let copy = fields.clone();
    assert_eq!(copy, fields);
    fields.insert(b"a", Value::Null);
    assert_ne!(copy, fields);
    assert_eq!(
        copy.get(b"a").cloned(),
        Some(Value::Mapping({
            let mut inner = Fields::new();
            inner.insert(b"x", Value::Array(vec![Value::Null, Value::Bytes(b"y".to_vec())]));
            inner
        }))
    );
}
