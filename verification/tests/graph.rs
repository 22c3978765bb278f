use packr_guest::{decode, encode, Value, ValueType};
use supervisor::datum::decode_cause;
use supervisor::graph::{is_bounded, NEST_MAX, NODES_MAX, SIZE_MAX, TYPE_SIZE, VALUE_SIZE};

const TUPLE: u8 = 0x0b;
const LIST: u8 = 0x07;
const STRING: u8 = 0x06;
const ARRAY: u8 = 0x15;
const RECORD: u8 = 0x09;
const VARIANT: u8 = 0x08;

fn word(n: u32) -> Vec<u8> {
    n.to_le_bytes().to_vec()
}

/// Bytes with these nodes, each a kind and a payload.
fn graph(nodes: &[(u8, Vec<u8>)], root: u32) -> Vec<u8> {
    let mut out = b"CGRF\x03\x00\x00\x00".to_vec();
    out.extend(word(nodes.len() as u32));
    out.extend(word(root));
    for (kind, payload) in nodes {
        out.extend([*kind, 0, 0, 0]);
        out.extend(word(payload.len() as u32));
        out.extend(payload);
    }
    out
}

fn tuple(refs: &[u32]) -> (u8, Vec<u8>) {
    let mut out = word(refs.len() as u32);
    for r in refs {
        out.extend(word(*r));
    }
    (TUPLE, out)
}

fn sym(case: &str) -> Value {
    let mut v = Value::sym("");
    if let Value::Variant { case_name, .. } = &mut v {
        *case_name = case.to_string();
    }
    v
}

fn nested(depth: usize) -> Value {
    let mut v = Value::Tuple(vec![]);
    for _ in 1..depth {
        v = Value::Tuple(vec![v]);
    }
    v
}

#[test]
fn what_is_encoded_is_within_bounds() {
    let words = || ValueType::Option(Box::new(ValueType::Variant("v".to_string())));
    let values = [
        Value::Bool(true),
        Value::S64(-1),
        Value::Char('x'),
        Value::Flags(3),
        Value::String("text".to_string()),
        sym("Failed"),
        Value::Tuple(vec![Value::U8(1), Value::String(String::new())]),
        Value::List { elem_type: ValueType::U16, items: vec![Value::U16(1), Value::U16(2)] },
        Value::List { elem_type: ValueType::String, items: vec![Value::String("a".to_string())] },
        Value::List {
            elem_type: ValueType::Tuple(vec![words(), ValueType::Record("r".to_string())]),
            items: vec![],
        },
        Value::Option { inner_type: words(), value: None },
        Value::Option { inner_type: ValueType::U8, value: Some(Box::new(Value::U8(1))) },
        Value::Result {
            ok_type: ValueType::Set(Box::new(ValueType::U8)),
            err_type: ValueType::Map { key: Box::new(ValueType::U8), value: Box::new(words()) },
            value: Ok(Box::new(Value::Tuple(vec![]))),
        },
        Value::Map {
            key_type: ValueType::U8,
            value_type: ValueType::String,
            entries: vec![(Value::U8(1), Value::String("one".to_string()))],
        },
        Value::Set { elem_type: ValueType::U32, items: vec![Value::U32(1), Value::U32(2)] },
        nested(NEST_MAX),
    ];
    for v in values {
        let bytes = encode(&v).unwrap();
        assert!(is_bounded(&bytes), "{v:?}");
        assert_eq!(decode(&bytes).unwrap(), v);
        for cut in 0..bytes.len() {
            assert!(!is_bounded(&bytes[..cut]));
        }
    }
}

#[test]
fn nesting_has_a_limit() {
    assert!(!is_bounded(&encode(&nested(NEST_MAX + 1)).unwrap()));
    let list = |depth: usize| {
        let mut payload = vec![LIST; depth];
        payload.push(STRING);
        payload.extend(word(0));
        graph(&[(LIST, payload)], 0)
    };
    assert!(is_bounded(&list(NEST_MAX)));
    assert!(decode(&list(NEST_MAX)).is_ok());
    assert!(!is_bounded(&list(NEST_MAX + 1)));
    assert!(!is_bounded(&list(500_000)));
}

#[test]
fn counts_and_lengths_have_to_fit() {
    let huge = word(u32::MAX);
    assert!(!is_bounded(&graph(&[(TUPLE, huge.clone())], 0)));
    assert!(!is_bounded(&graph(&[(STRING, huge.clone())], 0)));
    let mut types = vec![TUPLE];
    types.extend(huge.clone());
    assert!(!is_bounded(&graph(&[(LIST, types.clone())], 0)));
    assert!(!is_bounded(&graph(&[(ARRAY, types)], 0)));
    let mut record = word(0);
    record.extend(huge.clone());
    assert!(!is_bounded(&graph(&[(RECORD, record)], 0)));
    let mut variant = [word(0), word(0), word(0)].concat();
    variant.extend(huge.clone());
    assert!(!is_bounded(&graph(&[(VARIANT, variant)], 0)));
    let mut array = vec![0x0c];
    array.extend(huge);
    assert!(!is_bounded(&graph(&[(ARRAY, array.clone())], 0)));
    // A node that nothing refers to is looked into all the same.
    assert!(!is_bounded(&graph(&[tuple(&[]), (ARRAY, array)], 0)));
    let mut many = graph(&[tuple(&[])], 0);
    many[8..12].copy_from_slice(&word(u32::MAX));
    assert!(!is_bounded(&many));
}

#[test]
fn references_unfold_within_a_limit() {
    // A node that is referred to twice counts twice.
    let shared = [(STRING, [word(1), b"s".to_vec()].concat()), tuple(&[0, 0])];
    assert!(is_bounded(&graph(&shared, 1)));
    assert!(decode(&graph(&shared, 1)).is_ok());
    let mut doubling = vec![tuple(&[])];
    for i in 0..40 {
        doubling.push(tuple(&[i, i]));
    }
    assert!(!is_bounded(&graph(&doubling, 40)));
    assert!(is_bounded(&graph(&doubling[..14], 13)));
    assert!(!is_bounded(&graph(&[tuple(&[0])], 0)));
    assert!(!is_bounded(&graph(&[tuple(&[7])], 0)));
    assert!(!is_bounded(&graph(&[tuple(&[])], 1)));
}

#[test]
fn size_has_a_limit() {
    assert_eq!(SIZE_MAX, 256 * 1024 * 1024);
    let mut much = encode(&Value::String(String::new())).unwrap();
    much.resize(SIZE_MAX + 1, 0);
    assert!(!is_bounded(&much));
    let mut behind = encode(&Value::String("xyz".to_string())).unwrap();
    behind.push(0);
    assert!(!is_bounded(&behind));
    let mut nodes = graph(&[tuple(&[])], 0);
    nodes[8..12].copy_from_slice(&word(NODES_MAX as u32 + 1));
    assert!(!is_bounded(&nodes));
}

#[test]
fn long_causes_are_read() {
    let mut v = sym("Completed");
    if let Value::Variant { payload, .. } = &mut v {
        *payload = vec![
            Value::String("x".repeat(3_000_000)),
            Value::List { elem_type: ValueType::U8, items: vec![Value::U8(1); 1_000_000] },
        ];
    }
    assert_eq!(decode_cause(&encode(&v).unwrap()), Some("Completed".to_string()));
}

#[test]
fn items_take_no_more_than_they_are_said_to() {
    // With addresses of twice the width nothing takes more than twice as much.
    assert!(std::mem::size_of::<Value>() <= 2 * VALUE_SIZE);
    assert!(std::mem::size_of::<ValueType>() <= 2 * TYPE_SIZE);
}

#[test]
fn causes_beyond_the_bounds_are_not_read() {
    let mut deep = vec![tuple(&[])];
    for i in 0..200_000 {
        deep.push(tuple(&[i]));
    }
    assert_eq!(decode_cause(&graph(&deep, 200_000)), None);
    assert_eq!(decode_cause(&encode(&Value::Tuple(vec![sym("Failed")])).unwrap()), Some("Failed".to_string()));
}
