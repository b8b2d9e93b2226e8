use ribosome::tag::{encode, Tag};

#[test]
fn encode_compound_keeps_order() {
    let t = Tag::Compound(vec![
        ("a".to_string(), Tag::Int(1)),
        ("b".to_string(), Tag::String("x".to_string())),
    ]);
    assert_eq!(encode(&t), "{a: 1, b: \"x\"}");
}

#[test]
fn encode_list_of_shorts() {
    let t = Tag::List(vec![Tag::Short(1), Tag::Short(2)]);
    assert_eq!(encode(&t), "[1s, 2s]");
}

#[test]
fn encode_scalars() {
    assert_eq!(encode(&Tag::Byte(-3)), "-3b");
    assert_eq!(encode(&Tag::Byte(i8::MIN)), "-128b");
    assert_eq!(encode(&Tag::Short(300)), "300s");
    assert_eq!(encode(&Tag::Int(0)), "0");
    assert_eq!(encode(&Tag::Int(-42)), "-42");
    assert_eq!(encode(&Tag::Long(i64::MIN)), "-9223372036854775808L");
    assert_eq!(encode(&Tag::Long(i64::MAX)), "9223372036854775807L");
    assert_eq!(encode(&Tag::Float("1.5".to_string())), "1.5f");
    assert_eq!(encode(&Tag::Double("0.25".to_string())), "0.25d");
    assert_eq!(encode(&Tag::String("a\"b".to_string())), "\"a\"b\"");
}

#[test]
fn encode_arrays() {
    assert_eq!(encode(&Tag::ByteArray(vec![1, -2])), "[1b, -2b]");
    assert_eq!(encode(&Tag::IntArray(vec![10, 20, 30])), "[10, 20, 30]");
    assert_eq!(encode(&Tag::LongArray(vec![7])), "[7L]");
    assert_eq!(encode(&Tag::IntArray(vec![])), "[]");
}

#[test]
fn encode_empty_and_nested() {
    assert_eq!(encode(&Tag::List(vec![])), "[]");
    assert_eq!(encode(&Tag::Compound(vec![])), "{}");
    let inner = Tag::Compound(vec![("Count".to_string(), Tag::Byte(1))]);
    let t = Tag::Compound(vec![(
        "Items".to_string(),
        Tag::List(vec![inner, Tag::List(vec![Tag::Long(5)])]),
    )]);
    assert_eq!(encode(&t), "{Items: [{Count: 1b}, [5L]]}");
}
