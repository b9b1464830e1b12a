use ordering_probe::json::escape::{escaped_string, is_contained_escape_char};
use ordering_probe::json::number::Number;
use ordering_probe::json::value::{array_to_str, object_to_str, Object, Value};
use std::borrow::Cow;

fn real_value(x: f64) -> Value {
    Value::Number(Number::Real(x.to_string()))
}

#[test]
fn array_to_str_test() {
    let vec: Vec<Value> = vec![];
    assert_eq!(array_to_str(&vec), "");
    let fixture = Value::from(vec);
    assert_eq!(fixture.to_string(), "[]");

    let mut vec: Vec<Value> = vec![Value::from("hello")];
    assert_eq!(array_to_str(&vec), "\"hello\"");

    vec.push(Value::from(100));
    assert_eq!(array_to_str(&vec), "\"hello\",100");

    vec.push(real_value(42.195));
    assert_eq!(array_to_str(&vec), "\"hello\",100,42.195");

    vec.push(Value::True);
    assert_eq!(array_to_str(&vec), "\"hello\",100,42.195,true");

    vec.push(Value::False);
    assert_eq!(array_to_str(&vec), "\"hello\",100,42.195,true,false");

    vec.push(Value::Null);
    assert_eq!(array_to_str(&vec), "\"hello\",100,42.195,true,false,null");

    let fixture = Value::from(vec);
    assert_eq!(
        fixture.to_string(),
        "[\"hello\",100,42.195,true,false,null]"
    );
}

#[test]
fn object_to_str_test() {
    let mut obj = Object::new();
    assert_eq!(object_to_str(&obj), "");
    obj.insert("hello".to_string(), Value::from("world"));
    assert_eq!(object_to_str(&obj), "\"hello\":\"world\"");
    obj.insert("number".to_string(), Value::from(1));
    assert_eq!(object_to_str(&obj), "\"hello\":\"world\",\"number\":1");
    obj.insert("say \"hi\"".to_string(), Value::Null);
    assert_eq!(
        object_to_str(&obj),
        "\"hello\":\"world\",\"number\":1,\"say \\\"hi\\\"\":null"
    );
    let fixture = Value::from(obj);
    assert_eq!(
        fixture.to_string(),
        "{\"hello\":\"world\",\"number\":1,\"say \\\"hi\\\"\":null}"
    );
}

#[test]
fn escape_str_test() {
    assert_eq!(escaped_string("hello\"world"), "hello\\\"world");
    assert_eq!(escaped_string("hello\\world"), "hello\\\\world");

    let mut vec: Vec<u8> = Vec::new();

    for elem in b"hello" {
        vec.push(*elem);
    }
    vec.push(0x08);

    for elem in b"world" {
        vec.push(*elem);
    }

    assert_eq!(
        escaped_string(String::from_utf8(vec).unwrap().as_str()),
        "hello\\bworld"
    );

    let mut vec: Vec<u8> = Vec::new();
    for elem in b"hello" {
        vec.push(*elem);
    }

    vec.push(0x0C);

    for elem in b"world" {
        vec.push(*elem);
    }

    assert_eq!(
        escaped_string(String::from_utf8(vec).unwrap().as_str()),
        "hello\\fworld"
    );

    assert_eq!(escaped_string("hello\nworld"), "hello\\nworld");
    assert_eq!(escaped_string("hello\rworld"), "hello\\rworld");
    assert_eq!(escaped_string("hello\tworld"), "hello\\tworld");

    assert_eq!(escaped_string("hello world"), "hello world");
    assert_eq!(escaped_string("今日は世界"), "今日は世界");

    assert_eq!(escaped_string("今日は\\世界"), "今日は\\\\世界");
}

#[test]
fn is_contained_escaped_char_test() {
    assert!(is_contained_escape_char("\""));
    assert!(is_contained_escape_char("\\"));
    assert!(is_contained_escape_char(
        String::from_utf8(vec![0x08]).unwrap().as_str()
    ));
    assert!(is_contained_escape_char(
        String::from_utf8(vec![0x0C]).unwrap().as_str()
    ));
    assert!(is_contained_escape_char("\n"));
    assert!(is_contained_escape_char("\r"));
    assert!(is_contained_escape_char("\t"));

    assert!(!is_contained_escape_char("hello world"));
}

#[test]
fn from_str() {
    let fixture = Value::from("hello");

    match fixture {
        Value::String(x) => assert_eq!(x, "hello"),
        _ => unreachable!(),
    }
}

#[test]
fn from_string() {
    let fixture = Value::from("hello".to_string());

    match fixture {
        Value::String(str) => assert_eq!(str, "hello"),
        _ => unreachable!(),
    }
}

#[test]
fn value_from_i64() {
    let fixture = Value::from(123);

    match fixture {
        Value::Number(Number::Integer(x)) => assert_eq!(x, 123),
        _ => unreachable!(),
    }
}

#[test]
fn from_array() {
    let arr: Vec<Value> = vec![Value::from("hello"), Value::from(100)];

    let fixture = Value::from(arr);

    if let Value::Array(arr) = fixture {
        assert_eq!(arr.len(), 2);

        assert!(matches!(arr[0], Value::String(ref v) if v == "hello"));
        assert!(matches!(arr[1], Value::Number(Number::Integer(v)) if v == 100));
    } else {
        unreachable!();
    }
}

#[test]
fn from_object() {
    let mut obj = Object::new();
    obj.insert("hello".to_string(), Value::String("world".to_string()));
    obj.insert("number".to_string(), Value::Number(Number::from(1)));

    let fixture = Value::from(obj);

    if let Value::Object(obj) = fixture {
        assert_eq!(obj.len(), 2);
    }
}

#[test]
fn escaped_string_borrows_when_nothing_to_escape() {
    assert!(matches!(escaped_string("plain text"), Cow::Borrowed("plain text")));
    assert!(matches!(escaped_string("tab\there"), Cow::Owned(_)));
    assert!(matches!(escaped_string(""), Cow::Borrowed("")));
}

#[test]
fn escaped_string_keeps_non_ascii_bytes() {
    assert_eq!(escaped_string("é\"ü\t€𝄞"), "é\\\"ü\\t€𝄞");
    assert!(!is_contained_escape_char("é€𝄞 ünïcödé"));
}

#[test]
fn escaped_length_grows_by_escape_count() {
    let s = "a\"b\\c\nd\re\tf";
    let e = escaped_string(s);
    assert_eq!(e.chars().count(), s.chars().count() + 5);
    assert!(!e.contains('\n') && !e.contains('\r') && !e.contains('\t'));
}

#[test]
fn string_value_text_is_quoted_and_escaped() {
    assert_eq!(Value::from("a\"b").to_string(), "\"a\\\"b\"");
    assert_eq!(Value::from("").to_string(), "\"\"");
}

#[test]
fn integer_texts() {
    assert_eq!(Value::from(0).to_string(), "0");
    assert_eq!(Value::from(-7).to_string(), "-7");
    assert_eq!(Value::from(1234567890).to_string(), "1234567890");
    assert_eq!(Value::from(i64::MIN).to_string(), "-9223372036854775808");
    assert_eq!(Value::from(i64::MAX).to_string(), "9223372036854775807");
    assert_eq!(Number::from(-42).to_string(), "-42");
    assert_eq!(Number::Real("2.5".to_string()).to_string(), "2.5");
}

#[test]
fn nested_values() {
    let mut inner = Object::new();
    inner.insert("k".to_string(), Value::from(vec![Value::Null, Value::from(vec![])]));
    let v = Value::from(vec![Value::from(inner), Value::from(vec![Value::True])]);
    assert_eq!(v.to_string(), "[{\"k\":[null,[]]},[true]]");
}

#[test]
fn object_insert_reads_back() {
    let mut obj = Object::new();
    assert!(obj.insert("a".to_string(), Value::from(1)).is_none());
    assert!(obj.insert("b".to_string(), Value::from(2)).is_none());
    let previous = obj.insert("a".to_string(), Value::from(3));
    assert!(matches!(previous, Some(Value::Number(Number::Integer(1)))));
    assert_eq!(obj.len(), 2);
    assert!(matches!(obj.get("a"), Some(Value::Number(Number::Integer(3)))));
    assert!(matches!(obj.get("b"), Some(Value::Number(Number::Integer(2)))));
    assert!(obj.get("c").is_none());
    assert_eq!(object_to_str(&obj), "\"a\":3,\"b\":2");
}

fn unescape_for_test(t: &str) -> String {
    let mut out = String::new();
    let mut chars = t.chars();
    while let Some(c) = chars.next() {
        if c == '\\' {
            match chars.next() {
                Some('b') => out.push('\x08'),
                Some('f') => out.push('\x0C'),
                Some('n') => out.push('\n'),
                Some('r') => out.push('\r'),
                Some('t') => out.push('\t'),
                Some(other) => out.push(other),
                None => out.push('\\'),
            }
        } else {
            out.push(c);
        }
    }
    out
}

#[test]
fn escaping_reads_back() {
    for s in ["", "plain", "q\"b\\s\x08f\x0Cn\nr\rt\t", "\\\\\"\"", "日本\t語"] {
        assert_eq!(unescape_for_test(&escaped_string(s)), s);
    }
}
