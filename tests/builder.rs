use std::borrow::Cow;
use simd_json::borrowed::BorrowedValue;
use simd_json::builder::{to_borrowed_value, to_owned_value};
use simd_json::error::{Error, ErrorType};
use simd_json::generic::GenericValue;
use simd_json::value::OwnedValue;

fn parse(text: &str) -> Result<OwnedValue, Error> {
    let input = text.as_bytes().to_vec();
    let literal = input.clone();
    to_owned_value(&input, &|start: usize, end: usize| -> u64 {
        std::str::from_utf8(&literal[start..end])
            .unwrap()
            .parse::<f64>()
            .unwrap()
            .to_bits()
    })
}

fn s(text: &str) -> String {
    text.to_string()
}

#[test]
fn document_with_object_and_array() {
    let v = parse("{\"a\":1,\"b\":[true,null,2.5]}").unwrap();
    let expected = OwnedValue::Object(vec![
        (s("a"), OwnedValue::I64(1)),
        (
            s("b"),
            OwnedValue::Array(vec![
                OwnedValue::Bool(true),
                OwnedValue::Null,
                OwnedValue::F64(2.5f64.to_bits()),
            ]),
        ),
    ]);
    assert_eq!(v, expected);
    let g: GenericValue = OwnedValue::try_into(&v).unwrap();
    let again = OwnedValue::try_from(&g).unwrap();
    assert_eq!(again, v);
}

#[test]
fn document_string_with_unicode_escape() {
    assert_eq!(parse("\"\\u00e9\"").unwrap(), OwnedValue::String(s("é")));
}

#[test]
fn numbers_in_documents() {
    assert_eq!(parse("42").unwrap(), OwnedValue::I64(42));
    assert_eq!(parse("42.0").unwrap(), OwnedValue::F64(42.0f64.to_bits()));
    assert_eq!(parse("4.2e1").unwrap(), OwnedValue::F64(42.0f64.to_bits()));
    assert_eq!(
        parse("9223372036854775808").unwrap(),
        OwnedValue::F64(9223372036854775808.0f64.to_bits())
    );
    assert_eq!(parse(" -0 ").unwrap(), OwnedValue::I64(0));
}

#[test]
fn nested_and_empty_containers() {
    let v = parse(" [ [], {}, [ {\"k\" : [1]} ] ] ").unwrap();
    let expected = OwnedValue::Array(vec![
        OwnedValue::Array(vec![]),
        OwnedValue::Object(vec![]),
        OwnedValue::Array(vec![OwnedValue::Object(vec![(
            s("k"),
            OwnedValue::Array(vec![OwnedValue::I64(1)]),
        )])]),
    ]);
    assert_eq!(v, expected);
}

#[test]
fn later_value_for_a_key_wins() {
    let v = parse("{\"x\":1,\"y\":2,\"x\":3}").unwrap();
    match v {
        OwnedValue::Object(entries) => {
            assert_eq!(entries.len(), 2);
            assert_eq!(entries[0].0, "x");
            assert_eq!(entries[0].1, OwnedValue::I64(3));
            assert_eq!(entries[1].0, "y");
        }
        _ => panic!("expected an object"),
    }
}

#[test]
fn malformed_documents_are_refused() {
    assert!(parse("").is_err());
    assert!(parse("tru").is_err());
    assert!(parse("truex").is_err());
    assert!(parse("[1,]").is_err());
    assert!(parse("[1 2]").is_err());
    assert!(parse("{\"a\" 1}").is_err());
    assert!(parse("{\"a\":}").is_err());
    assert!(parse("{1:2}").is_err());
    assert!(parse("1 2").is_err());
    assert!(parse("[").is_err());
    assert!(parse("01").is_err());
    assert!(parse("\"\\q\"").is_err());
}

#[test]
fn unterminated_document_string_is_a_syntax_error() {
    let e = parse("[\"abc").unwrap_err();
    assert_eq!(e.error, ErrorType::Syntax);
    assert!(e.index <= 5);
}

fn float_bits_of(input: &[u8]) -> impl Fn(usize, usize) -> u64 + '_ {
    move |start: usize, end: usize| -> u64 {
        std::str::from_utf8(&input[start..end])
            .unwrap()
            .parse::<f64>()
            .unwrap()
            .to_bits()
    }
}

#[test]
fn borrowed_document_borrows_plain_strings() {
    let input = b"{\"plain\":\"text\",\"esc\":\"a\\nb\"}".to_vec();
    let copy = input.clone();
    let v = to_borrowed_value(&input, &float_bits_of(&copy)).unwrap();
    let base = input.as_ptr() as usize;
    match &v {
        BorrowedValue::Object(entries) => {
            assert_eq!(entries.len(), 2);
            match (&entries[0].0, &entries[0].1) {
                (Cow::Borrowed(k), BorrowedValue::String(Cow::Borrowed(x))) => {
                    assert_eq!(*k, "plain");
                    assert_eq!(*x, "text");
                    assert_eq!(x.as_ptr() as usize, base + 10);
                }
                _ => panic!("plain strings should be borrowed"),
            }
            match &entries[1].1 {
                BorrowedValue::String(Cow::Owned(x)) => assert_eq!(x, "a\nb"),
                _ => panic!("an escaped string should be owned"),
            }
        }
        _ => panic!("expected an object"),
    }
    let owned = parse("{\"plain\":\"text\",\"esc\":\"a\\nb\"}").unwrap();
    assert!(v == owned);
}

#[test]
fn borrowed_document_scenario() {
    let input = b"{\"a\":1,\"b\":[true,null,2.5]}".to_vec();
    let copy = input.clone();
    let v = to_borrowed_value(&input, &float_bits_of(&copy)).unwrap();
    let owned = parse("{\"b\":[true,null,2.5],\"a\":1}").unwrap();
    assert!(v == owned);
    assert!(to_borrowed_value(&b"[1,".to_vec(), &float_bits_of(&copy)).is_err());
}

#[test]
fn unterminated_or_mid_escape_document_reports_its_end() {
    let e = parse("\"abc").unwrap_err();
    assert_eq!(e, Error { index: 4, error: ErrorType::Syntax });
    let e = parse("[\"ab\\").unwrap_err();
    assert_eq!(e, Error { index: 5, error: ErrorType::Syntax });
    let input = b"[\"ab\\".to_vec();
    let e = to_borrowed_value(&input, &float_bits_of(&input)).unwrap_err();
    assert_eq!(e, Error { index: 5, error: ErrorType::Syntax });
}
