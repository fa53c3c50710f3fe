use std::borrow::Cow;
use simd_json::borrowed::BorrowedValue;
use simd_json::error::SerdeConversionError;
use simd_json::generic::{GenericNumber, GenericValue};
use simd_json::value::OwnedValue;

fn s(text: &str) -> String {
    text.to_string()
}

fn borrowed_sample<'v>(key: &'v str) -> BorrowedValue<'v> {
    BorrowedValue::Object(vec![
        (Cow::Borrowed("int"), BorrowedValue::I64(42)),
        (Cow::Borrowed("float"), BorrowedValue::F64(7.2f64.to_bits())),
        (Cow::Borrowed("neg-int"), BorrowedValue::I64(-23)),
        (Cow::Owned(s("string")), BorrowedValue::String(Cow::Borrowed("string"))),
        (Cow::Borrowed("bool"), BorrowedValue::Bool(true)),
        (Cow::Borrowed("null"), BorrowedValue::Null),
        (
            Cow::Borrowed("object"),
            BorrowedValue::Object(vec![(
                Cow::Borrowed("array"),
                BorrowedValue::Array(vec![
                    BorrowedValue::I64(42),
                    BorrowedValue::I64(7),
                    BorrowedValue::I64(-23),
                    BorrowedValue::Bool(false),
                    BorrowedValue::Null,
                    BorrowedValue::Object(vec![(
                        Cow::Borrowed(key),
                        BorrowedValue::String(Cow::Owned(s("value"))),
                    )]),
                ]),
            )]),
        ),
    ])
}

fn generic_sample() -> GenericValue {
    GenericValue::Object(vec![
        (s("int"), GenericValue::Number(GenericNumber::PosInt(42))),
        (s("float"), GenericValue::Number(GenericNumber::Float(7.2f64.to_bits()))),
        (s("neg-int"), GenericValue::Number(GenericNumber::NegInt(-23))),
        (s("string"), GenericValue::String(s("string"))),
        (s("bool"), GenericValue::Bool(true)),
        (s("null"), GenericValue::Null),
        (
            s("object"),
            GenericValue::Object(vec![(
                s("array"),
                GenericValue::Array(vec![
                    GenericValue::Number(GenericNumber::PosInt(42)),
                    GenericValue::Number(GenericNumber::PosInt(7)),
                    GenericValue::Number(GenericNumber::NegInt(-23)),
                    GenericValue::Bool(false),
                    GenericValue::Null,
                    GenericValue::Object(vec![(s("key"), GenericValue::String(s("value")))]),
                ]),
            )]),
        ),
    ])
}

#[test]
fn convert_borrowed_value() {
    let v = borrowed_sample("key");
    let g = generic_sample();
    let g_c = BorrowedValue::try_into(&v).unwrap();
    assert_eq!(g, g_c);
    let v_c = BorrowedValue::try_from(&g).unwrap();
    assert_eq!(v, v_c);
}

#[test]
fn borrowed_and_owned_compare_by_structure() {
    let v = borrowed_sample("key");
    let owned = OwnedValue::try_from(&generic_sample()).unwrap();
    assert!(v == owned);
    let other = borrowed_sample("other");
    assert!(other != owned);
    assert!(v != other);
}

#[test]
fn borrowed_nan_is_refused() {
    let v = BorrowedValue::Array(vec![BorrowedValue::F64(f64::NAN.to_bits())]);
    assert_eq!(BorrowedValue::try_into(&v).unwrap_err(), SerdeConversionError::NanOrInfinity);
    let g = GenericValue::Number(GenericNumber::PosInt(u64::MAX));
    assert_eq!(BorrowedValue::try_from(&g).unwrap_err(), SerdeConversionError::IntegerTooLarge);
}

#[test]
fn borrowed_scalar_equality() {
    assert!(BorrowedValue::String(Cow::Borrowed("é")) == "é");
    assert!(BorrowedValue::String(Cow::Owned(s("x"))) == s("x"));
    assert!(BorrowedValue::I64(300) != 44u8);
    assert!(BorrowedValue::I64(300) == 300u16);
    assert!(BorrowedValue::Bool(false) == false);
    assert!(BorrowedValue::Null == ());
    assert_eq!(BorrowedValue::String(Cow::Borrowed("a")).as_str(), Some("a"));
    assert_eq!(BorrowedValue::I64(-5).as_i64(), Some(-5));
    assert_eq!(BorrowedValue::I64(-5).as_u64(), None);
}

#[test]
fn owned_compares_with_borrowed_both_ways() {
    let v = borrowed_sample("key");
    let owned = OwnedValue::try_from(&generic_sample()).unwrap();
    assert!(owned == v);
    assert!(owned != borrowed_sample("other"));
    let a = BorrowedValue::F64(0.3f64.to_bits());
    let b = BorrowedValue::F64((0.1f64 + 0.2f64).to_bits());
    assert!(a != b);
    assert!(a.equals_by(&b, &|x: u64, y: u64| (x as i64 - y as i64).abs() <= 4));
}
