use simd_json::error::SerdeConversionError;
use simd_json::generic::{GenericNumber, GenericValue};
use simd_json::value::{insert_entry, OwnedValue};

fn s(text: &str) -> String {
    text.to_string()
}

fn owned_sample() -> OwnedValue {
    OwnedValue::Object(vec![
        (s("int"), OwnedValue::I64(42)),
        (s("float"), OwnedValue::F64(7.2f64.to_bits())),
        (s("neg-int"), OwnedValue::I64(-23)),
        (s("string"), OwnedValue::String(s("string"))),
        (s("bool"), OwnedValue::Bool(true)),
        (s("null"), OwnedValue::Null),
        (
            s("object"),
            OwnedValue::Object(vec![(
                s("array"),
                OwnedValue::Array(vec![
                    OwnedValue::I64(42),
                    OwnedValue::I64(7),
                    OwnedValue::I64(-23),
                    OwnedValue::Bool(false),
                    OwnedValue::Null,
                    OwnedValue::Object(vec![(s("key"), OwnedValue::String(s("value")))]),
                ]),
            )]),
        ),
    ])
}

fn generic_sample() -> GenericValue {
    GenericValue::Object(vec![
        (s("int"), GenericValue::Number(GenericNumber::PosInt(42))),
        (s("float"), GenericValue::Number(GenericNumber::Float(7.2f64.to_bits()))),
        (s("neg-int"), GenericValue::Number(GenericNumber::NegInt(-23))),
        (s("string"), GenericValue::String(s("string"))),
        (s("bool"), GenericValue::Bool(true)),
        (s("null"), GenericValue::Null),
        (
            s("object"),
            GenericValue::Object(vec![(
                s("array"),
                GenericValue::Array(vec![
                    GenericValue::Number(GenericNumber::PosInt(42)),
                    GenericValue::Number(GenericNumber::PosInt(7)),
                    GenericValue::Number(GenericNumber::NegInt(-23)),
                    GenericValue::Bool(false),
                    GenericValue::Null,
                    GenericValue::Object(vec![(s("key"), GenericValue::String(s("value")))]),
                ]),
            )]),
        ),
    ])
}

#[test]
fn convert_owned_value() {
    let v = owned_sample();
    let g = generic_sample();
    let g_c: GenericValue = OwnedValue::try_into(&v).unwrap();
    assert_eq!(g, g_c);
    let v_c = OwnedValue::try_from(&g).unwrap();
    assert_eq!(v, v_c);
}

#[test]
fn round_trip_gives_an_equal_value() {
    let v = owned_sample();
    let back = OwnedValue::try_from(&OwnedValue::try_into(&v).unwrap()).unwrap();
    assert!(v == back);
    assert!(v.equals(&back));
}

#[test]
fn nan_and_infinity_cannot_be_converted() {
    let nan = OwnedValue::Array(vec![OwnedValue::F64(f64::NAN.to_bits())]);
    assert_eq!(OwnedValue::try_into(&nan).unwrap_err(), SerdeConversionError::NanOrInfinity);
    let inf = OwnedValue::F64(f64::INFINITY.to_bits());
    assert_eq!(OwnedValue::try_into(&inf).unwrap_err(), SerdeConversionError::NanOrInfinity);
    let neg_inf = OwnedValue::F64(f64::NEG_INFINITY.to_bits());
    assert_eq!(OwnedValue::try_into(&neg_inf).unwrap_err(), SerdeConversionError::NanOrInfinity);
    let big = OwnedValue::F64(f64::MAX.to_bits());
    assert!(OwnedValue::try_into(&big).is_ok());
}

#[test]
fn integer_above_i64_max_is_too_large() {
    let g = GenericValue::Object(vec![(
        s("n"),
        GenericValue::Number(GenericNumber::PosInt(9223372036854775808)),
    )]);
    assert_eq!(OwnedValue::try_from(&g).unwrap_err(), SerdeConversionError::IntegerTooLarge);
    let g = GenericValue::Number(GenericNumber::PosInt(9223372036854775807));
    assert_eq!(OwnedValue::try_from(&g).unwrap(), OwnedValue::I64(i64::MAX));
}

#[test]
fn integers_take_the_variant_of_their_sign() {
    assert_eq!(
        OwnedValue::try_into(&OwnedValue::I64(0)).unwrap(),
        GenericValue::Number(GenericNumber::PosInt(0))
    );
    assert_eq!(
        OwnedValue::try_into(&OwnedValue::I64(-1)).unwrap(),
        GenericValue::Number(GenericNumber::NegInt(-1))
    );
}

#[test]
fn object_equality_ignores_order() {
    let a = OwnedValue::Object(vec![(s("x"), OwnedValue::I64(1)), (s("y"), OwnedValue::Null)]);
    let b = OwnedValue::Object(vec![(s("y"), OwnedValue::Null), (s("x"), OwnedValue::I64(1))]);
    let c = OwnedValue::Object(vec![(s("y"), OwnedValue::Null), (s("x"), OwnedValue::I64(2))]);
    assert_eq!(a, b);
    assert_ne!(a, c);
}

#[test]
fn arrays_compare_in_order_and_tags_must_match() {
    let a = OwnedValue::Array(vec![OwnedValue::I64(1), OwnedValue::Bool(true)]);
    let b = OwnedValue::Array(vec![OwnedValue::Bool(true), OwnedValue::I64(1)]);
    assert_ne!(a, b);
    assert_ne!(OwnedValue::I64(1), OwnedValue::F64(1.0f64.to_bits()));
    assert_ne!(OwnedValue::Null, OwnedValue::Bool(false));
}

#[test]
fn scalar_equality_goes_through_the_accessors() {
    assert!(OwnedValue::Bool(true) == true);
    assert!(OwnedValue::Bool(true) != false);
    assert!(OwnedValue::I64(42) == 42i64);
    assert!(OwnedValue::I64(42) == 42u8);
    assert!(OwnedValue::I64(-1) != 255u8);
    assert!(OwnedValue::I64(-1) == -1i8);
    assert!(OwnedValue::I64(5) == 5usize);
    assert!(OwnedValue::String(s("hi")) == "hi");
    assert!(OwnedValue::String(s("hi")) == s("hi"));
    assert!(OwnedValue::String(s("hi")) != "ho");
    assert!(OwnedValue::I64(1) != "1");
    assert!(OwnedValue::Null == ());
    assert!(OwnedValue::Bool(false) != ());
}

#[test]
fn accessors_return_no_match_for_other_tags() {
    assert_eq!(OwnedValue::I64(3).as_bool(), None);
    assert_eq!(OwnedValue::I64(3).as_i64(), Some(3));
    assert_eq!(OwnedValue::I64(-3).as_u64(), None);
    assert_eq!(OwnedValue::F64(2.5f64.to_bits()).as_f64_bits(), Some(2.5f64.to_bits()));
    assert_eq!(OwnedValue::String(s("a")).as_str(), Some("a"));
    assert_eq!(OwnedValue::Null.as_str(), None);
    assert!(OwnedValue::Null.is_null());
}

#[test]
fn conversion_errors_describe_themselves() {
    assert_eq!(
        SerdeConversionError::NanOrInfinity.message(),
        "JSON can not represent NAN or Infinity values"
    );
    assert_eq!(
        SerdeConversionError::IntegerTooLarge.message(),
        "Integer value is too large to fit in a i64"
    );
    assert_eq!(
        SerdeConversionError::Oops.message(),
        "Unreachable code is reachable, oops - please open a bug with simdjson-rs"
    );
}

#[test]
fn inserting_an_existing_key_replaces_its_value_in_place() {
    let mut entries = vec![(s("a"), OwnedValue::I64(1)), (s("b"), OwnedValue::I64(2))];
    insert_entry(&mut entries, s("a"), OwnedValue::Null);
    insert_entry(&mut entries, s("c"), OwnedValue::Bool(true));
    assert_eq!(entries.len(), 3);
    assert_eq!(entries[0].0, "a");
    assert_eq!(entries[0].1, OwnedValue::Null);
    assert_eq!(entries[2].0, "c");
}

#[test]
fn wide_integer_equality() {
    assert!(OwnedValue::I64(-7) == -7i128);
    assert!(OwnedValue::I64(7) == 7u128);
    assert!(OwnedValue::I64(-7) != 7u128);
    assert!(OwnedValue::Null != 0i128);
}

fn within_four_ulps(a: u64, b: u64) -> bool {
    let (x, y) = (f64::from_bits(a), f64::from_bits(b));
    x == y || (a as i64 - b as i64).abs() <= 4
}

#[test]
fn equality_with_a_comparison_of_doubles() {
    let a = OwnedValue::Array(vec![OwnedValue::F64(0.3f64.to_bits()), OwnedValue::I64(1)]);
    let near = OwnedValue::Array(vec![OwnedValue::F64((0.1f64 + 0.2f64).to_bits()), OwnedValue::I64(1)]);
    let far = OwnedValue::Array(vec![OwnedValue::F64(0.4f64.to_bits()), OwnedValue::I64(1)]);
    assert!(a != near);
    assert!(a.equals_by(&near, &within_four_ulps));
    assert!(!a.equals_by(&far, &within_four_ulps));
    let o1 = OwnedValue::Object(vec![(s("x"), OwnedValue::F64(0.3f64.to_bits()))]);
    let o2 = OwnedValue::Object(vec![(s("x"), OwnedValue::F64((0.1f64 + 0.2f64).to_bits()))]);
    assert!(o1.equals_by(&o2, &within_four_ulps));
}
