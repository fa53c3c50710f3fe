use simd_json::deser::Deserializer;
use simd_json::error::ErrorType;
use simd_json::numberparse::{parse_number, Number};

fn num(text: &str) -> Result<Number, usize> {
    parse_number(&text.as_bytes().to_vec(), 0)
}

fn cursor(text: &str) -> Deserializer {
    Deserializer::new(text.as_bytes().to_vec(), vec![0]).unwrap()
}

#[test]
fn integer_literal_is_an_integer() {
    assert_eq!(num("42"), Ok(Number::I64(42)));
    assert_eq!(num("-7"), Ok(Number::I64(-7)));
    assert_eq!(num("0"), Ok(Number::I64(0)));
}

#[test]
fn fraction_or_exponent_makes_a_float() {
    assert_eq!(num("42.0"), Ok(Number::F64 { start: 0, end: 4 }));
    assert_eq!(num("4.2e1"), Ok(Number::F64 { start: 0, end: 5 }));
    assert_eq!(num("1E+2,"), Ok(Number::F64 { start: 0, end: 4 }));
}

#[test]
fn integer_bounds() {
    assert_eq!(num("9223372036854775807"), Ok(Number::I64(i64::MAX)));
    assert_eq!(num("-9223372036854775808"), Ok(Number::I64(i64::MIN)));
    assert_eq!(num("9223372036854775808"), Ok(Number::F64 { start: 0, end: 19 }));
    assert_eq!(num("-9223372036854775809"), Ok(Number::F64 { start: 0, end: 20 }));
    assert_eq!(num("123456789012345678901234567890"), Ok(Number::F64 { start: 0, end: 30 }));
}

#[test]
fn malformed_numbers() {
    assert_eq!(num("01"), Err(1));
    assert_eq!(num("-"), Err(1));
    assert_eq!(num("-a"), Err(1));
    assert_eq!(num("1."), Err(2));
    assert_eq!(num("1.e5"), Err(2));
    assert_eq!(num("1e"), Err(2));
    assert_eq!(num("1e+"), Err(3));
}

#[test]
fn parse_signed_takes_integers() {
    assert_eq!(cursor("-42").parse_signed(), Ok(-42));
    assert_eq!(cursor("17").parse_signed(), Ok(17));
}

#[test]
fn parse_signed_refuses_floats_and_other_tokens() {
    assert_eq!(cursor("4.5").parse_signed().unwrap_err().error, ErrorType::ExpectedSigned);
    assert_eq!(cursor("true").parse_signed().unwrap_err().error, ErrorType::ExpectedSigned);
}

#[test]
fn two_to_the_63_is_too_large_for_strict_integers() {
    let e = cursor("9223372036854775808").parse_signed().unwrap_err();
    assert_eq!(e.error, ErrorType::IntegerTooLarge);
    let e = cursor("9223372036854775808").parse_unsigned().unwrap_err();
    assert_eq!(e.error, ErrorType::IntegerTooLarge);
    assert_eq!(
        cursor("9223372036854775808").parse_double(),
        Ok(Number::F64 { start: 0, end: 19 })
    );
}

#[test]
fn parse_unsigned_refuses_a_sign() {
    assert_eq!(cursor("12").parse_unsigned(), Ok(12));
    assert_eq!(cursor("-12").parse_unsigned().unwrap_err().error, ErrorType::ExpectedUnsigned);
    assert_eq!(cursor("1.5").parse_unsigned().unwrap_err().error, ErrorType::ExpectedUnsigned);
}

#[test]
fn parse_double_takes_any_number() {
    assert_eq!(cursor("3").parse_double(), Ok(Number::I64(3)));
    assert_eq!(cursor("2.5").parse_double(), Ok(Number::F64 { start: 0, end: 3 }));
    assert_eq!(cursor("\"x\"").parse_double().unwrap_err().error, ErrorType::ExpectedFloat);
}

#[test]
fn malformed_number_is_a_syntax_error_at_its_offset() {
    let e = cursor("[1.]").parse_double();
    assert_eq!(e.unwrap_err().error, ErrorType::ExpectedFloat);
    let mut d = Deserializer::new(b"[1.]".to_vec(), vec![0, 1, 3]).unwrap();
    assert_eq!(d.next(), Ok(b'['));
    let e = d.parse_double().unwrap_err();
    assert_eq!(e.error, ErrorType::Syntax);
    assert_eq!(e.index, 3);
}
