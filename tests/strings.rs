use simd_json::deser::Deserializer;
use simd_json::error::{Error, ErrorType};
use simd_json::stringparse::unescape_in_place;

fn decode(text: &str) -> Result<Vec<u8>, Error> {
    let mut buf = text.as_bytes().to_vec();
    let n = unescape_in_place(&mut buf, 1)?;
    Ok(buf[1..1 + n].to_vec())
}

fn cursor_on_string(text: &str) -> Deserializer {
    let mut d = Deserializer::new(text.as_bytes().to_vec(), vec![0]).unwrap();
    assert_eq!(d.next().unwrap(), b'"');
    d
}

#[test]
fn escape_table_maps_each_escape_to_its_byte() {
    let cases: [(&str, u8); 8] = [
        ("\"\\\"\"", b'"'),
        ("\"\\\\\"", b'\\'),
        ("\"\\/\"", b'/'),
        ("\"\\b\"", 8),
        ("\"\\f\"", 12),
        ("\"\\n\"", b'\n'),
        ("\"\\r\"", b'\r'),
        ("\"\\t\"", b'\t'),
    ];
    for (text, byte) in cases.iter() {
        assert_eq!(decode(text).unwrap(), vec![*byte]);
    }
}

#[test]
fn unicode_escape_of_ascii_letter() {
    assert_eq!(decode("\"\\u0041\"").unwrap(), b"A".to_vec());
}

#[test]
fn surrogate_pair_decodes_to_four_bytes() {
    assert_eq!(decode("\"\\uD83D\\uDE00\"").unwrap(), vec![0xF0, 0x9F, 0x98, 0x80]);
}

#[test]
fn lone_high_surrogate_is_rejected() {
    let e = decode("\"\\uD83D\"").unwrap_err();
    assert_eq!(e.error, ErrorType::InvalidUnicodeCodepoint);
    assert_eq!(e.index, 1);
}

#[test]
fn lone_low_surrogate_is_rejected() {
    let e = decode("\"\\uDE00\"").unwrap_err();
    assert_eq!(e.error, ErrorType::InvalidUnicodeCodepoint);
}

#[test]
fn invalid_hex_digit_is_rejected() {
    let e = decode("\"\\u00g1\"").unwrap_err();
    assert_eq!(e.error, ErrorType::InvalidUnicodeCodepoint);
}

#[test]
fn unknown_escape_is_rejected() {
    let e = decode("\"ab\\x\"").unwrap_err();
    assert_eq!(e.error, ErrorType::InvalidEscape);
    assert_eq!(e.index, 3);
}

#[test]
fn e_acute_escape_decodes_to_one_character() {
    let mut d = cursor_on_string("\"\\u00e9\"");
    let s = d.parse_string().unwrap();
    assert_eq!(s, "é");
    assert_eq!(s.chars().count(), 1);
}

#[test]
fn two_byte_and_three_byte_encodings() {
    assert_eq!(decode("\"\\u00e9\"").unwrap(), vec![0xC3, 0xA9]);
    assert_eq!(decode("\"\\u20AC\"").unwrap(), vec![0xE2, 0x82, 0xAC]);
}

#[test]
fn string_without_escapes_stays_in_place() {
    let text = "\"plain text that spans more than sixteen bytes\"";
    let mut d = cursor_on_string(text);
    let (start, len) = d.parse_str_().unwrap();
    assert_eq!(start, 1);
    assert_eq!(len, text.len() - 2);
    assert_eq!(d.input, text.as_bytes().to_vec());
}

#[test]
fn escapes_are_rewritten_in_place() {
    let mut d = cursor_on_string("\"a\\nb\" tail");
    let (start, len) = d.parse_str_().unwrap();
    assert_eq!(&d.input[start..start + len], b"a\nb");
    assert_eq!(&d.input[d.input.len() - 4..], b"tail");
}

#[test]
fn escape_straddling_a_window_boundary() {
    let text = "\"0123456789abcd\\u00e9ef\"";
    assert_eq!(decode(text).unwrap(), "0123456789abcdéef".as_bytes().to_vec());
}

#[test]
fn unterminated_string_is_a_syntax_error() {
    let e = decode("\"no closing quote").unwrap_err();
    assert_eq!(e.error, ErrorType::Syntax);
    assert!(e.index <= "\"no closing quote".len());
}

#[test]
fn input_ending_mid_escape_is_a_syntax_error() {
    let e = decode("\"abc\\").unwrap_err();
    assert_eq!(e.error, ErrorType::Syntax);
    assert!(e.index <= 5);
    let e = decode("\"abc\\u00").unwrap_err();
    assert_eq!(e.error, ErrorType::Syntax);
    assert!(e.index <= 8);
}

#[test]
fn parse_str_requires_a_quote() {
    let mut d = Deserializer::new(b"123".to_vec(), vec![0]).unwrap();
    d.next().unwrap();
    let e = d.parse_str_().unwrap_err();
    assert_eq!(e.error, ErrorType::Syntax);
}

#[test]
fn invalid_utf8_content_is_refused() {
    let mut d = Deserializer::new(vec![b'"', 0xFF, b'"'], vec![0]).unwrap();
    d.next().unwrap();
    assert_eq!(d.parse_string().unwrap_err().error, ErrorType::InvalidUtf8);
}

#[test]
fn borrowed_string_is_a_slice_of_the_input() {
    let text = "\"no escapes here\"";
    let mut d = cursor_on_string(text);
    let input_start = d.input.as_ptr() as usize;
    let s = d.parse_borrowed_str().unwrap();
    assert_eq!(s, "no escapes here");
    assert_eq!(s.as_ptr() as usize, input_start + 1);
}

#[test]
fn borrowed_string_with_escapes_is_decoded_in_the_buffer() {
    let mut d = cursor_on_string("\"tab\\there\"");
    let s = d.parse_borrowed_str().unwrap();
    assert_eq!(s, "tab\there");
}
