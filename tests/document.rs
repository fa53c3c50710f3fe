use simd_json::deser::Deserializer;
use simd_json::error::ErrorType;
use simd_json::numberparse::Number;
use simd_json::stage1::find_structural_indexes;

#[test]
fn structural_indexes_of_a_document() {
    let text = b"{\"a\":1,\"b\":[true,null,2.5]}".to_vec();
    let idx = find_structural_indexes(&text).unwrap();
    assert_eq!(idx, vec![0, 1, 4, 5, 6, 7, 10, 11, 12, 16, 17, 21, 22, 25, 26]);
}

#[test]
fn quotes_and_punctuation_inside_strings_are_not_tokens() {
    let text = b"[\"a,\\\"b]\" , 12 ]".to_vec();
    let idx = find_structural_indexes(&text).unwrap();
    assert_eq!(idx, vec![0, 1, 10, 12, 15]);
}

#[test]
fn unterminated_string_is_refused_by_the_indexer() {
    let text = b"[\"abc".to_vec();
    let e = find_structural_indexes(&text).unwrap_err();
    assert_eq!(e.error, ErrorType::Syntax);
    assert_eq!(e.index, 5);
    let e = Deserializer::from_slice(b"\"a\\\"".to_vec()).unwrap_err();
    assert_eq!(e.error, ErrorType::Syntax);
}

#[test]
fn walking_a_document_token_by_token() {
    let mut d = Deserializer::from_slice(b"{\"a\":1,\"b\":[true,null,2.5]}".to_vec()).unwrap();
    assert_eq!(d.next(), Ok(b'{'));
    assert_eq!(d.next(), Ok(b'"'));
    assert_eq!(d.parse_string().unwrap(), "a");
    assert_eq!(d.next(), Ok(b':'));
    assert_eq!(d.parse_signed(), Ok(1));
    assert_eq!(d.next(), Ok(b','));
    assert_eq!(d.next(), Ok(b'"'));
    assert_eq!(d.parse_string().unwrap(), "b");
    assert_eq!(d.next(), Ok(b':'));
    assert_eq!(d.next(), Ok(b'['));
    assert_eq!(d.next(), Ok(b't'));
    assert_eq!(d.next(), Ok(b','));
    assert_eq!(d.next(), Ok(b'n'));
    assert_eq!(d.next(), Ok(b','));
    assert_eq!(d.parse_double(), Ok(Number::F64 { start: 22, end: 25 }));
    assert_eq!(d.next(), Ok(b']'));
    assert_eq!(d.next(), Ok(b'}'));
    assert_eq!(d.peek().unwrap_err().error, ErrorType::UnexpectedEnd);
}
