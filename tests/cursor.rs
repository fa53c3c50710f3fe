use simd_json::deser::Deserializer;
use simd_json::error::ErrorType;

#[test]
fn next_and_peek_walk_the_structural_indexes() {
    let mut d = Deserializer::new(b"[1, 2]".to_vec(), vec![0, 1, 2, 4, 5]).unwrap();
    assert_eq!(d.peek(), Ok(b'['));
    assert_eq!(d.next(), Ok(b'['));
    assert_eq!(d.peek(), Ok(b'1'));
    assert_eq!(d.next(), Ok(b'1'));
    assert_eq!(d.iidx, 1);
    assert_eq!(d.next(), Ok(b','));
    assert_eq!(d.next(), Ok(b'2'));
    assert_eq!(d.next(), Ok(b']'));
    assert_eq!(d.peek().unwrap_err().error, ErrorType::UnexpectedEnd);
    let e = d.next().unwrap_err();
    assert_eq!(e.error, ErrorType::UnexpectedEnd);
    assert_eq!(e.index, 5);
}

#[test]
fn index_past_the_input_is_refused() {
    assert!(Deserializer::new(b"[]".to_vec(), vec![0, 2]).is_err());
}

#[test]
fn empty_cursor_reports_unexpected_end() {
    let mut d = Deserializer::new(Vec::new(), Vec::new()).unwrap();
    assert_eq!(d.next().unwrap_err().error, ErrorType::UnexpectedEnd);
    assert_eq!(d.parse_signed().unwrap_err().error, ErrorType::UnexpectedEnd);
}

#[test]
fn exhausted_fresh_cursor_reports_offset_zero() {
    let mut d = Deserializer::new(b"  ".to_vec(), Vec::new()).unwrap();
    assert_eq!(d.iidx, 0);
    let e = d.next().unwrap_err();
    assert_eq!(e.error, ErrorType::UnexpectedEnd);
    assert_eq!(e.index, 0);
}
