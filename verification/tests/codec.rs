//! Decoder and encoder behavior on concrete frames.

use resp_kv::decode::decode;
use resp_kv::encode::encode;
use resp_kv::resp::{DecodeError, RespType};

fn bulk(s: &[u8]) -> RespType {
    RespType::BulkString(Some(s.to_vec()))
}

fn array(parts: Vec<RespType>) -> RespType {
    RespType::Array(Some(parts))
}

#[test]
fn decode_set_command_frame() {
    let input = b"*3\r\n$3\r\nSET\r\n$3\r\nfoo\r\n$3\r\nbar\r\n";
    let got = decode(input).unwrap();
    assert_eq!(got, array(vec![bulk(b"SET"), bulk(b"foo"), bulk(b"bar")]));
}

#[test]
fn decode_null_markers() {
    assert_eq!(decode(b"*-1\r\n").unwrap(), RespType::Array(None));
    assert_eq!(decode(b"$-1\r\n").unwrap(), RespType::BulkString(None));
}

#[test]
fn decode_empty_array_and_empty_bulk() {
    assert_eq!(decode(b"*0\r\n").unwrap(), array(vec![]));
    assert_eq!(decode(b"$0\r\n\r\n").unwrap(), bulk(b""));
}

#[test]
fn decode_truncated_array_missing_element() {
    // two elements declared, one present
    assert_eq!(decode(b"*2\r\n$3\r\nSET\r\n"), Err(DecodeError::Truncated));
}

#[test]
fn decode_truncated_bulk_payload() {
    assert_eq!(decode(b"$5\r\nab"), Err(DecodeError::Truncated));
}

#[test]
fn decode_truncated_header_line() {
    assert_eq!(decode(b"*12"), Err(DecodeError::Truncated));
    assert_eq!(decode(b"$3"), Err(DecodeError::Truncated));
    assert_eq!(decode(b""), Err(DecodeError::Truncated));
}

#[test]
fn decode_payload_without_terminator() {
    assert_eq!(decode(b"$3\r\nabcXY"), Err(DecodeError::MissingCrlf));
}

#[test]
fn decode_non_numeric_count() {
    assert_eq!(decode(b"*x\r\n"), Err(DecodeError::BadCount));
    assert_eq!(decode(b"$\r\n"), Err(DecodeError::BadCount));
}

#[test]
fn decode_negative_count_other_than_null() {
    assert_eq!(decode(b"*-2\r\n"), Err(DecodeError::BadCount));
    assert_eq!(decode(b"$-10\r\n"), Err(DecodeError::BadCount));
}

#[test]
fn decode_junk_after_count() {
    assert_eq!(decode(b"*12x\r\n"), Err(DecodeError::MissingCrlf));
}

#[test]
fn decode_huge_count_is_truncated() {
    assert_eq!(
        decode(b"*99999999999999999999999999\r\n"),
        Err(DecodeError::Truncated)
    );
}

#[test]
fn decode_unsupported_nested_element() {
    assert_eq!(decode(b"*1\r\n+x\r\n"), Err(DecodeError::BadElement));
}

#[test]
fn decode_tolerates_non_array_input() {
    assert_eq!(
        decode(b"hello"),
        Ok(RespType::SimpleString(b"hello".to_vec()))
    );
}

#[test]
fn decode_ignores_bytes_after_first_frame() {
    assert_eq!(decode(b"*1\r\n$1\r\na\r\nEXTRA").unwrap(), array(vec![bulk(b"a")]));
}

#[test]
fn decode_accepts_leading_zeros_in_length() {
    assert_eq!(decode(b"$02\r\nab\r\n").unwrap(), bulk(b"ab"));
}

#[test]
fn decode_payload_may_contain_crlf() {
    assert_eq!(decode(b"$4\r\na\r\nb\r\n").unwrap(), bulk(b"a\r\nb"));
}

#[test]
fn encode_produces_wire_bytes() {
    let req = array(vec![bulk(b"SET"), bulk(b"k"), bulk(b"v")]);
    assert_eq!(
        encode(&req),
        b"*3\r\n$3\r\nSET\r\n$1\r\nk\r\n$1\r\nv\r\n".to_vec()
    );
    assert_eq!(encode(&RespType::BulkString(None)), b"$-1\r\n".to_vec());
    assert_eq!(encode(&RespType::Array(None)), b"*-1\r\n".to_vec());
    assert_eq!(encode(&RespType::SimpleString(b"OK".to_vec())), b"+OK\r\n".to_vec());
}

#[test]
fn encode_then_decode_round_trips() {
    let req = array(vec![bulk(b"SET"), bulk(b"some key"), bulk(b"some\r\nvalue")]);
    let wire = encode(&req);
    assert_eq!(decode(&wire).unwrap(), req);

    let nested = array(vec![bulk(b"GET"), RespType::BulkString(None), array(vec![])]);
    let wire = encode(&nested);
    assert_eq!(decode(&wire).unwrap(), nested);
}

#[test]
fn decode_error_messages() {
    assert_eq!(DecodeError::Truncated.message(), "truncated input");
    assert_eq!(DecodeError::MissingCrlf.message(), "missing CRLF terminator");
    assert_eq!(DecodeError::BadCount.message(), "invalid count or length");
    assert_eq!(DecodeError::BadElement.message(), "unsupported element type");
}
