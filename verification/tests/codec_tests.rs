//! The wire codec on concrete frames: exact encodings, decoding of every
//! reply variant, incomplete-frame buffering, malformed-frame rejection,
//! and the encode-then-decode round trip of a command's argument list.

use rustis::codec::{encode_command, Value};
use rustis::command::cmd;
use rustis::decode::{decode_value, DecodeResult};

fn decoded(bytes: &[u8]) -> (Value, usize) {
    match decode_value(bytes) {
        DecodeResult::Complete(v, n) => (v, n),
        DecodeResult::Incomplete => panic!("unexpectedly incomplete"),
        DecodeResult::Malformed => panic!("unexpectedly malformed"),
    }
}

fn is_incomplete(bytes: &[u8]) -> bool {
    matches!(decode_value(bytes), DecodeResult::Incomplete)
}

fn is_malformed(bytes: &[u8]) -> bool {
    matches!(decode_value(bytes), DecodeResult::Malformed)
}

#[test]
fn encode_exact_bytes() {
    let c = cmd("GET").arg("key");
    assert_eq!(encode_command(&c), b"*2\r\n$3\r\nGET\r\n$3\r\nkey\r\n".to_vec());

    let empty_arg = cmd("ECHO").arg("");
    assert_eq!(encode_command(&empty_arg), b"*2\r\n$4\r\nECHO\r\n$0\r\n\r\n".to_vec());

    let binary = cmd("SET").arg("k").arg(vec![0u8, 13, 10, 255]);
    assert_eq!(
        encode_command(&binary),
        [
            b"*3\r\n$3\r\nSET\r\n$1\r\nk\r\n$4\r\n".to_vec(),
            vec![0u8, 13, 10, 255],
            b"\r\n".to_vec()
        ]
        .concat()
    );
}

#[test]
fn decode_simple_string() {
    let (v, n) = decoded(b"+OK\r\n");
    assert_eq!(v, Value::SimpleString(b"OK".to_vec()));
    assert_eq!(n, 5);
}

#[test]
fn decode_error_reply() {
    let (v, n) = decoded(b"-ERR unknown command\r\n");
    assert_eq!(v, Value::Error(b"ERR unknown command".to_vec()));
    assert_eq!(n, 22);
}

#[test]
fn decode_integers() {
    assert_eq!(decoded(b":0\r\n"), (Value::Integer(0), 4));
    assert_eq!(decoded(b":12345\r\n"), (Value::Integer(12345), 8));
    assert_eq!(decoded(b":-1\r\n"), (Value::Integer(-1), 5));
    assert_eq!(
        decoded(b":9223372036854775807\r\n"),
        (Value::Integer(i64::MAX), 22)
    );
    assert_eq!(
        decoded(b":-9223372036854775808\r\n"),
        (Value::Integer(i64::MIN), 23)
    );
    assert!(is_malformed(b":9223372036854775808\r\n"));
    assert!(is_malformed(b":007\r\n"));
    assert!(is_malformed(b":-0\r\n"));
    assert!(is_malformed(b":\r\n"));
}

#[test]
fn decode_double_boolean_null() {
    assert_eq!(decoded(b",3.25\r\n"), (Value::Double(b"3.25".to_vec()), 7));
    assert_eq!(decoded(b"#t\r\n"), (Value::Boolean(true), 4));
    assert_eq!(decoded(b"#f\r\n"), (Value::Boolean(false), 4));
    assert_eq!(decoded(b"_\r\n"), (Value::Null, 3));
    assert!(is_malformed(b"#x\r\n"));
    assert!(is_malformed(b"_x\r\n"));
}

#[test]
fn decode_bulk_string_binary_safe() {
    let (v, n) = decoded(b"$4\r\nab\0c\r\n");
    assert_eq!(v, Value::BulkString(vec![97, 98, 0, 99]));
    assert_eq!(n, 10);

    let (v, n) = decoded(b"$0\r\n\r\n");
    assert_eq!(v, Value::BulkString(Vec::new()));
    assert_eq!(n, 6);

    let with_crlf = b"$4\r\n\r\n\r\n\r\n";
    assert_eq!(decoded(with_crlf), (Value::BulkString(vec![13, 10, 13, 10]), 10));
}

#[test]
fn decode_array_preserves_order() {
    let (v, n) = decoded(b"*3\r\n:1\r\n+two\r\n$1\r\n3\r\n");
    assert_eq!(
        v,
        Value::Array(vec![
            Value::Integer(1),
            Value::SimpleString(b"two".to_vec()),
            Value::BulkString(b"3".to_vec()),
        ])
    );
    assert_eq!(n, 21);

    assert_eq!(decoded(b"*0\r\n"), (Value::Array(Vec::new()), 4));
}

#[test]
fn decode_map_and_set() {
    let (v, _) = decoded(b"%2\r\n+a\r\n:1\r\n+b\r\n:2\r\n");
    assert_eq!(
        v,
        Value::MapPairs(vec![
            (Value::SimpleString(b"a".to_vec()), Value::Integer(1)),
            (Value::SimpleString(b"b".to_vec()), Value::Integer(2)),
        ])
    );

    let (v, _) = decoded(b"~2\r\n:2\r\n:1\r\n");
    assert_eq!(v, Value::SetItems(vec![Value::Integer(2), Value::Integer(1)]));
}

#[test]
fn decode_nested_array() {
    let (v, n) = decoded(b"*2\r\n*1\r\n:7\r\n_\r\n");
    assert_eq!(
        v,
        Value::Array(vec![Value::Array(vec![Value::Integer(7)]), Value::Null])
    );
    assert_eq!(n, 15);
}

#[test]
fn decode_incomplete_frames_ask_for_more() {
    assert!(is_incomplete(b""));
    assert!(is_incomplete(b"+OK"));
    assert!(is_incomplete(b"+OK\r"));
    assert!(is_incomplete(b"$10\r\nabc"));
    assert!(is_incomplete(b"*2\r\n:1\r\n"));
    assert!(is_incomplete(b"%1\r\n+a\r\n"));
}

#[test]
fn decode_malformed_frames_are_rejected() {
    assert!(is_malformed(b"?x\r\n"));
    assert!(is_malformed(b"+O\nK\r\n"));
    assert!(is_malformed(b"$2x\r\nab\r\n"));
    assert!(is_malformed(b"$2\r\nabcd"));
    assert!(is_malformed(b"*-1\r\n"));
}

#[test]
fn encode_then_decode_reproduces_argument_bytes() {
    let c = cmd("EVAL")
        .arg("")
        .arg(vec![0u8, 1, 2, 13, 10])
        .arg("plain");
    let bytes = encode_command(&c);
    let (v, n) = decoded(&bytes);
    assert_eq!(n, bytes.len());
    assert_eq!(
        v,
        Value::Array(vec![
            Value::BulkString(b"EVAL".to_vec()),
            Value::BulkString(b"".to_vec()),
            Value::BulkString(vec![0, 1, 2, 13, 10]),
            Value::BulkString(b"plain".to_vec()),
        ])
    );
}
