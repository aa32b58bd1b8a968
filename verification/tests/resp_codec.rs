use simple_redis::{BulkString, RespArray, RespError, RespFrame, RespNull, SimpleError,
    SimpleString};

fn bulk(s: &str) -> RespFrame {
    RespFrame::BulkString(BulkString::new(s.as_bytes().to_vec()))
}

#[test]
fn test_simple_string_encode() {
    let frame: RespFrame = RespFrame::SimpleString(SimpleString::new("OK".to_string()));
    assert_eq!(frame.encode(), b"+OK\r\n".to_vec());
}

#[test]
fn test_simple_string_decode() {
    let mut buf: Vec<u8> = Vec::new();
    buf.extend_from_slice(b"+OK\r\n");

    let frame = SimpleString::decode(&mut buf).unwrap();
    assert_eq!(frame, SimpleString::new("OK".to_string()));

    buf.extend_from_slice(b"+hello\r");
    let ret = SimpleString::decode(&mut buf);
    assert_eq!(ret.unwrap_err(), RespError::NotComplete);

    buf.push(b'\n');
    let frame = SimpleString::decode(&mut buf).unwrap();
    assert_eq!(frame, SimpleString::new("hello".to_string()));
}

#[test]
fn test_error_encode() {
    let frame: RespFrame = RespFrame::SimpleError(SimpleError::new("Error message".to_string()));
    assert_eq!(frame.encode(), b"-Error message\r\n".to_vec());
}

#[test]
fn test_simple_error_decode() {
    let mut buf: Vec<u8> = Vec::new();
    buf.extend_from_slice(b"-Error message\r\n");

    let frame = SimpleError::decode(&mut buf).unwrap();
    assert_eq!(frame, SimpleError::new("Error message".to_string()));
}

#[test]
fn test_null_encode() {
    let frame: RespFrame = RespFrame::Null(RespNull);
    assert_eq!(frame.encode(), b"_\r\n".to_vec());
}

#[test]
fn test_null_decode() {
    let mut buf: Vec<u8> = Vec::new();
    buf.extend_from_slice(b"_\r\n");

    let frame = RespNull::decode(&mut buf).unwrap();
    assert_eq!(frame, RespNull);
    assert!(buf.is_empty());
}

#[test]
fn test_bulk_string_encode() {
    let frame: RespFrame = RespFrame::BulkString(BulkString::new("hello".as_bytes().to_vec()));
    assert_eq!(frame.encode(), b"$5\r\nhello\r\n".to_vec());
}

#[test]
fn test_null_bulk_string_encode() {
    let frame: RespFrame = RespFrame::BulkString(BulkString::null());
    assert_eq!(frame.encode(), b"$-1\r\n".to_vec());
}

#[test]
fn test_bulk_string_decode() {
    let mut buf: Vec<u8> = Vec::new();
    buf.extend_from_slice(b"$5\r\nhello\r\n");

    let frame = BulkString::decode(&mut buf).unwrap();
    assert_eq!(frame, BulkString::new(b"hello".to_vec()));

    buf.extend_from_slice(b"$5\r\nhello");
    let ret = BulkString::decode(&mut buf);
    assert_eq!(ret.unwrap_err(), RespError::NotComplete);

    buf.extend_from_slice(b"\r\n");
    let frame = BulkString::decode(&mut buf).unwrap();
    assert_eq!(frame, BulkString::new(b"hello".to_vec()));
}

#[test]
fn test_null_bulk_string_decode() {
    let mut buf: Vec<u8> = Vec::new();
    buf.extend_from_slice(b"$-1\r\n");

    let frame = BulkString::decode(&mut buf).unwrap();
    assert_eq!(frame, BulkString::null());
}

#[test]
fn test_array_encode() {
    let frame: RespFrame = RespFrame::Array(RespArray::new(vec![
        bulk("set"),
        bulk("hello"),
        bulk("world"),
    ]));
    assert_eq!(
        frame.encode(),
        b"*3\r\n$3\r\nset\r\n$5\r\nhello\r\n$5\r\nworld\r\n".to_vec()
    );
}

#[test]
fn test_null_array_encode() {
    let frame: RespFrame = RespFrame::Array(RespArray::null());
    assert_eq!(frame.encode(), b"*-1\r\n".to_vec());
}

#[test]
fn test_array_decode() {
    let mut buf: Vec<u8> = Vec::new();
    buf.extend_from_slice(b"*2\r\n$3\r\nset\r\n$5\r\nhello\r\n");

    let frame = RespArray::decode(&mut buf).unwrap();
    assert_eq!(frame, RespArray::new(vec![bulk("set"), bulk("hello")]));

    buf.extend_from_slice(b"*2\r\n$3\r\nset\r\n");
    let ret = RespArray::decode(&mut buf);
    assert_eq!(ret.unwrap_err(), RespError::NotComplete);

    buf.extend_from_slice(b"$5\r\nhello\r\n");
    let frame = RespArray::decode(&mut buf).unwrap();
    assert_eq!(frame, RespArray::new(vec![bulk("set"), bulk("hello")]));
}

#[test]
fn test_null_array_decode() {
    let mut buf: Vec<u8> = Vec::new();
    buf.extend_from_slice(b"*-1\r\n");

    let frame = RespArray::decode(&mut buf).unwrap();
    assert_eq!(frame, RespArray::null());
}

#[test]
fn integer_and_boolean_round_trip() {
    for f in [
        RespFrame::Integer(0),
        RespFrame::Integer(7),
        RespFrame::Integer(-123),
        RespFrame::Integer(i64::MAX),
        RespFrame::Integer(i64::MIN),
        RespFrame::Boolean(true),
        RespFrame::Boolean(false),
    ] {
        let mut buf = f.encode();
        let back = RespFrame::decode(&mut buf).unwrap();
        assert_eq!(back, f);
        assert!(buf.is_empty());
    }
    assert_eq!(RespFrame::Integer(-123).encode(), b":-123\r\n".to_vec());
    assert_eq!(RespFrame::Boolean(true).encode(), b"#t\r\n".to_vec());
    assert_eq!(RespFrame::Boolean(false).encode(), b"#f\r\n".to_vec());
}

#[test]
fn nested_frame_round_trip_keeps_trailing_bytes() {
    let inner = RespFrame::Array(RespArray::new(vec![
        RespFrame::Integer(42),
        RespFrame::BulkString(BulkString::new(b"a\r\nb".to_vec())),
        RespFrame::Array(RespArray::null()),
    ]));
    let frame = RespFrame::Array(RespArray::new(vec![
        inner,
        RespFrame::Null(RespNull),
        RespFrame::SimpleString(SimpleString::new("fine".to_string())),
        RespFrame::BulkString(BulkString::new(Vec::new())),
        RespFrame::Array(RespArray::new(Vec::new())),
    ]));
    let mut buf = frame.encode();
    buf.extend_from_slice(b"+next\r\n");
    let back = RespFrame::decode(&mut buf).unwrap();
    assert_eq!(back, frame);
    assert_eq!(buf, b"+next\r\n".to_vec());
}

#[test]
fn null_forms_encode_distinctly() {
    let null = RespFrame::Null(RespNull).encode();
    let null_bulk = RespFrame::BulkString(BulkString::null()).encode();
    let null_array = RespFrame::Array(RespArray::null()).encode();
    let empty_bulk = RespFrame::BulkString(BulkString::new(Vec::new())).encode();
    let empty_array = RespFrame::Array(RespArray::new(Vec::new())).encode();
    assert_eq!(null, b"_\r\n".to_vec());
    assert_eq!(null_bulk, b"$-1\r\n".to_vec());
    assert_eq!(null_array, b"*-1\r\n".to_vec());
    assert_eq!(empty_bulk, b"$0\r\n\r\n".to_vec());
    assert_eq!(empty_array, b"*0\r\n".to_vec());
    assert_ne!(null, null_bulk);
    assert_ne!(null, null_array);
    assert_ne!(null_bulk, null_array);
    assert_ne!(null_bulk, empty_bulk);
    assert_ne!(null_array, empty_array);
    assert_ne!(
        RespFrame::BulkString(BulkString::null()),
        RespFrame::BulkString(BulkString::new(Vec::new()))
    );
    assert_ne!(
        RespFrame::Array(RespArray::null()),
        RespFrame::Array(RespArray::new(Vec::new()))
    );
}

#[test]
fn split_at_every_boundary_is_incomplete_then_complete() {
    let frame = RespFrame::Array(RespArray::new(vec![
        bulk("get"),
        bulk("hello"),
        RespFrame::Integer(-8),
        RespFrame::Null(RespNull),
    ]));
    let encoded = frame.encode();
    for split in 0..encoded.len() {
        let mut buf: Vec<u8> = encoded[..split].to_vec();
        let first = RespFrame::decode(&mut buf);
        assert_eq!(first.unwrap_err(), RespError::NotComplete);
        assert_eq!(buf, encoded[..split].to_vec());
        buf.extend_from_slice(&encoded[split..]);
        let second = RespFrame::decode(&mut buf).unwrap();
        assert_eq!(second, frame);
        assert!(buf.is_empty());
    }
}

#[test]
fn malformed_inputs_are_rejected() {
    for bad in [
        &b"!\r\n"[..],
        &b":12a\r\n"[..],
        &b":\r\n"[..],
        &b"$-2\r\n"[..],
        &b"$2x\r\n"[..],
        &b"*-3\r\n"[..],
        &b"_x\r\n"[..],
        &b"#x\r\n"[..],
        &b"$3\r\nabcXY"[..],
        &b":99999999999999999999\r\n"[..],
    ] {
        let mut buf = bad.to_vec();
        let ret = RespFrame::decode(&mut buf);
        assert_eq!(ret.unwrap_err(), RespError::InvalidFrame, "input {:?}", bad);
        assert_eq!(buf, bad.to_vec());
    }
}

#[test]
fn expect_length_counts_one_frame() {
    let frame = RespFrame::Array(RespArray::new(vec![bulk("get"), bulk("hello")]));
    let mut encoded = frame.encode();
    let total = encoded.len();
    encoded.extend_from_slice(b"extra trailing");
    assert_eq!(RespFrame::expect_length(&encoded).unwrap(), total);
    assert_eq!(
        RespFrame::expect_length(b"+OK").unwrap_err(),
        RespError::NotComplete
    );
}
