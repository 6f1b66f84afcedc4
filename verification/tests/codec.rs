use bytes::BytesMut;
use mcp_dap::dap::codec::DapCodec;

fn make_message(json: &str) -> BytesMut {
    let header = format!("Content-Length: {}\r\n\r\n", json.len());
    let mut buf = BytesMut::new();
    buf.extend_from_slice(header.as_bytes());
    buf.extend_from_slice(json.as_bytes());
    buf
}

fn value(text: &str) -> serde_json::Value {
    serde_json::from_str(text).unwrap()
}

#[test]
fn decode_valid_message() {
    let mut codec = DapCodec;
    let mut buf = make_message(r#"{"type":"event"}"#);
    let result = codec.decode(&mut buf).unwrap().unwrap();
    assert_eq!(result["type"], "event");
}

#[test]
fn encode_decode_roundtrip() {
    let mut codec = DapCodec;
    let sent = value(r#"{"seq": 1, "type": "request", "command": "initialize"}"#);
    let mut buf = BytesMut::new();
    codec.encode(sent.clone(), &mut buf).unwrap();
    let decoded = codec.decode(&mut buf).unwrap().unwrap();
    assert_eq!(sent, decoded);
}

#[test]
fn partial_header_returns_none() {
    let mut codec = DapCodec;
    let mut buf = BytesMut::from("Content-Length: 16\r\n");
    assert!(codec.decode(&mut buf).unwrap().is_none());
}

#[test]
fn partial_body_returns_none() {
    let mut codec = DapCodec;
    let mut buf = BytesMut::from("Content-Length: 100\r\n\r\n{\"short\":true}");
    assert!(codec.decode(&mut buf).unwrap().is_none());
}

#[test]
fn two_messages_in_one_buffer() {
    let mut codec = DapCodec;
    let json1 = r#"{"seq":1}"#;
    let json2 = r#"{"seq":2}"#;
    let mut buf = make_message(json1);
    buf.extend_from_slice(&make_message(json2));

    let first = codec.decode(&mut buf).unwrap().unwrap();
    assert_eq!(first["seq"], 1);
    let second = codec.decode(&mut buf).unwrap().unwrap();
    assert_eq!(second["seq"], 2);
}

#[test]
fn missing_content_length_is_err() {
    let mut codec = DapCodec;
    let mut buf = BytesMut::from("X-Custom: foo\r\n\r\n{}");
    let err = codec.decode(&mut buf).unwrap_err();
    assert!(err.to_string().contains("Content-Length"));
}

#[test]
fn non_numeric_content_length_is_err() {
    let mut codec = DapCodec;
    let mut buf = BytesMut::from("Content-Length: abc\r\n\r\n{}");
    let err = codec.decode(&mut buf).unwrap_err();
    assert!(err.to_string().contains("invalid digit"));
}

#[test]
fn oversized_content_length_is_err() {
    let mut codec = DapCodec;
    let mut buf = BytesMut::from("Content-Length: 999999999999\r\n\r\n");
    let err = codec.decode(&mut buf).unwrap_err();
    assert!(err.to_string().contains("exceeds maximum"));
}

#[test]
fn extra_headers_before_content_length() {
    let mut codec = DapCodec;
    let json = r#"{"ok":true}"#;
    let header = format!("X-Extra: value\r\nContent-Length: {}\r\n\r\n", json.len());
    let mut buf = BytesMut::new();
    buf.extend_from_slice(header.as_bytes());
    buf.extend_from_slice(json.as_bytes());
    let result = codec.decode(&mut buf).unwrap().unwrap();
    assert_eq!(result["ok"], true);
}

#[test]
fn utf8_json_body_with_multibyte_chars() {
    let mut codec = DapCodec;
    let json = r#"{"msg":"hello 🌍"}"#;
    let mut buf = make_message(json);
    let result = codec.decode(&mut buf).unwrap().unwrap();
    assert_eq!(result["msg"], "hello 🌍");
}

#[test]
fn oversized_header_without_separator_is_err() {
    let mut codec = DapCodec;
    let junk = vec![b'A'; 9000]; // > MAX_HEADER_SIZE
    let mut buf = BytesMut::from(&junk[..]);
    let err = codec.decode(&mut buf).unwrap_err();
    assert!(err.to_string().contains("separator"));
}

#[test]
fn content_length_value_is_trimmed_and_may_have_plus() {
    let mut codec = DapCodec;
    let mut buf = BytesMut::from("Content-Length:  +2 \r\n\r\n{}rest");
    let v = codec.decode(&mut buf).unwrap().unwrap();
    assert_eq!(v, value("{}"));
    assert_eq!(&buf[..], b"rest");
}

#[test]
fn empty_content_length_is_err() {
    let mut codec = DapCodec;
    let mut buf = BytesMut::from("Content-Length: \r\n\r\n{}");
    let err = codec.decode(&mut buf).unwrap_err();
    assert_eq!(err.to_string(), "codec error: cannot parse integer from empty string");
    assert_eq!(buf.len(), 22);
}

#[test]
fn invalid_json_body_consumes_message() {
    let mut codec = DapCodec;
    let mut buf = BytesMut::from("Content-Length: 3\r\n\r\n{x}tail");
    assert!(codec.decode(&mut buf).is_err());
    assert_eq!(&buf[..], b"tail");
}

#[test]
fn too_large_message_exact_text() {
    let mut codec = DapCodec;
    let mut buf = BytesMut::from("Content-Length: 1048577\r\n\r\n");
    let err = codec.decode(&mut buf).unwrap_err();
    assert_eq!(err.to_string(), "codec error: Content-Length 1048577 exceeds maximum 1048576");
}

#[test]
fn encode_writes_frame() {
    let mut codec = DapCodec;
    let mut buf = BytesMut::from("x");
    codec.encode(value("[1,2]"), &mut buf).unwrap();
    assert_eq!(&buf[..], b"xContent-Length: 5\r\n\r\n[1,2]");
}

#[test]
fn non_utf8_header_is_err_and_kept() {
    let mut codec = DapCodec;
    let bytes = b"Content-Length: 2\xff\r\n\r\n{}".to_vec();
    let mut buf = BytesMut::from(&bytes[..]);
    let err = codec.decode(&mut buf).unwrap_err();
    assert!(matches!(err, mcp_dap::error::AppError::Codec(_)));
    assert!(err.to_string().starts_with("codec error: "));
    assert_eq!(&buf[..], &bytes[..]);
}

#[test]
fn framed_body_reads_back_with_rest() {
    let mut codec = DapCodec;
    let mut buf = BytesMut::new();
    codec.encode(value(r#"{"a":[1,2,{"b":null}]}"#), &mut buf).unwrap();
    buf.extend_from_slice(b"Content-Len");
    let decoded = codec.decode(&mut buf).unwrap().unwrap();
    assert_eq!(decoded, value(r#"{"a":[1,2,{"b":null}]}"#));
    assert_eq!(&buf[..], b"Content-Len");
    assert!(codec.decode(&mut buf).unwrap().is_none());
}
