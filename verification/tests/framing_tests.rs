use graphify::framing::{
    body_length, content_length_of, decode_body, encode, read_all, read_frame_bytes, write_message, ByteStream,
    FrameError, HeaderDecoder, HeaderStep, MAX_BODY_BYTES,
};

#[test]
fn test_encode_framing() -> Result<(), String> {
    let framed = encode(r#"{"jsonrpc":"2.0"}"#);
    let text = String::from_utf8(framed).map_err(|e| e.to_string())?;
    assert!(text.starts_with("Content-Length: 17\r\n\r\n"), "got: {text}");
    assert!(text.ends_with(r#"{"jsonrpc":"2.0"}"#));
    Ok(())
}

#[test]
fn test_round_trip_single_message() -> Result<(), FrameError> {
    let body = r#"{"jsonrpc":"2.0","id":1,"method":"initialize"}"#;
    let mut stream = ByteStream::new(encode(body));
    let decoded = stream.read_message()?;
    assert_eq!(decoded.as_deref(), Some(body));
    Ok(())
}

#[test]
fn test_round_trip_multi_message() -> Result<(), FrameError> {
    let bodies = [
        r#"{"jsonrpc":"2.0","id":1,"method":"a"}"#,
        r#"{"jsonrpc":"2.0","id":2,"method":"b","params":{"x":1}}"#,
    ];
    let mut bytes = Vec::new();
    for b in &bodies {
        bytes.extend_from_slice(&encode(b));
    }
    let decoded = read_all(&mut ByteStream::new(bytes))?;
    assert_eq!(decoded, bodies.to_vec());
    Ok(())
}

#[test]
fn test_clean_eof_is_none() -> Result<(), FrameError> {
    let mut stream = ByteStream::new(Vec::new());
    assert!(stream.read_message()?.is_none());
    Ok(())
}

#[test]
fn test_eof_mid_header_is_error() {
    let mut stream = ByteStream::new(b"Content-Length: 5\r\n".to_vec());
    assert!(stream.read_message().is_err(), "truncated header must error");
}

#[test]
fn test_missing_content_length_is_error() {
    let mut stream = ByteStream::new(b"X-Foo: bar\r\n\r\n{}".to_vec());
    assert!(stream.read_message().is_err(), "missing header must error");
}

#[test]
fn test_truncated_body_is_error() {
    let mut stream = ByteStream::new(b"Content-Length: 100\r\n\r\nshort".to_vec());
    assert!(stream.read_message().is_err(), "truncated body must error");
}

#[test]
fn read_errors_name_their_cause() {
    assert_eq!(
        ByteStream::new(b"Content-Length: 5\r\n".to_vec()).read_message(),
        Err(FrameError::HeaderEof)
    );
    assert_eq!(
        ByteStream::new(b"X-Foo: bar\r\n\r\n{}".to_vec()).read_message(),
        Err(FrameError::MissingContentLength)
    );
    assert_eq!(
        ByteStream::new(b"Content-Length: 100\r\n\r\nshort".to_vec()).read_message(),
        Err(FrameError::BodyEof)
    );
    assert_eq!(
        ByteStream::new(b"Content-Length: abc\r\n\r\n".to_vec()).read_message(),
        Err(FrameError::InvalidContentLength("abc".to_string()))
    );
    assert_eq!(
        ByteStream::new(b"Content-Length: 9000000\r\n\r\n".to_vec()).read_message(),
        Err(FrameError::BodyTooLarge(9_000_000))
    );
    assert_eq!(
        ByteStream::new(b"Content-Length: 2\r\n\r\n\xff\xfe".to_vec()).read_message(),
        Err(FrameError::InvalidUtf8)
    );
    let mut big = vec![b'a'; 5000];
    big.extend_from_slice(b"\r\n\r\n");
    assert_eq!(ByteStream::new(big).read_message(), Err(FrameError::HeaderTooLarge));
}

#[test]
fn header_name_is_case_insensitive_and_value_trimmed() {
    assert_eq!(content_length_of(b"content-length:   42  \r\n\r\n"), Ok(42));
    assert_eq!(content_length_of(b"X-A: 1\r\nCONTENT-LENGTH: 7\r\n\r\n"), Ok(7));
    assert_eq!(content_length_of(b"X-A: 1\r\n\r\n"), Err(FrameError::MissingContentLength));
}

#[test]
fn body_limit_is_eight_mebibytes() {
    assert_eq!(MAX_BODY_BYTES, 8 * 1024 * 1024);
}

#[test]
fn decode_body_rejects_invalid_utf8() {
    assert_eq!(decode_body(b"hi".to_vec()), Ok("hi".to_string()));
    assert_eq!(decode_body(vec![0xc3]), Err(FrameError::InvalidUtf8));
}

#[test]
fn write_message_appends_a_frame() {
    let mut out = b"xyz".to_vec();
    write_message(&mut out, "{}");
    assert_eq!(out, b"xyzContent-Length: 2\r\n\r\n{}".to_vec());
}

#[test]
fn read_frame_reports_consumed_bytes() {
    let mut bytes = encode("abc");
    bytes.extend_from_slice(b"tail");
    let r = read_frame_bytes(&bytes);
    assert_eq!(r, Ok(Some(("abc".to_string(), 24))));
}

#[test]
fn read_message_advances_past_one_frame() -> Result<(), FrameError> {
    let mut bytes = encode("one");
    bytes.extend_from_slice(&encode("two"));
    let mut stream = ByteStream::new(bytes);
    assert_eq!(stream.read_message()?, Some("one".to_string()));
    assert_eq!(stream.read_message()?, Some("two".to_string()));
    assert_eq!(stream.read_message()?, None);
    Ok(())
}

#[test]
fn header_decoder_completes_on_blank_line() {
    let mut d = HeaderDecoder::new();
    assert!(d.is_empty());
    let mut last = HeaderStep::Continue;
    for b in b"Content-Length: 2\r\n\r\n" {
        last = d.push_byte(*b);
    }
    assert_eq!(last, HeaderStep::Complete);
    assert_eq!(content_length_of(d.header_bytes()), Ok(2));
}

#[test]
fn header_decoder_reports_oversized_block() {
    let mut d = HeaderDecoder::new();
    let mut last = HeaderStep::Continue;
    for _ in 0..4097 {
        last = d.push_byte(b'a');
        if last != HeaderStep::Continue {
            break;
        }
    }
    assert_eq!(last, HeaderStep::TooLarge);
}

#[test]
fn frame_errors_read_as_text() {
    assert_eq!(FrameError::HeaderEof.message(), "EOF in message header");
    assert_eq!(FrameError::InvalidContentLength("abc".to_string()).message(), "invalid Content-Length: abc");
    assert_eq!(FrameError::BodyTooLarge(9000000).message(), "body too large: 9000000");
    assert_eq!(FrameError::MissingContentLength.message(), "missing Content-Length header");
}

#[test]
fn body_length_refuses_oversized_bodies() {
    assert_eq!(body_length(b"Content-Length: 12\r\n\r\n"), Ok(12));
    assert_eq!(body_length(b"Content-Length: 8388609\r\n\r\n"), Err(FrameError::BodyTooLarge(8388609)));
    assert_eq!(body_length(b"X-Other: 1\r\n\r\n"), Err(FrameError::MissingContentLength));
}

#[test]
fn failed_reads_take_what_was_read_before_the_failure() -> Result<(), FrameError> {
    // A header without a body length takes the header only.
    let mut bytes = b"X-Foo: bar\r\n\r\n".to_vec();
    bytes.extend_from_slice(&encode("{}"));
    let mut stream = ByteStream::new(bytes);
    assert!(stream.read_message().is_err());
    assert_eq!(stream.read_message()?.as_deref(), Some("{}"));
    // A truncated body takes the rest of the stream.
    let mut stream = ByteStream::new(b"Content-Length: 100\r\n\r\nshort".to_vec());
    assert!(stream.read_message().is_err());
    assert!(stream.read_message()?.is_none());
    // Invalid UTF-8 takes the header and the body.
    let mut bytes = b"Content-Length: 2\r\n\r\n\xff\xfe".to_vec();
    bytes.extend_from_slice(&encode("ok"));
    let mut stream = ByteStream::new(bytes);
    assert!(stream.read_message().is_err());
    assert_eq!(stream.read_message()?.as_deref(), Some("ok"));
    Ok(())
}
