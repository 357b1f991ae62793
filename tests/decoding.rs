use h1_server::ascii::non_ascii_printable_to_percent_encoded;
use h1_server::decode::{decode, parse_content_length, BodyFraming};
use h1_server::error::Error;
use h1_server::head::{normalize_request_line, HeadReader, HeadStep};
use h1_server::options::ServerOptions;
use h1_server::request::{resolve_version, HttpVersion};
use h1_server::MAX_HEAD_LENGTH;

fn read_all(data: &[u8], max: usize) -> (HeadStep, Vec<u8>) {
    let mut reader = HeadReader::new(max);
    let mut rest = data;
    loop {
        let end = rest.iter().position(|b| *b == b'\n').map(|i| i + 1).unwrap_or(rest.len());
        let (line, tail) = rest.split_at(end);
        rest = tail;
        let step = reader.push_line(line);
        if step != HeadStep::Pending {
            return (step, reader.buffer().clone());
        }
    }
}

fn decode_text(text: &str, opts: &ServerOptions) -> Result<h1_server::decode::RequestHead, Error> {
    let (step, buf) = read_all(text.as_bytes(), MAX_HEAD_LENGTH);
    assert_eq!(step, HeadStep::Complete);
    decode(&buf, opts)
}

#[test]
fn percent_encodes_control_and_high_bytes() {
    let out = non_ascii_printable_to_percent_encoded(b"/a b\x01\xff~");
    assert_eq!(out, b"/a b%01%FF~".to_vec());
}

#[test]
fn request_line_target_is_encoded() {
    let out = normalize_request_line(b"GET /caf\xc3\xa9 HTTP/1.1\r\n").unwrap();
    assert_eq!(out, b"GET /caf%C3%A9 HTTP/1.1\r\n".to_vec());
}

#[test]
fn request_line_without_target() {
    assert_eq!(normalize_request_line(b"GET\r\n"), Err(Error::RequestPathMissing));
}

#[test]
fn head_without_line_feed_is_too_long() {
    let data = vec![b'a'; 64];
    let (step, _) = read_all(&data, 16);
    assert_eq!(step, HeadStep::Failed(Error::HeadersTooLong));
}

#[test]
fn head_reaching_bound_is_too_long() {
    let mut reader = HeadReader::new(8);
    assert_eq!(reader.push_line(b"GET / X\n"), HeadStep::Failed(Error::HeadersTooLong));
}

#[test]
fn empty_stream_is_end() {
    let mut reader = HeadReader::new(8);
    assert_eq!(reader.push_line(b""), HeadStep::End);
}

#[test]
fn bare_line_feeds_end_head() {
    let (step, buf) = read_all(b"GET / HTTP/1.1\nHost: a\n\nbody", 1024);
    assert_eq!(step, HeadStep::Complete);
    assert_eq!(buf, b"GET / HTTP/1.1\nHost: a\n\n".to_vec());
}

#[test]
fn decodes_simple_get() {
    let head = decode_text("GET /p?q HTTP/1.1\r\nHost: h.example\r\n\r\n", &ServerOptions::new()).unwrap();
    assert_eq!(head.url, b"http://h.example/p?q".to_vec());
    assert_eq!(head.version, HttpVersion::Http1_1);
    assert_eq!(head.method_token, b"GET".to_vec());
    assert_eq!(head.framing, BodyFraming::Empty);
    assert!(!head.expect_continue);
}

#[test]
fn decodes_fixed_length_body() {
    let head = decode_text("POST / HTTP/1.1\r\nHost: h\r\nContent-Length:  12 \r\n\r\n", &ServerOptions::new()).unwrap();
    assert_eq!(head.framing, BodyFraming::Fixed(12));
}

#[test]
fn decodes_chunked_body() {
    let head = decode_text("POST / HTTP/1.1\r\nHost: h\r\nTransfer-Encoding: Chunked\r\n\r\n", &ServerOptions::new()).unwrap();
    assert_eq!(head.framing, BodyFraming::Chunked);
}

#[test]
fn length_and_transfer_encoding_conflict() {
    let r = decode_text(
        "POST / HTTP/1.1\r\nHost: h\r\nContent-Length: 3\r\nTransfer-Encoding: chunked\r\n\r\n",
        &ServerOptions::new(),
    );
    assert_eq!(r.err(), Some(Error::ConflictingFraming));
    let r = decode_text(
        "POST / HTTP/1.1\r\nHost: h\r\nTransfer-Encoding: gzip\r\nContent-Length: 0\r\n\r\n",
        &ServerOptions::new(),
    );
    assert_eq!(r.err(), Some(Error::ConflictingFraming));
    let r = decode_text(
        "POST / HTTP/1.1\r\nHost: h\r\nContent-Length: x\r\nTransfer-Encoding: chunked\r\n\r\n",
        &ServerOptions::new(),
    );
    assert_eq!(r.err(), Some(Error::ConflictingFraming));
}

#[test]
fn first_line_split_across_reads() {
    let mut reader = HeadReader::new(1024);
    assert_eq!(reader.push_line(b"GET /a\x01"), HeadStep::Pending);
    assert_eq!(reader.push_line(b"b HTTP/1.1\r\n"), HeadStep::Pending);
    assert_eq!(reader.push_line(b"Host: h\r\n"), HeadStep::Pending);
    assert_eq!(reader.push_line(b"\r\n"), HeadStep::Complete);
    assert_eq!(reader.buffer().clone(), b"GET /a%01b HTTP/1.1\r\nHost: h\r\n\r\n".to_vec());
}

#[test]
fn stream_ending_in_line_without_target() {
    let mut reader = HeadReader::new(1024);
    assert_eq!(reader.push_line(b"GET"), HeadStep::Pending);
    assert_eq!(reader.push_line(b""), HeadStep::Failed(Error::RequestPathMissing));
}

#[test]
fn malformed_content_length() {
    let r = decode_text("POST / HTTP/1.1\r\nHost: h\r\nContent-Length: x1\r\n\r\n", &ServerOptions::new());
    assert_eq!(r.err(), Some(Error::MalformedContentLength));
}

#[test]
fn content_length_numbers() {
    assert_eq!(parse_content_length(b" 42\t"), Some(42));
    assert_eq!(parse_content_length(b"+7"), Some(7));
    assert_eq!(parse_content_length(b"18446744073709551615"), Some(u64::MAX));
    assert_eq!(parse_content_length(b"18446744073709551616"), None);
    assert_eq!(parse_content_length(b""), None);
    assert_eq!(parse_content_length(b"1 2"), None);
}

#[test]
fn http10_without_default_host() {
    let r = decode_text("GET / HTTP/1.0\r\n\r\n", &ServerOptions::new());
    assert_eq!(r.err(), Some(Error::HostHeaderMissing));
}

#[test]
fn http10_with_default_host() {
    let opts = ServerOptions::new().with_default_host("example.com");
    let head = decode_text("GET /index HTTP/1.0\r\n\r\n", &opts).unwrap();
    assert_eq!(head.version, HttpVersion::Http1_0);
    assert_eq!(head.url, b"http://example.com/index".to_vec());
}

#[test]
fn versions() {
    assert_eq!(resolve_version(false, Some(1)), Ok(HttpVersion::Http1_1));
    assert_eq!(resolve_version(true, None), Ok(HttpVersion::Http1_0));
    assert_eq!(resolve_version(false, Some(0)), Err(Error::HostHeaderMissing));
    assert_eq!(resolve_version(true, Some(2)), Err(Error::UnsupportedVersion(2)));
}

#[test]
fn unexpected_target_form() {
    let r = decode_text("GET not-a-url HTTP/1.1\r\nHost: h\r\n\r\n", &ServerOptions::new());
    assert_eq!(r.err(), Some(Error::UnexpectedURIFormat));
}

#[test]
fn absolute_target_ignores_host() {
    let head = decode_text("GET https://a.example/x HTTP/1.1\r\nHost: b.example\r\n\r\n", &ServerOptions::new()).unwrap();
    assert_eq!(head.url, b"https://a.example/x".to_vec());
}

#[test]
fn unrecognized_method() {
    let r = decode_text("FROB / HTTP/1.1\r\nHost: h\r\n\r\n", &ServerOptions::new());
    assert_eq!(r.err(), Some(Error::UnrecognizedMethod(b"FROB".to_vec())));
}

#[test]
fn non_utf8_header_value() {
    let (step, buf) = read_all(b"GET / HTTP/1.1\r\nHost: h\r\nX-A: \xff\r\n\r\n", 1024);
    assert_eq!(step, HeadStep::Complete);
    assert_eq!(decode(&buf, &ServerOptions::new()).err(), Some(Error::InvalidUtf8));
}

#[test]
fn partial_head() {
    assert_eq!(decode(b"GET / HTTP/1.1\r\nHost: h\r\n", &ServerOptions::new()).err(), Some(Error::PartialHead));
}

#[test]
fn expect_continue_is_noticed() {
    let head = decode_text(
        "POST / HTTP/1.1\r\nHost: h\r\nExpect: 100-continue\r\nContent-Length: 4\r\n\r\n",
        &ServerOptions::new(),
    )
    .unwrap();
    assert!(head.expect_continue);
}

#[test]
fn decoding_twice_agrees() {
    let text = "PUT /a%20b HTTP/1.1\r\nHost: h\r\nX-One: 1\r\nContent-Length: 3\r\n\r\n";
    let a = decode_text(text, &ServerOptions::new()).unwrap();
    let b = decode_text(text, &ServerOptions::new()).unwrap();
    assert_eq!(a.method, b.method);
    assert_eq!(a.url, b.url);
    assert_eq!(a.version, b.version);
    assert_eq!(a.framing, b.framing);
    assert_eq!(a.headers.len(), b.headers.len());
    for (x, y) in a.headers.iter().zip(b.headers.iter()) {
        assert_eq!(x.name, y.name);
        assert_eq!(x.value, y.value);
    }
}
