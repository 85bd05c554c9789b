use reqwless::client::{Error, HttpClient};
use reqwless::decode::{begin_payload, parse_head, payload_to_read, scan_header};
use reqwless::encode::encode_head;
use reqwless::number::parse_unsigned_bytes;
use reqwless::request::{Auth, ContentType, Method, Request, Response, Status};

/// Decodes `wire` as a connection would deliver it, in reads of the given sizes (the
/// last size repeats), into `buf`.
fn decode<'a>(wire: &[u8], reads: &[usize], buf: &'a mut [u8]) -> Result<Response<'a>, Error> {
    let mut offset = 0;
    let mut k = 0;
    let mut next_read = |dst: &mut [u8]| -> usize {
        let size = reads[k.min(reads.len() - 1)];
        k += 1;
        let n = size.min(dst.len()).min(wire.len() - offset);
        dst[..n].copy_from_slice(&wire[offset..offset + n]);
        offset += n;
        n
    };
    let mut pos = 0;
    let header_end = loop {
        let n = next_read(&mut buf[pos..]);
        pos += n;
        if let Some(end) = scan_header(buf, pos)? {
            break end;
        }
    };
    let mut pending = begin_payload(buf, header_end, pos)?;
    while pending.remaining > 0 {
        let n = next_read(&mut buf[pending.filled..pending.filled + pending.remaining]);
        pending.record_read(n);
    }
    let buf: &'a [u8] = buf;
    Ok(pending.into_response(buf))
}

#[test]
fn zero_content_length_gives_no_payload() {
    let mut buf = [0u8; 128];
    let r = decode(b"HTTP/1.1 204 No Content\r\nContent-Length: 0\r\n\r\n", &[64], &mut buf).unwrap();
    assert_eq!(r.status, Status::NoContent);
    assert!(r.payload.is_none());
    assert!(r.content_type.is_none());
}

#[test]
fn payload_in_one_read() {
    let mut buf = [0u8; 128];
    let wire = b"HTTP/1.1 200 OK\r\nContent-Length: 5\r\n\r\nhello";
    let r = decode(wire, &[1000], &mut buf).unwrap();
    assert_eq!(r.status, Status::Okay);
    assert_eq!(r.payload, Some(&b"hello"[..]));
}

#[test]
fn payload_in_many_short_reads() {
    let wire = b"HTTP/1.1 200 OK\r\nContent-Length: 11\r\n\r\nhello world";
    for size in 1..8 {
        let mut buf = [0u8; 64];
        let r = decode(wire, &[size], &mut buf).unwrap();
        assert_eq!(r.payload.map(|p| p.len()), Some(11));
        assert_eq!(r.payload, Some(&b"hello world"[..]));
    }
}

#[test]
fn payload_filling_the_buffer_exactly() {
    let wire = b"HTTP/1.1 200 OK\r\nContent-Length: 8\r\n\r\n12345678";
    let mut buf = [0u8; 46];
    assert_eq!(wire.len(), 46);
    let r = decode(wire, &[3], &mut buf).unwrap();
    assert_eq!(r.payload, Some(&b"12345678"[..]));
}

#[test]
fn content_type_is_read_in_any_case() {
    for name in ["Content-Type", "content-type", "CONTENT-TYPE", "Content-type"] {
        let wire = format!("HTTP/1.1 200 OK\r\n{}:   text/plain\r\nContent-Length: 2\r\n\r\nhi", name);
        let mut buf = [0u8; 128];
        let r = decode(wire.as_bytes(), &[7], &mut buf).unwrap();
        assert_eq!(r.content_type.as_deref(), Some("text/plain"));
        assert_eq!(r.payload, Some(&b"hi"[..]));
    }
}

#[test]
fn supported_and_unsupported_status_codes() {
    let cases = [
        ("200", Status::Okay),
        ("201", Status::Created),
        ("404", Status::NotFound),
        ("500", Status::InternalServerError),
        ("418", Status::BadRequest),
        ("299", Status::BadRequest),
    ];
    for (code, status) in cases {
        let wire = format!("HTTP/1.1 {} Whatever\r\n\r\n", code);
        let mut buf = [0u8; 64];
        let r = decode(wire.as_bytes(), &[100], &mut buf).unwrap();
        assert_eq!(r.status, status);
    }
    assert_eq!(Status::from_code(503), Status::ServiceUnavailable);
    assert_eq!(Status::from_code(999), Status::BadRequest);
    assert_eq!(Status::NotFound.code(), 404);
}

#[test]
fn header_larger_than_buffer_is_a_codec_error() {
    let mut buf = [0u8; 16];
    let r = decode(b"HTTP/1.1 200 OK\r\nContent-Length: 0\r\n\r\n", &[5], &mut buf);
    assert!(matches!(r, Err(Error::Codec)));
    let mut empty: [u8; 0] = [];
    assert!(matches!(scan_header(&mut empty, 0), Err(Error::Codec)));
}

#[test]
fn scan_header_reports_offset_past_terminator() {
    let buf = *b"HTTP/1.1 200 OK\r\n\r\nxyz";
    assert!(matches!(scan_header(&buf, 10), Ok(None)));
    assert!(matches!(scan_header(&buf, 19), Ok(Some(19))));
    assert!(matches!(scan_header(&buf, 22), Ok(Some(19))));
}

#[test]
fn bad_headers_are_codec_errors() {
    let mut buf = [0u8; 64];
    let r = decode(b"HTTP/1.1 2x0 OK\r\n\r\n", &[64], &mut buf);
    assert!(matches!(r, Err(Error::Codec)));
    let mut buf = [0u8; 64];
    let r = decode(b"HTTP/1.1 200 OK\r\nContent-Length: many\r\n\r\n", &[64], &mut buf);
    assert!(matches!(r, Err(Error::Codec)));
    let mut buf = [0u8; 64];
    let r = decode(b"HTTP/1.1 200 OK\r\nX: \xff\r\n\r\n", &[64], &mut buf);
    assert!(matches!(r, Err(Error::Codec)));
    let mut buf = [0u8; 64];
    let r = decode(b"HTTP/1\r\n\r\n", &[64], &mut buf);
    assert!(matches!(r, Err(Error::Codec)));
}

#[test]
fn payload_longer_than_declared_or_than_buffer_is_rejected() {
    let mut buf = [0u8; 64];
    let r = decode(b"HTTP/1.1 200 OK\r\nContent-Length: 2\r\n\r\nhello", &[64], &mut buf);
    assert!(matches!(r, Err(Error::Codec)));
    let mut buf = [0u8; 64];
    let r = decode(b"HTTP/1.1 200 OK\r\nContent-Length: 100\r\n\r\nhello", &[64], &mut buf);
    assert!(matches!(r, Err(Error::Codec)));
    assert!(matches!(payload_to_read(0, 3, 10), Ok(0)));
    assert!(matches!(payload_to_read(5, 3, 10), Ok(2)));
    assert!(matches!(payload_to_read(2, 3, 10), Err(Error::Codec)));
    assert!(matches!(payload_to_read(11, 3, 10), Err(Error::Codec)));
}

#[test]
fn parse_head_reads_the_fields() {
    let buf = b"HTTP/1.0 201 Created\r\ncontent-length:+42\r\nContent-Type:application/json\r\n\r\n";
    let h = parse_head(buf, buf.len()).unwrap();
    assert_eq!(h.status, Status::Created);
    assert_eq!(h.content_length, 42);
    let (a, b) = h.content_type.unwrap();
    assert_eq!(&buf[a..b], b"application/json");
}

#[test]
fn parse_unsigned_bytes_follows_integer_parsing() {
    assert_eq!(parse_unsigned_bytes(b"123", u64::MAX), Some(123));
    assert_eq!(parse_unsigned_bytes(b"+7", u64::MAX), Some(7));
    assert_eq!(parse_unsigned_bytes(b"+", u64::MAX), None);
    assert_eq!(parse_unsigned_bytes(b"", u64::MAX), None);
    assert_eq!(parse_unsigned_bytes(b"-1", u64::MAX), None);
    assert_eq!(parse_unsigned_bytes(b"256", 255), None);
    assert_eq!(parse_unsigned_bytes(b"18446744073709551615", u64::MAX), Some(u64::MAX));
    assert_eq!(parse_unsigned_bytes(b"18446744073709551616", u64::MAX), None);
}

#[test]
fn encode_minimal_request() {
    let req = Request::new(Method::Get);
    let head = encode_head(&req, "example.com").unwrap();
    assert_eq!(head, b"GET / HTTP/1.1\r\nHost: example.com\r\n\r\n".to_vec());
}

#[test]
fn encode_full_request() {
    let extra = [("X-A", "1"), ("X-B", "two")];
    let mut req = Request::new(Method::Post);
    req.path = Some("/api/v1");
    req.auth = Some(Auth::Basic { username: "user", password: "pass" });
    req.content_type = Some(ContentType::ApplicationJson);
    req.payload = Some(b"{\"a\":1234567890}");
    req.extra_headers = Some(&extra);
    let head = encode_head(&req, "h").unwrap();
    let expected = "POST /api/v1 HTTP/1.1\r\nHost: h\r\nAuthorization: Basic dXNlcjpwYXNz\r\n\
                    Content-Type: application/json\r\nContent-Length: 16\r\nX-A: 1\r\nX-B: two\r\n\r\n";
    assert_eq!(String::from_utf8(head).unwrap(), expected);
}

#[test]
fn encode_rejects_long_credentials() {
    let user = "u".repeat(100);
    let pass = "p".repeat(27);
    let mut req = Request::new(Method::Put);
    req.auth = Some(Auth::Basic { username: &user, password: &pass });
    assert!(encode_head(&req, "h").is_ok());
    let pass = "p".repeat(28);
    req.auth = Some(Auth::Basic { username: &user, password: &pass });
    assert!(matches!(encode_head(&req, "h"), Err(Error::Codec)));
}

#[test]
fn request_then_matching_response_round_trip() {
    let payload = b"ping";
    let mut req = Request::new(Method::Put);
    req.path = Some("/echo");
    req.content_type = Some(ContentType::TextPlain);
    req.payload = Some(payload);
    let head = encode_head(&req, "loop").unwrap();
    let mut sent = head.clone();
    sent.extend_from_slice(payload);
    assert!(sent.starts_with(b"PUT /echo HTTP/1.1\r\n"));
    assert!(sent.ends_with(b"Content-Length: 4\r\n\r\nping"));
    // The peer answers with what it received.
    let body = &sent[head.len()..];
    let wire = format!(
        "HTTP/1.1 200 OK\r\nContent-Type: {}\r\nContent-Length: {}\r\n\r\n",
        ContentType::TextPlain.as_str(),
        body.len()
    );
    let mut wire = wire.into_bytes();
    wire.extend_from_slice(body);
    let mut buf = [0u8; 128];
    let r = decode(&wire, &[3, 5], &mut buf).unwrap();
    assert_eq!(r.status, Status::Okay);
    assert_eq!(r.content_type.as_deref(), Some("text/plain"));
    assert_eq!(r.payload, Some(&payload[..]));
}

#[test]
fn client_keeps_connection_and_host() {
    let client = HttpClient::new(7u32, "example.com");
    assert_eq!(client.connection, 7);
    assert_eq!(client.host, "example.com");
    assert_eq!(Method::Delete.as_str(), "DELETE");
    assert!(matches!(Error::from(embedded_io::ErrorKind::TimedOut), Error::Network(embedded_io::ErrorKind::TimedOut)));
}

#[test]
fn response_head_reads_back_for_every_content_type() {
    let types = [
        ContentType::TextPlain,
        ContentType::ApplicationJson,
        ContentType::ApplicationCbor,
        ContentType::ApplicationOctetStream,
    ];
    for c in types {
        for (code, status) in [(202u32, Status::Accepted), (999, Status::BadRequest)] {
            let head = format!(
                "HTTP/1.1 {} OK\r\nContent-Type: {}\r\nContent-Length: {}\r\n\r\n",
                code,
                c.as_str(),
                usize::MAX
            );
            let h = parse_head(head.as_bytes(), head.len()).unwrap();
            assert_eq!(h.status, status);
            assert_eq!(h.content_length, usize::MAX);
            let (a, b) = h.content_type.unwrap();
            assert_eq!(&head.as_bytes()[a..b], c.as_str().as_bytes());
        }
    }
}

#[test]
fn record_read_moves_the_window() {
    let mut buf = *b"HTTP/1.1 200 OK\r\nContent-Length: 6\r\n\r\nab\0\0\0\0\0\0";
    let end = scan_header(&buf, 40).unwrap().unwrap();
    assert_eq!(end, 38);
    let mut pending = begin_payload(&mut buf, end, 40).unwrap();
    assert_eq!((pending.filled, pending.remaining), (2, 4));
    assert_eq!(&buf[..2], b"ab");
    pending.record_read(3);
    assert_eq!((pending.filled, pending.remaining), (5, 1));
    pending.record_read(1);
    assert_eq!((pending.filled, pending.remaining), (6, 0));
}
