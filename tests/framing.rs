use h1_framing::{
    encode_request, encode_response, parse_request, parse_response, BodyLength, DecodedLength,
    EncodeError, Header, MessageHead, ParseContext, ParseError, RequestLine, Role, StatusLine,
    Version, Wants,
};

fn server_ctx() -> ParseContext {
    ParseContext { req_method: None, max_headers: 32 }
}

fn client_ctx(method: &str) -> ParseContext {
    ParseContext { req_method: Some(method.as_bytes().to_vec()), max_headers: 32 }
}

fn header(name: &str, value: &str) -> Header {
    Header { name: name.as_bytes().to_vec(), value: value.as_bytes().to_vec() }
}

fn has_header(hs: &[Header], name: &str) -> bool {
    hs.iter().any(|h| h.name.eq_ignore_ascii_case(name.as_bytes()))
}

fn response_head(code: u16, version: Version, headers: Vec<Header>) -> MessageHead<StatusLine> {
    MessageHead { version, headers, subject: StatusLine { code, reason: Vec::new() } }
}

fn request_head(method: &str, headers: Vec<Header>) -> MessageHead<RequestLine> {
    MessageHead {
        version: Version::Http11,
        headers,
        subject: RequestLine { method: method.as_bytes().to_vec(), target: b"/".to_vec() },
    }
}

fn server_length(raw: &str) -> Result<DecodedLength, ParseError> {
    let mut ctx = server_ctx();
    parse_request(raw.as_bytes(), &mut ctx).map(|r| r.expect("complete head").0.decode)
}

fn client_length(method: &str, raw: &str) -> Result<DecodedLength, ParseError> {
    let ctx = client_ctx(method);
    parse_response(raw.as_bytes(), &ctx).map(|r| r.expect("complete head").message.decode)
}

#[test]
fn server_parses_simple_get() {
    let raw = "GET / HTTP/1.1\r\nHost: a\r\n\r\n";
    let mut ctx = server_ctx();
    let (msg, consumed) = parse_request(raw.as_bytes(), &mut ctx).unwrap().unwrap();
    assert_eq!(consumed, raw.len());
    assert_eq!(msg.decode, DecodedLength::Zero);
    assert!(msg.keep_alive);
    assert!(!msg.wants_upgrade);
    assert!(!msg.expect_continue);
    assert_eq!(msg.head.version, Version::Http11);
    assert_eq!(msg.head.subject.method, b"GET".to_vec());
    assert_eq!(msg.head.subject.target, b"/".to_vec());
    assert_eq!(msg.head.headers.len(), 1);
    assert_eq!(ctx.req_method, Some(b"GET".to_vec()));
}

#[test]
fn client_passes_over_informational_response() {
    let raw = "HTTP/1.1 100 Continue\r\n\r\nHTTP/1.1 200 OK\r\nContent-Length: 0\r\n\r\n";
    let ctx = client_ctx("POST");
    let parsed = parse_response(raw.as_bytes(), &ctx).unwrap().unwrap();
    assert_eq!(parsed.informational.len(), 1);
    assert_eq!(parsed.informational[0].subject.code, 100);
    assert_eq!(parsed.message.head.subject.code, 200);
    assert_eq!(parsed.message.head.subject.reason, b"OK".to_vec());
    assert_eq!(parsed.message.decode, DecodedLength::Zero);
    assert_eq!(parsed.consumed, raw.len());
}

#[test]
fn conflicting_content_lengths_fail() {
    let raw = "POST / HTTP/1.1\r\nContent-Length: 5\r\nContent-Length: 6\r\n\r\n";
    assert_eq!(server_length(raw), Err(ParseError::ContentLength));
}

#[test]
fn equal_content_lengths_agree() {
    let raw = "POST / HTTP/1.1\r\nContent-Length: 5\r\ncontent-length: 5\r\n\r\n";
    assert_eq!(server_length(raw), Ok(DecodedLength::Exact(5)));
}

#[test]
fn invalid_content_length_fails() {
    assert_eq!(
        server_length("POST / HTTP/1.1\r\nContent-Length: 5x\r\n\r\n"),
        Err(ParseError::ContentLength)
    );
    assert_eq!(
        server_length("POST / HTTP/1.1\r\nContent-Length: 18446744073709551616\r\n\r\n"),
        Err(ParseError::ContentLength)
    );
    assert_eq!(
        server_length("POST / HTTP/1.1\r\nContent-Length: 18446744073709551615\r\n\r\n"),
        Ok(DecodedLength::Exact(u64::MAX))
    );
}

#[test]
fn head_response_drops_stated_length() {
    let mut head = response_head(200, Version::Http11, vec![header("Content-Length", "42")]);
    let mut dst = Vec::new();
    let r = encode_response(
        &mut head,
        Some(BodyLength::Known(42)),
        true,
        &Some(b"HEAD".to_vec()),
        &None,
        false,
        &mut dst,
    );
    assert_eq!(r, Ok(DecodedLength::Zero));
    assert!(!has_header(&head.headers, "content-length"));
    assert!(!has_header(&head.headers, "transfer-encoding"));
    assert_eq!(dst, b"HTTP/1.1 200 OK\r\n\r\n".to_vec());
}

#[test]
fn requests_are_never_close_delimited() {
    assert_eq!(server_length("GET / HTTP/1.1\r\n\r\n"), Ok(DecodedLength::Zero));
    assert_eq!(server_length("GET / HTTP/1.0\r\n\r\n"), Ok(DecodedLength::Zero));
    assert_eq!(
        server_length("POST / HTTP/1.1\r\nTransfer-Encoding: gzip\r\n\r\n"),
        Err(ParseError::TransferEncoding)
    );
    assert_eq!(
        server_length("POST / HTTP/1.1\r\nTransfer-Encoding: gzip, chunked\r\n\r\n"),
        Ok(DecodedLength::Chunked)
    );
}

#[test]
fn responses_without_length_are_close_delimited() {
    assert_eq!(client_length("GET", "HTTP/1.1 200 OK\r\n\r\n"), Ok(DecodedLength::CloseDelimited));
    assert_eq!(
        client_length("GET", "HTTP/1.1 200 OK\r\nTransfer-Encoding: gzip\r\n\r\n"),
        Ok(DecodedLength::CloseDelimited)
    );
}

#[test]
fn forbidden_bodies_are_empty() {
    assert_eq!(
        client_length("GET", "HTTP/1.1 204 No Content\r\nContent-Length: 10\r\n\r\n"),
        Ok(DecodedLength::Zero)
    );
    assert_eq!(
        client_length("GET", "HTTP/1.1 304 Not Modified\r\nTransfer-Encoding: chunked\r\n\r\n"),
        Ok(DecodedLength::Zero)
    );
    assert_eq!(
        client_length("HEAD", "HTTP/1.1 200 OK\r\nContent-Length: 10\r\nTransfer-Encoding: chunked\r\n\r\n"),
        Ok(DecodedLength::Zero)
    );
    assert_eq!(
        client_length("CONNECT", "HTTP/1.1 200 OK\r\nContent-Length: 10\r\n\r\n"),
        Ok(DecodedLength::Zero)
    );
}

#[test]
fn chunked_with_content_length_fails() {
    assert_eq!(
        server_length("POST / HTTP/1.1\r\nTransfer-Encoding: chunked\r\nContent-Length: 3\r\n\r\n"),
        Err(ParseError::LengthConflict)
    );
    assert_eq!(
        client_length("GET", "HTTP/1.1 200 OK\r\nContent-Length: 3\r\nTransfer-Encoding: chunked\r\n\r\n"),
        Err(ParseError::LengthConflict)
    );
}

fn response_round_trip(version: Version, body: Option<BodyLength>) -> DecodedLength {
    let mut head = response_head(200, version, vec![header("Server", "x")]);
    let mut dst = Vec::new();
    let sent = encode_response(&mut head, body, true, &Some(b"GET".to_vec()), &None, false, &mut dst)
        .unwrap();
    let received = client_length("GET", std::str::from_utf8(&dst).unwrap()).unwrap();
    assert_eq!(sent, received);
    received
}

#[test]
fn response_length_round_trips() {
    assert_eq!(response_round_trip(Version::Http11, Some(BodyLength::Known(5))), DecodedLength::Exact(5));
    assert_eq!(response_round_trip(Version::Http11, Some(BodyLength::Known(0))), DecodedLength::Zero);
    assert_eq!(response_round_trip(Version::Http11, None), DecodedLength::Zero);
    assert_eq!(response_round_trip(Version::Http11, Some(BodyLength::Unknown)), DecodedLength::Chunked);
    assert_eq!(
        response_round_trip(Version::Http10, Some(BodyLength::Unknown)),
        DecodedLength::CloseDelimited
    );
}

fn request_round_trip(body: Option<BodyLength>) -> DecodedLength {
    let mut head = request_head("POST", vec![header("Content-Length", "99"), header("Host", "a")]);
    let mut dst = Vec::new();
    let mut method = None;
    let sent = encode_request(&mut head, body, &mut method, false, &mut dst).unwrap();
    assert_eq!(method, Some(b"POST".to_vec()));
    let received = server_length(std::str::from_utf8(&dst).unwrap()).unwrap();
    assert_eq!(sent, received);
    received
}

#[test]
fn request_length_round_trips() {
    assert_eq!(request_round_trip(Some(BodyLength::Known(7))), DecodedLength::Exact(7));
    assert_eq!(request_round_trip(Some(BodyLength::Unknown)), DecodedLength::Chunked);
    assert_eq!(request_round_trip(None), DecodedLength::Zero);
    assert_eq!(request_round_trip(Some(BodyLength::Known(0))), DecodedLength::Zero);
}

#[test]
fn encoded_request_bytes() {
    let mut head = request_head("GET", vec![header("Host", "a")]);
    let mut dst = Vec::new();
    assert_eq!(encode_request(&mut head, None, &mut None, false, &mut dst), Ok(DecodedLength::Zero));
    assert_eq!(dst, b"GET / HTTP/1.1\r\nHost: a\r\n\r\n".to_vec());
}

#[test]
fn keep_alive_follows_version_and_connection() {
    let ka = |raw: &str| {
        let mut ctx = server_ctx();
        parse_request(raw.as_bytes(), &mut ctx).unwrap().unwrap().0.keep_alive
    };
    assert!(ka("GET / HTTP/1.1\r\n\r\n"));
    assert!(!ka("GET / HTTP/1.0\r\n\r\n"));
    assert!(!ka("GET / HTTP/1.1\r\nConnection: close\r\n\r\n"));
    assert!(ka("GET / HTTP/1.0\r\nConnection: Keep-Alive\r\n\r\n"));
    let ctx = client_ctx("GET");
    let r = parse_response(b"HTTP/1.0 200 OK\r\nContent-Length: 0\r\n\r\n", &ctx).unwrap().unwrap();
    assert!(!r.message.keep_alive);
    let r = parse_response(b"HTTP/1.1 200 OK\r\nContent-Length: 0\r\n\r\n", &ctx).unwrap().unwrap();
    assert!(r.message.keep_alive);
}

#[test]
fn incomplete_heads_ask_for_more() {
    let mut ctx = server_ctx();
    assert!(matches!(parse_request(b"GET / HTTP/1.1\r\nHost:", &mut ctx), Ok(None)));
    assert_eq!(ctx.req_method, None);
    let ctx = client_ctx("GET");
    assert!(matches!(parse_response(b"HTTP/1.1 100 Continue\r\n\r\nHTTP/1.1 2", &ctx), Ok(None)));
    assert!(matches!(parse_response(b"", &ctx), Ok(None)));
}

#[test]
fn malformed_and_oversized_heads_fail() {
    let mut ctx = ParseContext { req_method: None, max_headers: 1 };
    assert!(matches!(
        parse_request(b"GET / HTTP/1.1\r\nA: 1\r\nB: 2\r\n\r\n", &mut ctx),
        Err(ParseError::TooManyHeaders)
    ));
    let mut ctx = server_ctx();
    assert!(matches!(parse_request(b"GET\x01 / HTTP/1.1\r\n\r\n", &mut ctx), Err(ParseError::Malformed)));
}

#[test]
fn expect_and_upgrade_are_reported() {
    let mut ctx = server_ctx();
    let raw = "POST / HTTP/1.1\r\nExpect: 100-continue\r\nContent-Length: 3\r\n\r\n";
    let (msg, _) = parse_request(raw.as_bytes(), &mut ctx).unwrap().unwrap();
    assert!(msg.expect_continue);
    assert!(msg.wants().contains(Wants::expect()));
    assert!(!msg.wants().contains(Wants::upgrade()));
    let raw = "GET / HTTP/1.1\r\nConnection: upgrade\r\nUpgrade: websocket\r\n\r\n";
    let (msg, _) = parse_request(raw.as_bytes(), &mut ctx).unwrap().unwrap();
    assert!(msg.wants_upgrade);
    assert!(msg.wants().contains(Wants::upgrade()));
    let raw = "CONNECT a:443 HTTP/1.1\r\n\r\n";
    let (msg, _) = parse_request(raw.as_bytes(), &mut ctx).unwrap().unwrap();
    assert!(msg.wants_upgrade);
    let ctx = client_ctx("GET");
    let r = parse_response(b"HTTP/1.1 101 Switching Protocols\r\nUpgrade: ws\r\n\r\n", &ctx)
        .unwrap()
        .unwrap();
    assert!(r.message.wants_upgrade);
    assert!(r.informational.is_empty());
}

#[test]
fn wants_flags() {
    let both = Wants::empty().add(Wants::expect()).add(Wants::upgrade());
    assert!(both.contains(Wants::expect()));
    assert!(both.contains(Wants::upgrade()));
    assert!(both.contains(Wants::empty()));
    assert!(!Wants::expect().contains(Wants::upgrade()));
    assert!(!Wants::empty().contains(Wants::expect()));
    assert_eq!(both.0, 3);
}

#[test]
fn role_predicates() {
    assert!(Role::Client.is_client());
    assert!(!Role::Client.is_server());
    assert!(Role::Server.is_server());
    assert!(Role::Client.should_error_on_parse_eof());
    assert!(!Role::Server.should_error_on_parse_eof());
    assert!(Role::Server.should_read_first());
    assert!(!Role::Client.should_read_first());
}

#[test]
fn error_responses() {
    assert!(Role::Client.on_error(ParseError::Malformed).is_none());
    let h = Role::Server.on_error(ParseError::Malformed).unwrap();
    assert_eq!(h.subject.code, 400);
    assert_eq!(Role::Server.on_error(ParseError::TooManyHeaders).unwrap().subject.code, 431);
    assert_eq!(Role::Server.on_error(ParseError::Version).unwrap().subject.code, 505);
}

#[test]
fn encode_errors() {
    let mut dst = Vec::new();
    let mut head = response_head(42, Version::Http11, Vec::new());
    assert_eq!(encode_response(&mut head, None, true, &None, &None, false, &mut dst), Err(EncodeError::Status));
    let mut head = response_head(200, Version::Http11, vec![header("X", "a\r\nInjected: 1")]);
    assert_eq!(encode_response(&mut head, None, true, &None, &None, false, &mut dst), Err(EncodeError::Header));
    assert!(dst.is_empty());
    let mut head = request_head("GET", Vec::new());
    head.version = Version::Http10;
    assert_eq!(
        encode_request(&mut head, Some(BodyLength::Unknown), &mut None, false, &mut dst),
        Err(EncodeError::UnknownLengthHttp10)
    );
    let mut head = request_head("GE T", Vec::new());
    assert_eq!(encode_request(&mut head, None, &mut None, false, &mut dst), Err(EncodeError::StartLine));
    assert!(dst.is_empty());
}

#[test]
fn response_headers_are_completed() {
    let mut head = response_head(404, Version::Http11, Vec::new());
    let mut dst = Vec::new();
    let date = Some(b"Sun, 06 Nov 1994 08:49:37 GMT".to_vec());
    let r = encode_response(&mut head, Some(BodyLength::Known(3)), false, &None, &date, false, &mut dst);
    assert_eq!(r, Ok(DecodedLength::Exact(3)));
    assert_eq!(
        dst,
        b"HTTP/1.1 404 Not Found\r\ndate: Sun, 06 Nov 1994 08:49:37 GMT\r\nconnection: close\r\ncontent-length: 3\r\n\r\n"
            .to_vec()
    );
}

#[test]
fn connection_tokens_are_list_elements() {
    let mut ctx = server_ctx();
    let raw = "GET / HTTP/1.0\r\nConnection: Keep-Alive, Upgrade\r\nUpgrade: x\r\n\r\n";
    let (msg, _) = parse_request(raw.as_bytes(), &mut ctx).unwrap().unwrap();
    assert!(msg.keep_alive);
    assert!(!msg.wants_upgrade);
    let raw = "GET / HTTP/1.1\r\nConnection: keep-alive,upgrade\r\nUpgrade: x\r\n\r\n";
    let (msg, _) = parse_request(raw.as_bytes(), &mut ctx).unwrap().unwrap();
    assert!(msg.keep_alive);
    assert!(msg.wants_upgrade);
    let raw = "GET / HTTP/1.1\r\nConnection: closed\r\n\r\n";
    let (msg, _) = parse_request(raw.as_bytes(), &mut ctx).unwrap().unwrap();
    assert!(msg.keep_alive);
    let raw = "GET / HTTP/1.1\r\nConnection: te, close\r\n\r\n";
    let (msg, _) = parse_request(raw.as_bytes(), &mut ctx).unwrap().unwrap();
    assert!(!msg.keep_alive);
}

#[test]
fn expect_needs_the_whole_value() {
    let mut ctx = server_ctx();
    let raw = "POST / HTTP/1.1\r\nExpect: 100-continue, x\r\nContent-Length: 3\r\n\r\n";
    let (msg, _) = parse_request(raw.as_bytes(), &mut ctx).unwrap().unwrap();
    assert!(!msg.expect_continue);
    let raw = "POST / HTTP/1.1\r\nExpect: 100-Continue\r\nContent-Length: 3\r\n\r\n";
    let (msg, _) = parse_request(raw.as_bytes(), &mut ctx).unwrap().unwrap();
    assert!(msg.expect_continue);
}

#[test]
fn unsupported_version_is_reported() {
    let mut ctx = server_ctx();
    assert!(matches!(parse_request(b"GET / HTTP/2.0\r\n\r\n", &mut ctx), Err(ParseError::Version)));
    assert_eq!(Role::Server.on_error(ParseError::Version).unwrap().subject.code, 505);
}

#[test]
fn forbidden_header_bytes_are_refused() {
    let mut dst = Vec::new();
    let mut head = response_head(200, Version::Http11, vec![header("X", "a\0b")]);
    assert_eq!(encode_response(&mut head, None, true, &None, &None, false, &mut dst), Err(EncodeError::Header));
    let mut head = response_head(200, Version::Http11, vec![header("a(b", "c")]);
    assert_eq!(encode_response(&mut head, None, true, &None, &None, false, &mut dst), Err(EncodeError::Header));
    let mut head = response_head(200, Version::Http11, vec![header("Content-Length", "1x")]);
    assert_eq!(encode_response(&mut head, None, true, &None, &None, false, &mut dst), Err(EncodeError::Header));
    assert_eq!(head.headers.len(), 1);
    let mut head = request_head("GET", vec![header("X", "a\x7f")]);
    let mut method = None;
    assert_eq!(encode_request(&mut head, None, &mut method, false, &mut dst), Err(EncodeError::Header));
    assert_eq!(method, None);
    assert!(dst.is_empty());
}

#[test]
fn connection_is_set_and_cleared() {
    let mut head = response_head(200, Version::Http11, vec![header("Connection", "keep-alive"), header("X", "1")]);
    let mut dst = Vec::new();
    let r = encode_response(&mut head, Some(BodyLength::Known(0)), false, &None, &None, false, &mut dst);
    assert_eq!(r, Ok(DecodedLength::Zero));
    assert_eq!(dst, b"HTTP/1.1 200 OK\r\nX: 1\r\nconnection: close\r\ncontent-length: 0\r\n\r\n".to_vec());
    let mut head = response_head(200, Version::Http11, vec![header("Connection", "close")]);
    let mut dst = Vec::new();
    let r = encode_response(&mut head, Some(BodyLength::Unknown), true, &None, &None, false, &mut dst);
    assert_eq!(r, Ok(DecodedLength::Chunked));
    assert_eq!(dst, b"HTTP/1.1 200 OK\r\ntransfer-encoding: chunked\r\n\r\n".to_vec());
}

#[test]
fn existing_date_is_kept_and_requests_get_none() {
    let mut head = response_head(200, Version::Http11, vec![header("Date", "x")]);
    let mut dst = Vec::new();
    let date = Some(b"y".to_vec());
    encode_response(&mut head, None, true, &None, &date, false, &mut dst).unwrap();
    assert_eq!(head.headers.iter().filter(|h| h.name.eq_ignore_ascii_case(b"date")).count(), 1);
    assert_eq!(head.headers[0].value, b"x".to_vec());
    let mut head = request_head("GET", vec![header("Host", "a")]);
    let mut dst = Vec::new();
    encode_request(&mut head, None, &mut None, false, &mut dst).unwrap();
    assert!(!has_header(&head.headers, "date"));
}

#[test]
fn header_names_in_title_case() {
    let mut head = request_head("GET", vec![header("x-forwarded-for", "a"), header("host", "b")]);
    let mut dst = Vec::new();
    encode_request(&mut head, Some(BodyLength::Known(2)), &mut None, true, &mut dst).unwrap();
    assert_eq!(
        dst,
        b"GET / HTTP/1.1\r\nX-Forwarded-For: a\r\nHost: b\r\nContent-Length: 2\r\n\r\n".to_vec()
    );
}
