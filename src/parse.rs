use vstd::prelude::*;
use crate::head::{MessageHead, ParsedMessage, RequestLine, StatusLine, Version, copy_bytes};
use crate::headers::{
    Header,
    Word,
    has_name,
    has_value,
    has_exact_value,
    find_name,
    find_value,
    find_exact_value,
};
use crate::length::{
    DecodedLength,
    ParseError,
    classify_request,
    classify_response,
    request_length,
    response_length,
    method_view,
    connect_method,
    bytes_eq,
};

verus! {

/// A request line and headers as the tokenizer found them.
#[derive(Debug)]
pub struct RawRequest {
    pub consumed: usize,
    pub method: Vec<u8>,
    pub target: Vec<u8>,
    pub minor: u8,
    pub headers: Vec<Header>,
}

/// A status line and headers as the tokenizer found them.
#[derive(Debug)]
pub struct RawResponse {
    pub consumed: usize,
    pub minor: u8,
    pub code: u16,
    pub reason: Vec<u8>,
    pub headers: Vec<Header>,
}

/// What the tokenizer made of a buffer.
#[derive(Debug)]
pub enum Tokens {
    /// The head is not complete yet.
    Partial,
    /// The bytes are not a valid head.
    Invalid,
    /// The head has more headers than allowed.
    TooManyHeaders,
    /// The version is not HTTP/1.0 or HTTP/1.1.
    UnsupportedVersion,
    Request(RawRequest),
    Response(RawResponse),
}

/// What httparse's request tokenizer returns for a buffer and a header limit.
pub uninterp spec fn request_tokens(buf: Seq<u8>, max_headers: nat) -> Tokens;

/// What httparse's response tokenizer returns for a buffer and a header limit.
pub uninterp spec fn response_tokens(buf: Seq<u8>, max_headers: nat) -> Tokens;

/// Relies on httparse::Request::parse: splits a request head into method,
/// target, minor version and headers; on success, the offset where the body
/// starts lies within the buffer.
#[verifier::external_body]
fn tokenize_request(buf: &[u8], max_headers: usize) -> (r: Tokens)
    ensures
        r == request_tokens(buf@, max_headers as nat),
        r matches Tokens::Request(q) ==> 0 < q.consumed <= buf@.len(),
{
    let mut hs = vec![httparse::EMPTY_HEADER; max_headers];
    let mut req = httparse::Request::new(&mut hs);
    match req.parse(buf) {
        Ok(httparse::Status::Complete(n)) => Tokens::Request(RawRequest {
            consumed: n,
            method: req.method.unwrap_or("").into(),
            target: req.path.unwrap_or("").into(),
            minor: req.version.unwrap_or(0),
            headers: req.headers.iter().map(|h| Header { name: h.name.into(), value: h.value.into() }).collect(),
        }),
        Ok(httparse::Status::Partial) => Tokens::Partial,
        Err(httparse::Error::TooManyHeaders) => Tokens::TooManyHeaders,
        Err(httparse::Error::Version) => Tokens::UnsupportedVersion,
        Err(_) => Tokens::Invalid,
    }
}

/// Relies on httparse::Response::parse: splits a response head into minor
/// version, status code, reason and headers; on success, the offset where
/// the body starts lies within the buffer.
#[verifier::external_body]
fn tokenize_response(buf: &[u8], max_headers: usize) -> (r: Tokens)
    ensures
        r == response_tokens(buf@, max_headers as nat),
        r matches Tokens::Response(q) ==> 0 < q.consumed <= buf@.len(),
{
    let mut hs = vec![httparse::EMPTY_HEADER; max_headers];
    let mut res = httparse::Response::new(&mut hs);
    match res.parse(buf) {
        Ok(httparse::Status::Complete(n)) => Tokens::Response(RawResponse {
            consumed: n,
            minor: res.version.unwrap_or(0),
            code: res.code.unwrap_or(0),
            reason: res.reason.unwrap_or("").into(),
            headers: res.headers.iter().map(|h| Header { name: h.name.into(), value: h.value.into() }).collect(),
        }),
        Ok(httparse::Status::Partial) => Tokens::Partial,
        Err(httparse::Error::TooManyHeaders) => Tokens::TooManyHeaders,
        Err(httparse::Error::Version) => Tokens::UnsupportedVersion,
        Err(_) => Tokens::Invalid,
    }
}

/// The version that a minor version number stands for.
pub open spec fn version_of(minor: u8) -> Option<Version> {
    if minor == 0 {
        Some(Version::Http10)
    } else if minor == 1 {
        Some(Version::Http11)
    } else {
        None
    }
}

/// Whether the connection stays open after a message of this version with
/// these headers: HTTP/1.1 unless `Connection: close`, HTTP/1.0 only with
/// `Connection: keep-alive`.
pub open spec fn keep_alive_of(v: Version, hs: Seq<Header>) -> bool {
    if has_value(hs, Word::Connection, Word::Close) {
        false
    } else if v == Version::Http11 {
        true
    } else {
        has_value(hs, Word::Connection, Word::KeepAlive)
    }
}

/// Whether a request asks for a `100 Continue` before sending its body.
pub open spec fn expects_continue(v: Version, hs: Seq<Header>) -> bool {
    v == Version::Http11 && has_exact_value(hs, Word::Expect, Word::Continue100)
}

/// Whether a request asks to leave HTTP/1 framing: an upgrade, or CONNECT.
pub open spec fn request_wants_upgrade(v: Version, method: Seq<u8>, hs: Seq<Header>) -> bool {
    (v == Version::Http11 && has_name(hs, Word::Upgrade) && has_value(
        hs,
        Word::Connection,
        Word::Upgrade,
    )) || method == connect_method()
}

/// Whether a status is informational and not the final response.
pub open spec fn is_informational(code: u16) -> bool {
    100 <= code <= 199 && code != 101
}

/// Whether a final response hands the connection over to another protocol.
pub open spec fn response_wants_upgrade(req_method: Option<Seq<u8>>, code: u16) -> bool {
    code == 101 || (req_method == Some(connect_method()) && 200 <= code <= 299)
}

/// What parsing a request makes of the tokenizer's result.
pub open spec fn request_outcome(
    t: Tokens,
    r: Result<Option<(ParsedMessage<RequestLine>, usize)>, ParseError>,
) -> bool {
    match t {
        Tokens::Partial => r matches Ok(None),
        Tokens::Invalid => r == Err::<Option<(ParsedMessage<RequestLine>, usize)>, ParseError>(
            ParseError::Malformed,
        ),
        Tokens::Response(_) => r == Err::<Option<(ParsedMessage<RequestLine>, usize)>, ParseError>(
            ParseError::Malformed,
        ),
        Tokens::TooManyHeaders => r == Err::<
            Option<(ParsedMessage<RequestLine>, usize)>,
            ParseError,
        >(ParseError::TooManyHeaders),
        Tokens::UnsupportedVersion => r == Err::<
            Option<(ParsedMessage<RequestLine>, usize)>,
            ParseError,
        >(ParseError::Version),
        Tokens::Request(q) => match version_of(q.minor) {
            None => r == Err::<Option<(ParsedMessage<RequestLine>, usize)>, ParseError>(
                ParseError::Version,
            ),
            Some(v) => match request_length(q.headers@) {
                Err(e) => r == Err::<Option<(ParsedMessage<RequestLine>, usize)>, ParseError>(e),
                Ok(len) => r matches Ok(Some((m, n))) && n == q.consumed && m.head.version == v
                    && m.head.headers@ == q.headers@ && m.head.subject.method@ == q.method@
                    && m.head.subject.target@ == q.target@ && m.decode == len && m.keep_alive
                    == keep_alive_of(v, q.headers@) && m.expect_continue == expects_continue(
                    v,
                    q.headers@,
                ) && m.wants_upgrade == request_wants_upgrade(v, q.method@, q.headers@),
            },
        },
    }
}

fn version_from_minor(minor: u8) -> (r: Option<Version>)
    ensures
        r == version_of(minor),
{
    if minor == 0 {
        Some(Version::Http10)
    } else if minor == 1 {
        Some(Version::Http11)
    } else {
        None
    }
}

fn keep_alive(v: Version, hs: &Vec<Header>) -> (r: bool)
    ensures
        r == keep_alive_of(v, hs@),
{
    if find_value(hs, Word::Connection, Word::Close) {
        false
    } else if v == Version::Http11 {
        true
    } else {
        find_value(hs, Word::Connection, Word::KeepAlive)
    }
}

fn is_connect(method: &[u8]) -> (r: bool)
    ensures
        r == (method@ == connect_method()),
{
    let connect: Vec<u8> = vec![67u8, 79u8, 78u8, 78u8, 69u8, 67u8, 84u8];
    assert(connect@ =~= connect_method());
    bytes_eq(method, connect.as_slice())
}

/// Turns the tokenizer's view of a request into a parsed message and the
/// number of bytes its head took.
pub fn request_from_tokens(t: Tokens) -> (r: Result<
    Option<(ParsedMessage<RequestLine>, usize)>,
    ParseError,
>)
    ensures
        request_outcome(t, r),
{
    match t {
        Tokens::Partial => Ok(None),
        Tokens::Invalid => Err(ParseError::Malformed),
        Tokens::Response(_) => Err(ParseError::Malformed),
        Tokens::TooManyHeaders => Err(ParseError::TooManyHeaders),
        Tokens::UnsupportedVersion => Err(ParseError::Version),
        Tokens::Request(q) => {
            let v = match version_from_minor(q.minor) {
                Some(v) => v,
                None => return Err(ParseError::Version),
            };
            let decode = match classify_request(&q.headers) {
                Ok(len) => len,
                Err(e) => return Err(e),
            };
            let keep_alive = keep_alive(v, &q.headers);
            let expect_continue = v == Version::Http11 && find_exact_value(
                &q.headers,
                Word::Expect,
                Word::Continue100,
            );
            let wants_upgrade = (v == Version::Http11 && find_name(&q.headers, Word::Upgrade)
                && find_value(&q.headers, Word::Connection, Word::Upgrade)) || is_connect(
                q.method.as_slice(),
            );
            let head = MessageHead {
                version: v,
                headers: q.headers,
                subject: RequestLine { method: q.method, target: q.target },
            };
            Ok(Some((ParsedMessage { head, decode, expect_continue, keep_alive, wants_upgrade }, q.consumed)))
        },
    }
}

/// Per-call parsing configuration and the state kept between messages.
#[derive(Debug)]
pub struct ParseContext {
    /// Method of the last request: set by the server side, read by the
    /// client side to decide the body length of the response.
    pub req_method: Option<Vec<u8>>,
    /// Most headers that one head may carry.
    pub max_headers: usize,
}

/// Server side: parses a request head from the front of `buf`, returning the
/// message and the number of bytes its head took, or `None` when more bytes
/// are needed. Records the request's method in the context.
pub fn parse_request(buf: &[u8], ctx: &mut ParseContext) -> (r: Result<
    Option<(ParsedMessage<RequestLine>, usize)>,
    ParseError,
>)
    ensures
        request_outcome(request_tokens(buf@, old(ctx).max_headers as nat), r),
        final(ctx).max_headers == old(ctx).max_headers,
        r matches Ok(Some((m, n))) ==> n <= buf@.len() && method_view(final(ctx).req_method)
            == Some(m.head.subject.method@),
        !(r matches Ok(Some(_))) ==> final(ctx).req_method == old(ctx).req_method,
{
    let t = tokenize_request(buf, ctx.max_headers);
    let r = request_from_tokens(t);
    if let Ok(Some((m, _))) = &r {
        ctx.req_method = Some(copy_bytes(m.head.subject.method.as_slice()));
    }
    r
}

/// One response head read by the client side: an informational head that
/// precedes the final response, or the final response itself; each with the
/// number of bytes its head took.
#[derive(Debug)]
pub enum ResponseStep {
    Informational(MessageHead<StatusLine>, usize),
    Final(ParsedMessage<StatusLine>, usize),
}

/// Whether `h` holds what the tokenizer found in `q`.
pub open spec fn status_head_of(h: MessageHead<StatusLine>, q: RawResponse, v: Version) -> bool {
    h.version == v && h.headers@ == q.headers@ && h.subject.code == q.code && h.subject.reason@
        == q.reason@
}

/// What parsing one response head makes of the tokenizer's result, for a
/// request with the given method.
pub open spec fn response_outcome(
    t: Tokens,
    req_method: Option<Seq<u8>>,
    r: Result<Option<ResponseStep>, ParseError>,
) -> bool {
    match t {
        Tokens::Partial => r matches Ok(None),
        Tokens::Invalid => r == Err::<Option<ResponseStep>, ParseError>(ParseError::Malformed),
        Tokens::Request(_) => r == Err::<Option<ResponseStep>, ParseError>(ParseError::Malformed),
        Tokens::TooManyHeaders => r == Err::<Option<ResponseStep>, ParseError>(
            ParseError::TooManyHeaders,
        ),
        Tokens::UnsupportedVersion => r == Err::<Option<ResponseStep>, ParseError>(
            ParseError::Version,
        ),
        Tokens::Response(q) => match version_of(q.minor) {
            None => r == Err::<Option<ResponseStep>, ParseError>(ParseError::Version),
            Some(v) => if is_informational(q.code) {
                r matches Ok(Some(ResponseStep::Informational(h, n))) && n == q.consumed
                    && status_head_of(h, q, v)
            } else {
                match response_length(req_method, q.code, q.headers@) {
                    Err(e) => r == Err::<Option<ResponseStep>, ParseError>(e),
                    Ok(len) => r matches Ok(Some(ResponseStep::Final(m, n))) && n == q.consumed
                        && status_head_of(m.head, q, v) && m.decode == len && m.keep_alive
                        == keep_alive_of(v, q.headers@) && !m.expect_continue && m.wants_upgrade
                        == response_wants_upgrade(req_method, q.code),
                }
            },
        },
    }
}

/// Turns the tokenizer's view of a response into one step of the client's
/// parse, for a request with the given method.
pub fn response_from_tokens(t: Tokens, req_method: &Option<Vec<u8>>) -> (r: Result<
    Option<ResponseStep>,
    ParseError,
>)
    ensures
        response_outcome(t, method_view(*req_method), r),
{
    match t {
        Tokens::Partial => Ok(None),
        Tokens::Invalid => Err(ParseError::Malformed),
        Tokens::Request(_) => Err(ParseError::Malformed),
        Tokens::TooManyHeaders => Err(ParseError::TooManyHeaders),
        Tokens::UnsupportedVersion => Err(ParseError::Version),
        Tokens::Response(q) => {
            let v = match version_from_minor(q.minor) {
                Some(v) => v,
                None => return Err(ParseError::Version),
            };
            let code = q.code;
            if 100 <= code && code <= 199 && code != 101 {
                let head = MessageHead {
                    version: v,
                    headers: q.headers,
                    subject: StatusLine { code, reason: q.reason },
                };
                return Ok(Some(ResponseStep::Informational(head, q.consumed)));
            }
            let decode = match classify_response(req_method, code, &q.headers) {
                Ok(len) => len,
                Err(e) => return Err(e),
            };
            let keep_alive = keep_alive(v, &q.headers);
            let connect = match req_method {
                Some(m) => is_connect(m.as_slice()),
                None => false,
            };
            let wants_upgrade = code == 101 || (connect && 200 <= code && code <= 299);
            let head = MessageHead {
                version: v,
                headers: q.headers,
                subject: StatusLine { code, reason: q.reason },
            };
            Ok(
                Some(
                    ResponseStep::Final(
                        ParsedMessage {
                            head,
                            decode,
                            expect_continue: false,
                            keep_alive,
                            wants_upgrade,
                        },
                        q.consumed,
                    ),
                ),
            )
        },
    }
}

/// A final response read by the client side, with the informational heads
/// that came before it and the bytes that all of them took.
#[derive(Debug)]
pub struct ParsedResponse {
    pub message: ParsedMessage<StatusLine>,
    pub informational: Vec<MessageHead<StatusLine>>,
    pub consumed: usize,
}

/// What the client's parse returns for the heads that start at `offset` in
/// `buf`, when `k` informational heads came before them: each informational
/// head the tokenizer finds is collected at its place and passed over, and
/// the first other outcome decides the result.
pub open spec fn response_parse_from(
    buf: Seq<u8>,
    max_headers: nat,
    req_method: Option<Seq<u8>>,
    offset: int,
    k: int,
    r: Result<Option<ParsedResponse>, ParseError>,
) -> bool
    decreases buf.len() - offset,
{
    if !(0 <= offset <= buf.len()) {
        false
    } else {
        match response_tokens(buf.subrange(offset, buf.len() as int), max_headers) {
            Tokens::Partial => r matches Ok(None),
            Tokens::Invalid => r == Err::<Option<ParsedResponse>, ParseError>(ParseError::Malformed),
            Tokens::Request(_) => r == Err::<Option<ParsedResponse>, ParseError>(
                ParseError::Malformed,
            ),
            Tokens::TooManyHeaders => r == Err::<Option<ParsedResponse>, ParseError>(
                ParseError::TooManyHeaders,
            ),
            Tokens::UnsupportedVersion => r == Err::<Option<ParsedResponse>, ParseError>(
                ParseError::Version,
            ),
            Tokens::Response(q) => match version_of(q.minor) {
                None => r == Err::<Option<ParsedResponse>, ParseError>(ParseError::Version),
                Some(v) => if is_informational(q.code) {
                    0 < q.consumed <= buf.len() - offset && (r matches Ok(Some(p)) ==> (k < p.informational@.len()
                        && status_head_of(p.informational@[k], q, v))) && response_parse_from(
                        buf,
                        max_headers,
                        req_method,
                        offset + q.consumed,
                        k + 1,
                        r,
                    )
                } else {
                    match response_length(req_method, q.code, q.headers@) {
                        Err(e) => r == Err::<Option<ParsedResponse>, ParseError>(e),
                        Ok(len) => r matches Ok(Some(p)) && p.consumed == offset + q.consumed
                            && q.consumed <= buf.len() - offset && p.informational@.len() == k && status_head_of(p.message.head, q, v)
                            && p.message.decode == len && p.message.keep_alive == keep_alive_of(
                            v,
                            q.headers@,
                        ) && !p.message.expect_continue && p.message.wants_upgrade
                            == response_wants_upgrade(req_method, q.code),
                    }
                },
            },
        }
    }
}

fn parse_response_from(
    buf: &[u8],
    offset: usize,
    ctx: &ParseContext,
    heads: Vec<MessageHead<StatusLine>>,
) -> (r: Result<Option<ParsedResponse>, ParseError>)
    requires
        offset <= buf@.len(),
    ensures
        response_parse_from(
            buf@,
            ctx.max_headers as nat,
            method_view(ctx.req_method),
            offset as int,
            heads@.len() as int,
            r,
        ),
        r matches Ok(Some(p)) ==> p.informational@.len() >= heads@.len()
            && p.informational@.take(heads@.len() as int) == heads@,
    decreases buf@.len() - offset,
{
    let (_, rest) = buf.split_at(offset);
    assert(rest@ == buf@.subrange(offset as int, buf@.len() as int));
    let t = tokenize_response(rest, ctx.max_headers);
    let ghost tg = t;
    let blen = buf.len();
    match response_from_tokens(t, &ctx.req_method) {
        Err(e) => Err(e),
        Ok(None) => Ok(None),
        Ok(Some(ResponseStep::Informational(h, n))) => {
            let mut heads = heads;
            let ghost before = heads@;
            heads.push(h);
            let r = parse_response_from(buf, offset + n, ctx, heads);
            proof {
                if r is Ok && r->Ok_0 is Some {
                    let p = r->Ok_0->Some_0;
                    assert(p.informational@.take(before.len() as int) =~= p.informational@.take(
                        before.len() as int + 1,
                    ).take(before.len() as int));
                    assert(p.informational@[before.len() as int] == p.informational@.take(
                        before.len() as int + 1,
                    )[before.len() as int]);
                }
            }
            r
        },
        Ok(Some(ResponseStep::Final(m, n))) => {
            let p = ParsedResponse { message: m, informational: heads, consumed: offset + n };
            proof {
                assert(p.informational@.take(p.informational@.len() as int) =~= p.informational@);
            }
            Ok(Some(p))
        },
    }
}

/// Client side: parses response heads from the front of `buf`, passing over
/// informational ones (collected in the result, in order) up to the final
/// response. `None` means more bytes are needed.
pub fn parse_response(buf: &[u8], ctx: &ParseContext) -> (r: Result<
    Option<ParsedResponse>,
    ParseError,
>)
    ensures
        response_parse_from(buf@, ctx.max_headers as nat, method_view(ctx.req_method), 0, 0, r),
        r matches Ok(Some(p)) ==> {
            &&& p.consumed <= buf@.len()
            &&& response_length(
                method_view(ctx.req_method),
                p.message.head.subject.code,
                p.message.head.headers@,
            ) == Ok::<DecodedLength, ParseError>(p.message.decode)
            &&& p.message.keep_alive == keep_alive_of(
                p.message.head.version,
                p.message.head.headers@,
            )
            &&& !is_informational(p.message.head.subject.code)
        },
{
    let r = parse_response_from(buf, 0, ctx, Vec::new());
    proof {
        lemma_parse_from_final(buf@, ctx.max_headers as nat, method_view(ctx.req_method), 0, 0, r);
    }
    r
}

/// What a successful parse from any offset holds of its final message.
proof fn lemma_parse_from_final(
    buf: Seq<u8>,
    max_headers: nat,
    req_method: Option<Seq<u8>>,
    offset: int,
    k: int,
    r: Result<Option<ParsedResponse>, ParseError>,
)
    requires
        response_parse_from(buf, max_headers, req_method, offset, k, r),
    ensures
        r matches Ok(Some(p)) ==> {
            &&& p.consumed <= buf.len()
            &&& response_length(
                req_method,
                p.message.head.subject.code,
                p.message.head.headers@,
            ) == Ok::<DecodedLength, ParseError>(p.message.decode)
            &&& p.message.keep_alive == keep_alive_of(
                p.message.head.version,
                p.message.head.headers@,
            )
            &&& !is_informational(p.message.head.subject.code)
        },
    decreases buf.len() - offset,
{
    if let Tokens::Response(q) = response_tokens(buf.subrange(offset, buf.len() as int), max_headers) {
        if version_of(q.minor) is Some && is_informational(q.code) {
            lemma_parse_from_final(buf, max_headers, req_method, offset + q.consumed, k + 1, r);
        }
    }
}

/// Without a Connection header an HTTP/1.1 message keeps the connection
/// open and an HTTP/1.0 one does not; `Connection: close` closes it in both
/// versions, and `Connection: keep-alive` without `close` keeps it open in both.
pub proof fn lemma_keep_alive_defaults(hs: Seq<Header>)
    ensures
        !has_name(hs, Word::Connection) ==> keep_alive_of(Version::Http11, hs) && !keep_alive_of(
            Version::Http10,
            hs,
        ),
        has_value(hs, Word::Connection, Word::Close) ==> !keep_alive_of(Version::Http11, hs)
            && !keep_alive_of(Version::Http10, hs),
        has_value(hs, Word::Connection, Word::KeepAlive) && !has_value(
            hs,
            Word::Connection,
            Word::Close,
        ) ==> keep_alive_of(Version::Http11, hs) && keep_alive_of(Version::Http10, hs),
{
}

/// Round trip of a response's framing: headers for which the server chose
/// `len` (as `encode_response` guarantees of the headers it writes), read
/// back by the client with a final status, give a message whose body length
/// is `len`.
pub proof fn lemma_response_framing_round_trip(
    req_method: Option<Seq<u8>>,
    q: RawResponse,
    len: DecodedLength,
    r: Result<Option<ResponseStep>, ParseError>,
)
    requires
        response_length(req_method, q.code, q.headers@) == Ok::<DecodedLength, ParseError>(len),
        version_of(q.minor) is Some,
        !is_informational(q.code),
        response_outcome(Tokens::Response(q), req_method, r),
    ensures
        r matches Ok(Some(ResponseStep::Final(m, _))) && m.decode == len,
{
}

/// Round trip of a request's framing: headers for which the client chose
/// `len` (as `encode_request` guarantees of the headers it writes), read
/// back by the server, give a message whose body length is `len`.
pub proof fn lemma_request_framing_round_trip(
    q: RawRequest,
    len: DecodedLength,
    r: Result<Option<(ParsedMessage<RequestLine>, usize)>, ParseError>,
)
    requires
        request_length(q.headers@) == Ok::<DecodedLength, ParseError>(len),
        version_of(q.minor) is Some,
        request_outcome(Tokens::Request(q), r),
    ensures
        r matches Ok(Some((m, _))) && m.decode == len,
{
}

} // verus!
