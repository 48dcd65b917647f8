use vstd::prelude::*;
use crate::head::{MessageHead, RequestLine, StatusLine, Version, copy_bytes};
use crate::headers::{
    Header,
    Word,
    contains_token,
    eq_ignore_case,
    bytes_eq_ignore_case,
    has_name,
    has_token,
    find_name,
};
use crate::length::{
    content_length_of,
    last_transfer_encoding,
    length_value,
    decimal_value,
    all_digits,
    chunked_final,
    exact_length,
    method_view,
    find_content_length,
    body_forbidden,
    is_body_forbidden,
    request_length,
    response_length,
    DecodedLength,
    ParseError,
};

verus! {

/// The decimal digits of `n`, most significant first.
pub open spec fn decimal_digits(n: nat) -> Seq<u8>
    decreases n,
{
    if n < 10 {
        seq![(48 + n) as u8]
    } else {
        decimal_digits(n / 10).push((48 + n % 10) as u8)
    }
}

/// Reading back the digits of `n` gives `n`.
pub proof fn lemma_decimal_round_trip(n: nat)
    ensures
        all_digits(decimal_digits(n)),
        decimal_value(decimal_digits(n)) == n,
    decreases n,
{
    let s = decimal_digits(n);
    if n < 10 {
        assert(s.drop_last() =~= Seq::<u8>::empty());
        assert(decimal_value(s.drop_last()) == 0);
    } else {
        lemma_decimal_round_trip(n / 10);
        assert(s.drop_last() =~= decimal_digits(n / 10));
        assert(s.last() == (48 + n % 10) as u8);
        assert((n / 10) * 10 + n % 10 == n);
    }
}

/// Appends the decimal digits of `n`.
pub fn push_decimal(dst: &mut Vec<u8>, n: u64)
    ensures
        final(dst)@ == old(dst)@ + decimal_digits(n as nat),
    decreases n,
{
    if n >= 10 {
        push_decimal(dst, n / 10);
    }
    dst.push(48u8 + (n % 10) as u8);
    assert(final(dst)@ =~= old(dst)@ + decimal_digits(n as nat));
}

/// Appends all of `s`.
pub fn push_all(dst: &mut Vec<u8>, s: &[u8])
    ensures
        final(dst)@ == old(dst)@ + s@,
{
    let ghost start = dst@;
    let mut i: usize = 0;
    while i < s.len()
        invariant
            i <= s@.len(),
            dst@ == start + s@.take(i as int),
        decreases s@.len() - i,
    {
        dst.push(s[i]);
        i = i + 1;
        assert(dst@ =~= start + s@.take(i as int));
    }
    assert(s@.take(s@.len() as int) =~= s@);
}

/// Whether a header decides body framing: Content-Length or Transfer-Encoding.
pub open spec fn is_framing(h: Header) -> bool {
    eq_ignore_case(h.name@, Word::ContentLength.spec_bytes()) || eq_ignore_case(
        h.name@,
        Word::TransferEncoding.spec_bytes(),
    )
}

/// Whether the encoder replaces a header: one that decides framing, and,
/// where `connection` is set, a Connection header that says `close` or
/// `keep-alive`.
pub open spec fn is_managed(h: Header, connection: bool) -> bool {
    is_framing(h) || (connection && eq_ignore_case(h.name@, Word::Connection.spec_bytes()) && (
    has_token(h.value@, Word::Close.spec_bytes()) || has_token(
        h.value@,
        Word::KeepAlive.spec_bytes(),
    )))
}

/// The headers without those the encoder replaces, in their order.
pub open spec fn strip_managed(hs: Seq<Header>, connection: bool) -> Seq<Header>
    decreases hs.len(),
{
    if hs.len() == 0 {
        seq![]
    } else if is_managed(hs.last(), connection) {
        strip_managed(hs.drop_last(), connection)
    } else {
        strip_managed(hs.drop_last(), connection).push(hs.last())
    }
}

/// Appending a header that does not decide framing changes no framing fact.
pub proof fn lemma_push_other(hs: Seq<Header>, h: Header)
    requires
        !is_framing(h),
    ensures
        content_length_of(hs.push(h)) == content_length_of(hs),
        last_transfer_encoding(hs.push(h)) == last_transfer_encoding(hs),
{
    assert(hs.push(h).drop_last() =~= hs);
}

/// Appending a Content-Length header to headers without one.
pub proof fn lemma_push_content_length(hs: Seq<Header>, h: Header)
    requires
        content_length_of(hs) is None,
        eq_ignore_case(h.name@, Word::ContentLength.spec_bytes()),
    ensures
        content_length_of(hs.push(h)) == Some(length_value(h.value@)),
        last_transfer_encoding(hs.push(h)) == last_transfer_encoding(hs),
{
    assert(hs.push(h).drop_last() =~= hs);
    assert(!eq_ignore_case(h.name@, Word::TransferEncoding.spec_bytes()));
}

/// Appending a Transfer-Encoding header.
pub proof fn lemma_push_transfer_encoding(hs: Seq<Header>, h: Header)
    requires
        eq_ignore_case(h.name@, Word::TransferEncoding.spec_bytes()),
    ensures
        content_length_of(hs.push(h)) == content_length_of(hs),
        last_transfer_encoding(hs.push(h)) == Some(h.value@),
{
    assert(hs.push(h).drop_last() =~= hs);
    assert(!eq_ignore_case(h.name@, Word::ContentLength.spec_bytes()));
}

/// Headers without managed ones state no length.
pub proof fn lemma_stripped_states_nothing(hs: Seq<Header>, connection: bool)
    ensures
        content_length_of(strip_managed(hs, connection)) is None,
        last_transfer_encoding(strip_managed(hs, connection)) is None,
    decreases hs.len(),
{
    if hs.len() > 0 {
        lemma_stripped_states_nothing(hs.drop_last(), connection);
        if !is_managed(hs.last(), connection) {
            lemma_push_other(strip_managed(hs.drop_last(), connection), hs.last());
        }
    }
}

fn is_managed_header(h: &Header, connection: bool) -> (r: bool)
    ensures
        r == is_managed(*h, connection),
{
    let cl = Word::ContentLength.to_bytes();
    let te = Word::TransferEncoding.to_bytes();
    if bytes_eq_ignore_case(h.name.as_slice(), cl.as_slice()) || bytes_eq_ignore_case(
        h.name.as_slice(),
        te.as_slice(),
    ) {
        return true;
    }
    if !connection {
        return false;
    }
    let c = Word::Connection.to_bytes();
    let close = Word::Close.to_bytes();
    let ka = Word::KeepAlive.to_bytes();
    bytes_eq_ignore_case(h.name.as_slice(), c.as_slice()) && (contains_token(
        h.value.as_slice(),
        close.as_slice(),
    ) || contains_token(h.value.as_slice(), ka.as_slice()))
}

/// Removes the headers that the encoder replaces, keeping the others in order.
fn remove_managed_headers(hs: &mut Vec<Header>, connection: bool)
    ensures
        final(hs)@ == strip_managed(old(hs)@, connection),
{
    let ghost orig = hs@;
    let total = hs.len();
    let mut kept: Vec<Header> = Vec::new();
    let mut i: usize = 0;
    while hs.len() > 0
        invariant
            i <= orig.len(),
            i + hs@.len() == orig.len(),
            total == orig.len(),
            hs@ == orig.subrange(i as int, orig.len() as int),
            kept@ == strip_managed(orig.take(i as int), connection),
        decreases hs@.len(),
    {
        let h = hs.remove(0);
        assert(orig.take(i + 1).drop_last() =~= orig.take(i as int));
        assert(orig.take(i + 1).last() == h);
        if !is_managed_header(&h, connection) {
            kept.push(h);
        }
        i = i + 1;
        assert(hs@ =~= orig.subrange(i as int, orig.len() as int));
    }
    assert(orig.take(i as int) =~= orig);
    *hs = kept;
}

/// The body length that the sender of a message knows.
#[derive(Clone, Copy, Debug, PartialEq, Eq, Structural)]
pub enum BodyLength {
    /// Exactly this many bytes.
    Known(u64),
    /// Not known before the body has been sent.
    Unknown,
}

/// Why a head could not be encoded.
#[derive(Clone, Copy, Debug, PartialEq, Eq, Structural)]
pub enum EncodeError {
    /// A status code outside 100 to 999.
    Status,
    /// A method, target or reason phrase that cannot stand in a start line.
    StartLine,
    /// A header name or value that cannot stand in a header line.
    Header,
    /// A request body of unknown length over HTTP/1.0, which cannot chunk it.
    UnknownLengthHttp10,
}

/// What http's status table gives as the standard reason phrase of a code
/// (empty when it has none).
pub uninterp spec fn reason_phrase(code: u16) -> Seq<u8>;

/// Relies on http::StatusCode::from_u16 and StatusCode::canonical_reason: the
/// registered reason phrase of a status code, or nothing.
#[verifier::external_body]
fn standard_reason(code: u16) -> (r: Vec<u8>)
    ensures
        r@ == reason_phrase(code),
{
    http::StatusCode::from_u16(code).ok().and_then(|c| c.canonical_reason()).unwrap_or("").as_bytes().to_vec()
}

/// A byte that may stand in a token (a method or a header name).
pub open spec fn token_char(b: u8) -> bool {
    33 <= b <= 126 && b != 34u8 && b != 40u8 && b != 41u8 && b != 44u8 && b != 47u8 && b != 58u8
        && b != 59u8 && b != 60u8 && b != 61u8 && b != 62u8 && b != 63u8 && b != 64u8 && b != 91u8
        && b != 92u8 && b != 93u8 && b != 123u8 && b != 125u8
}

/// A byte that may stand in a header value or a reason phrase: tab, or a
/// byte that is no control character.
pub open spec fn value_char(b: u8) -> bool {
    b == 9u8 || (32 <= b && b != 127u8)
}

/// A byte that may stand in a request target: visible ASCII.
pub open spec fn target_char(b: u8) -> bool {
    33 <= b <= 126
}

/// A non-empty run of token bytes.
pub open spec fn is_token(s: Seq<u8>) -> bool {
    s.len() > 0 && forall|i: int| 0 <= i < s.len() ==> token_char(#[trigger] s[i])
}

/// Bytes that may stand in a header value or a reason phrase.
pub open spec fn value_ok(s: Seq<u8>) -> bool {
    forall|i: int| 0 <= i < s.len() ==> value_char(#[trigger] s[i])
}

/// Bytes that may stand as a request target.
pub open spec fn target_ok(s: Seq<u8>) -> bool {
    s.len() > 0 && forall|i: int| 0 <= i < s.len() ==> target_char(#[trigger] s[i])
}

/// A header that can be written as one line.
pub open spec fn header_ok(h: Header) -> bool {
    is_token(h.name@) && value_ok(h.value@)
}

/// Every header can be written as one line.
pub open spec fn headers_ok(hs: Seq<Header>) -> bool {
    forall|i: int| 0 <= i < hs.len() ==> header_ok(#[trigger] hs[i])
}

fn is_token_char(b: u8) -> (r: bool)
    ensures
        r == token_char(b),
{
    33 <= b && b <= 126 && b != 34u8 && b != 40u8 && b != 41u8 && b != 44u8 && b != 47u8 && b
        != 58u8 && b != 59u8 && b != 60u8 && b != 61u8 && b != 62u8 && b != 63u8 && b != 64u8 && b
        != 91u8 && b != 92u8 && b != 93u8 && b != 123u8 && b != 125u8
}

/// Which bytes a check accepts.
#[derive(Clone, Copy, Debug, PartialEq, Eq, Structural)]
enum ByteClass {
    Token,
    Value,
    Target,
}

spec fn in_class(c: ByteClass, b: u8) -> bool {
    match c {
        ByteClass::Token => token_char(b),
        ByteClass::Value => value_char(b),
        ByteClass::Target => target_char(b),
    }
}

fn all_in_class(s: &[u8], c: ByteClass) -> (r: bool)
    ensures
        r == forall|i: int| 0 <= i < s@.len() ==> in_class(c, #[trigger] s@[i]),
{
    let mut i: usize = 0;
    while i < s.len()
        invariant
            i <= s@.len(),
            forall|j: int| 0 <= j < i ==> in_class(c, #[trigger] s@[j]),
        decreases s@.len() - i,
    {
        let b = s[i];
        let ok = match c {
            ByteClass::Token => is_token_char(b),
            ByteClass::Value => b == 9u8 || (32 <= b && b != 127u8),
            ByteClass::Target => 33 <= b && b <= 126,
        };
        if !ok {
            return false;
        }
        i = i + 1;
    }
    true
}

fn check_token(s: &[u8]) -> (r: bool)
    ensures
        r == is_token(s@),
{
    s.len() > 0 && all_in_class(s, ByteClass::Token)
}

fn check_value(s: &[u8]) -> (r: bool)
    ensures
        r == value_ok(s@),
{
    all_in_class(s, ByteClass::Value)
}

fn check_target(s: &[u8]) -> (r: bool)
    ensures
        r == target_ok(s@),
{
    s.len() > 0 && all_in_class(s, ByteClass::Target)
}

fn are_headers_ok(hs: &Vec<Header>) -> (r: bool)
    ensures
        r == headers_ok(hs@),
{
    let mut i: usize = 0;
    while i < hs.len()
        invariant
            i <= hs@.len(),
            forall|j: int| 0 <= j < i ==> header_ok(#[trigger] hs@[j]),
        decreases hs@.len() - i,
    {
        if !check_token(hs[i].name.as_slice()) || !check_value(hs[i].value.as_slice()) {
            return false;
        }
        i = i + 1;
    }
    true
}

/// CR LF.
pub open spec fn crlf() -> Seq<u8> {
    seq![13u8, 10u8]
}

/// `HTTP/1.0` or `HTTP/1.1`.
pub open spec fn version_bytes(v: Version) -> Seq<u8> {
    seq![72u8, 84u8, 84u8, 80u8, 47u8, 49u8, 46u8, if v == Version::Http10 { 48u8 } else { 49u8 }]
}

/// ASCII upper case of one byte.
pub open spec fn upper(b: u8) -> u8 {
    if 97 <= b <= 122 {
        (b - 32) as u8
    } else {
        b
    }
}

/// A header name as written: where `title` is set, its first letter and each
/// letter after a `-` in upper case, the rest as given.
pub open spec fn written_name(name: Seq<u8>, title: bool) -> Seq<u8> {
    if title {
        Seq::new(
            name.len(),
            |i: int| if i == 0 || name[i - 1] == 45u8 {
                upper(name[i])
            } else {
                name[i]
            },
        )
    } else {
        name
    }
}

fn push_name(dst: &mut Vec<u8>, name: &[u8], title: bool)
    ensures
        final(dst)@ == old(dst)@ + written_name(name@, title),
{
    if !title {
        push_all(dst, name);
        return;
    }
    let ghost start = dst@;
    let mut i: usize = 0;
    while i < name.len()
        invariant
            i <= name@.len(),
            dst@ == start + written_name(name@, true).take(i as int),
        decreases name@.len() - i,
    {
        let b = name[i];
        let c = if (i == 0 || name[i - 1] == 45u8) && 97 <= b && b <= 122 {
            b - 32
        } else {
            b
        };
        dst.push(c);
        i = i + 1;
        assert(dst@ =~= start + written_name(name@, true).take(i as int));
    }
    assert(written_name(name@, true).take(name@.len() as int) =~= written_name(name@, true));
}

/// The header lines, each `name: value` and CR LF.
pub open spec fn render_headers(hs: Seq<Header>, title: bool) -> Seq<u8>
    decreases hs.len(),
{
    if hs.len() == 0 {
        seq![]
    } else {
        render_headers(hs.drop_last(), title) + written_name(hs.last().name@, title) + seq![58u8, 32u8] + hs.last().value@
            + crlf()
    }
}

/// A status line: version, code and reason, with CR LF.
pub open spec fn status_line(v: Version, code: u16, reason: Seq<u8>) -> Seq<u8> {
    version_bytes(v) + seq![32u8] + decimal_digits(code as nat) + seq![32u8] + reason + crlf()
}

/// A request line: method, target and version, with CR LF.
pub open spec fn request_line(method: Seq<u8>, target: Seq<u8>, v: Version) -> Seq<u8> {
    method + seq![32u8] + target + seq![32u8] + version_bytes(v) + crlf()
}

fn push_version(dst: &mut Vec<u8>, v: Version)
    ensures
        final(dst)@ == old(dst)@ + version_bytes(v),
{
    let b: Vec<u8> = vec![72u8, 84u8, 84u8, 80u8, 47u8, 49u8, 46u8, if v == Version::Http10 { 48u8 } else { 49u8 }];
    assert(b@ =~= version_bytes(v));
    push_all(dst, b.as_slice());
}

fn push_crlf(dst: &mut Vec<u8>)
    ensures
        final(dst)@ == old(dst)@ + crlf(),
{
    dst.push(13u8);
    dst.push(10u8);
    assert(final(dst)@ =~= old(dst)@ + crlf());
}

/// Writes the header lines and the blank line that ends the head.
fn push_headers(dst: &mut Vec<u8>, hs: &Vec<Header>, title: bool)
    ensures
        final(dst)@ == old(dst)@ + render_headers(hs@, title) + crlf(),
{
    let ghost start = dst@;
    let mut i: usize = 0;
    while i < hs.len()
        invariant
            i <= hs@.len(),
            dst@ == start + render_headers(hs@.take(i as int), title),
        decreases hs@.len() - i,
    {
        assert(hs@.take(i + 1).drop_last() =~= hs@.take(i as int));
        push_name(dst, hs[i].name.as_slice(), title);
        dst.push(58u8);
        dst.push(32u8);
        push_all(dst, hs[i].value.as_slice());
        push_crlf(dst);
        i = i + 1;
        assert(dst@ =~= start + render_headers(hs@.take(i as int), title));
    }
    assert(hs@.take(hs@.len() as int) =~= hs@);
    push_crlf(dst);
}

/// Each header as its name and value bytes.
pub open spec fn header_views(hs: Seq<Header>) -> Seq<(Seq<u8>, Seq<u8>)> {
    hs.map_values(|h: Header| (h.name@, h.value@))
}

/// Appends a header with a fixed name.
fn push_header(hs: &mut Vec<Header>, name: Word, value: Vec<u8>)
    ensures
        final(hs)@.len() == old(hs)@.len() + 1,
        final(hs)@ == old(hs)@.push(final(hs)@.last()),
        final(hs)@.last().name@ == name.spec_bytes(),
        final(hs)@.last().value@ == value@,
        header_views(final(hs)@) == header_views(old(hs)@).push((name.spec_bytes(), value@)),
{
    hs.push(Header { name: name.to_bytes(), value });
    assert(final(hs)@ =~= old(hs)@.push(final(hs)@.last()));
    assert(header_views(final(hs)@) =~= header_views(old(hs)@).push((name.spec_bytes(), value@)));
}

/// The header that states `len`: none for a close-delimited body, and none
/// for no body unless `zero_header` asks for `content-length: 0`.
pub open spec fn framing_part(len: DecodedLength, zero_header: bool) -> Seq<(Seq<u8>, Seq<u8>)> {
    match len {
        DecodedLength::Chunked => seq![
            (Word::TransferEncoding.spec_bytes(), Word::Chunked.spec_bytes()),
        ],
        DecodedLength::Exact(n) => seq![
            (Word::ContentLength.spec_bytes(), decimal_digits(n as nat)),
        ],
        DecodedLength::Zero => if zero_header {
            seq![(Word::ContentLength.spec_bytes(), decimal_digits(0))]
        } else {
            seq![]
        },
        DecodedLength::CloseDelimited => seq![],
    }
}

/// The `Date` header added to headers `hs`: the given value, where there is
/// one and `hs` has no `Date` header.
pub open spec fn date_part(hs: Seq<Header>, date: Option<Seq<u8>>) -> Seq<(Seq<u8>, Seq<u8>)> {
    match date {
        Some(d) => if has_name(hs, Word::Date) {
            seq![]
        } else {
            seq![(Word::Date.spec_bytes(), d)]
        },
        None => seq![],
    }
}

/// The `Connection` header that keep-alive calls for: `close` when the
/// connection is not kept, `keep-alive` when an HTTP/1.0 one is.
pub open spec fn connection_part(keep_alive: bool, v: Version) -> Seq<(Seq<u8>, Seq<u8>)> {
    if !keep_alive {
        seq![(Word::Connection.spec_bytes(), Word::Close.spec_bytes())]
    } else if v == Version::Http10 {
        seq![(Word::Connection.spec_bytes(), Word::KeepAlive.spec_bytes())]
    } else {
        seq![]
    }
}

/// A word names itself, without case.
proof fn lemma_word_matches(w: Word)
    ensures
        eq_ignore_case(w.spec_bytes(), w.spec_bytes()),
{
}

/// Appends the Content-Length or Transfer-Encoding header that states `len`
/// to headers that state no length; none for no body when `zero_header` is
/// false, and none for a close-delimited body.
fn push_framing_header(hs: &mut Vec<Header>, len: DecodedLength, zero_header: bool)
    requires
        content_length_of(old(hs)@) is None,
        last_transfer_encoding(old(hs)@) is None,
        len matches DecodedLength::Exact(n) ==> n > 0,
    ensures
        final(hs)@.take(old(hs)@.len() as int) == old(hs)@,
        final(hs)@.len() >= old(hs)@.len(),
        len is Chunked ==> (content_length_of(final(hs)@) is None && (last_transfer_encoding(final(hs)@) matches Some(te) && chunked_final(te))),
        len matches DecodedLength::Exact(n) ==> (content_length_of(final(hs)@) == Some(Some(n as nat)) && last_transfer_encoding(final(hs)@) is None),
        len is Zero && zero_header ==> content_length_of(final(hs)@) == Some(Some(0nat)) && last_transfer_encoding(final(hs)@) is None,
        (len is CloseDelimited || (len is Zero && !zero_header)) ==> final(hs)@ == old(hs)@,
        header_views(final(hs)@) == header_views(old(hs)@) + framing_part(len, zero_header),
{
    let ghost before = hs@;
    match len {
        DecodedLength::Chunked => {
            push_header(hs, Word::TransferEncoding, Word::Chunked.to_bytes());
            proof {
                lemma_word_matches(Word::TransferEncoding);
                lemma_push_transfer_encoding(before, hs@.last());
                let v = hs@.last().value@;
                assert(v.subrange(0, 7) =~= v);
                lemma_word_matches(Word::Chunked);
            }
        },
        DecodedLength::Exact(n) => {
            let mut digits: Vec<u8> = Vec::new();
            push_decimal(&mut digits, n);
            push_header(hs, Word::ContentLength, digits);
            proof {
                assert(digits@ =~= decimal_digits(n as nat));
                lemma_word_matches(Word::ContentLength);
                lemma_push_content_length(before, hs@.last());
                lemma_decimal_round_trip(n as nat);
            }
        },
        DecodedLength::Zero => {
            if zero_header {
                let mut digits: Vec<u8> = Vec::new();
                push_decimal(&mut digits, 0);
                push_header(hs, Word::ContentLength, digits);
                proof {
                    assert(digits@ =~= decimal_digits(0));
                    lemma_word_matches(Word::ContentLength);
                    lemma_push_content_length(before, hs@.last());
                    lemma_decimal_round_trip(0);
                }
            }
        },
        DecodedLength::CloseDelimited => {},
    }
    assert(hs@.take(before.len() as int) =~= before);
    assert(header_views(hs@) =~= header_views(before) + framing_part(len, zero_header));
}

/// How a server frames the body of a response with this status, to a
/// request with this method: no body where one is forbidden, else the
/// known length, else chunked over HTTP/1.1 and close-delimited over HTTP/1.0.
pub open spec fn response_framing(
    req_method: Option<Seq<u8>>,
    code: u16,
    v: Version,
    body: Option<BodyLength>,
) -> DecodedLength {
    if body_forbidden(req_method, code) {
        DecodedLength::Zero
    } else {
        match body {
            None => DecodedLength::Zero,
            Some(BodyLength::Known(n)) => exact_length(n as nat),
            Some(BodyLength::Unknown) => if v == Version::Http11 {
                DecodedLength::Chunked
            } else {
                DecodedLength::CloseDelimited
            },
        }
    }
}

/// How a client frames the body of a request.
pub open spec fn request_framing(v: Version, body: Option<BodyLength>) -> Result<
    DecodedLength,
    EncodeError,
> {
    match body {
        None => Ok(DecodedLength::Zero),
        Some(BodyLength::Known(n)) => Ok(exact_length(n as nat)),
        Some(BodyLength::Unknown) => if v == Version::Http11 {
            Ok(DecodedLength::Chunked)
        } else {
            Err(EncodeError::UnknownLengthHttp10)
        },
    }
}

fn framing_of(body: Option<BodyLength>, v: Version) -> (r: DecodedLength)
    ensures
        r == (match body {
            None => DecodedLength::Zero,
            Some(BodyLength::Known(n)) => exact_length(n as nat),
            Some(BodyLength::Unknown) => if v == Version::Http11 {
                DecodedLength::Chunked
            } else {
                DecodedLength::CloseDelimited
            },
        }),
{
    match body {
        None => DecodedLength::Zero,
        Some(BodyLength::Known(n)) => if n == 0 {
            DecodedLength::Zero
        } else {
            DecodedLength::Exact(n)
        },
        Some(BodyLength::Unknown) => if v == Version::Http11 {
            DecodedLength::Chunked
        } else {
            DecodedLength::CloseDelimited
        },
    }
}

/// Adds the `Date` header with the given value when there is none, and the
/// `Connection` header that keep-alive calls for.
fn add_date_and_connection(
    hs: &mut Vec<Header>,
    date: &Option<Vec<u8>>,
    keep_alive: bool,
    v: Version,
)
    requires
        content_length_of(old(hs)@) is None,
        last_transfer_encoding(old(hs)@) is None,
    ensures
        content_length_of(final(hs)@) is None,
        last_transfer_encoding(final(hs)@) is None,
        header_views(final(hs)@) == header_views(old(hs)@) + date_part(old(hs)@, method_view(*date))
            + connection_part(keep_alive, v),
{
    let ghost start = hs@;
    if let Some(d) = date {
        if !find_name(hs, Word::Date) {
            let ghost prev = hs@;
            push_header(hs, Word::Date, copy_bytes(d.as_slice()));
            proof {
                lemma_push_other(prev, hs@.last());
            }
        }
    }
    let ghost after_date = hs@;
    assert(header_views(after_date) =~= header_views(start) + date_part(start, method_view(*date)));
    if !keep_alive {
        let ghost prev = hs@;
        push_header(hs, Word::Connection, Word::Close.to_bytes());
        proof {
            lemma_push_other(prev, hs@.last());
        }
    } else if v == Version::Http10 {
        let ghost prev = hs@;
        push_header(hs, Word::Connection, Word::KeepAlive.to_bytes());
        proof {
            lemma_push_other(prev, hs@.last());
        }
    }
    assert(header_views(hs@) =~= header_views(after_date) + connection_part(keep_alive, v));
}

/// Whether the Content-Length headers of `hs` are absent or agree on a valid
/// number.
pub open spec fn lengths_consistent(hs: Seq<Header>) -> bool {
    !(content_length_of(hs) matches Some(None))
}

/// What a response head needs to be encoded: valid header names and values,
/// Content-Length headers that agree, and a valid reason phrase and date.
pub open spec fn response_inputs_ok(
    hs: Seq<Header>,
    reason: Seq<u8>,
    date: Option<Seq<u8>>,
) -> bool {
    headers_ok(hs) && lengths_consistent(hs) && value_ok(reason) && (date matches Some(d)
        ==> value_ok(d))
}

fn check_lengths(hs: &Vec<Header>) -> (r: bool)
    ensures
        r == lengths_consistent(hs@),
{
    match find_content_length(hs) {
        Some(None) => false,
        _ => true,
    }
}

/// Writes a response head: status line, header lines and the blank line.
fn write_response_head(dst: &mut Vec<u8>, head: &MessageHead<StatusLine>, title: bool)
    ensures
        final(dst)@ == old(dst)@ + status_line(
            head.version,
            head.subject.code,
            if head.subject.reason@.len() == 0 {
                reason_phrase(head.subject.code)
            } else {
                head.subject.reason@
            },
        ) + render_headers(head.headers@, title) + crlf(),
{
    let ghost start = dst@;
    push_version(dst, head.version);
    dst.push(32u8);
    push_decimal(dst, head.subject.code as u64);
    dst.push(32u8);
    let ghost mid = dst@;
    if head.subject.reason.len() == 0 {
        let reason = standard_reason(head.subject.code);
        push_all(dst, reason.as_slice());
    } else {
        push_all(dst, head.subject.reason.as_slice());
    }
    push_crlf(dst);
    let ghost line = dst@;
    push_headers(dst, &head.headers, title);
    proof {
        let reason = if head.subject.reason@.len() == 0 {
            reason_phrase(head.subject.code)
        } else {
            head.subject.reason@
        };
        assert(line =~= start + status_line(head.version, head.subject.code, reason));
        assert(dst@ =~= start + status_line(head.version, head.subject.code, reason) + render_headers(head.headers@, title) + crlf());
    }
}

/// Server side: completes the headers of a response and writes its head to
/// `dst`, returning how its body is to be framed.
///
/// The length headers of the head, and its Connection headers that say
/// `close` or `keep-alive`, are replaced: by a `Date` header with the given
/// value when there is none, by `Connection: close` when the connection is
/// not kept alive or `Connection: keep-alive` for a kept HTTP/1.0 one, and
/// by the header that states the framing (none for a body that is forbidden
/// or close-delimited). An empty reason phrase is replaced by the standard
/// one, and with `title_case_headers` header names are written in title
/// case. A client parsing the headers as written finds the same body length.
/// Nothing is changed or written when the head cannot be encoded.
pub fn encode_response(
    head: &mut MessageHead<StatusLine>,
    body: Option<BodyLength>,
    keep_alive: bool,
    req_method: &Option<Vec<u8>>,
    date: &Option<Vec<u8>>,
    title_case_headers: bool,
    dst: &mut Vec<u8>,
) -> (r: Result<DecodedLength, EncodeError>)
    ensures
        !(100 <= old(head).subject.code <= 999) ==> r == Err::<DecodedLength, EncodeError>(
            EncodeError::Status,
        ),
        100 <= old(head).subject.code <= 999 && !response_inputs_ok(
            old(head).headers@,
            old(head).subject.reason@,
            method_view(*date),
        ) ==> r == Err::<DecodedLength, EncodeError>(EncodeError::Header),
        r is Err ==> *final(head) == *old(head) && final(dst)@ == old(dst)@,
        100 <= old(head).subject.code <= 999 && response_inputs_ok(
            old(head).headers@,
            old(head).subject.reason@,
            method_view(*date),
        ) ==> r == Ok::<DecodedLength, EncodeError>(
            response_framing(
                method_view(*req_method),
                old(head).subject.code,
                old(head).version,
                body,
            ),
        ),
        r matches Ok(len) ==> {
            &&& final(head).version == old(head).version
            &&& final(head).subject == old(head).subject
            &&& header_views(final(head).headers@) == header_views(
                strip_managed(old(head).headers@, true),
            ) + date_part(strip_managed(old(head).headers@, true), method_view(*date))
                + connection_part(keep_alive, old(head).version) + framing_part(
                len,
                !body_forbidden(method_view(*req_method), old(head).subject.code),
            )
            &&& response_length(
                method_view(*req_method),
                final(head).subject.code,
                final(head).headers@,
            ) == Ok::<DecodedLength, ParseError>(len)
            &&& final(dst)@ == old(dst)@ + status_line(
                final(head).version,
                final(head).subject.code,
                if old(head).subject.reason@.len() == 0 {
                    reason_phrase(old(head).subject.code)
                } else {
                    old(head).subject.reason@
                },
            ) + render_headers(final(head).headers@, title_case_headers) + crlf()
        },
{
    let code = head.subject.code;
    if code < 100 || code > 999 {
        return Err(EncodeError::Status);
    }
    let date_ok = match date {
        Some(d) => check_value(d.as_slice()),
        None => true,
    };
    if !are_headers_ok(&head.headers) || !check_lengths(&head.headers) || !check_value(
        head.subject.reason.as_slice(),
    ) || !date_ok {
        return Err(EncodeError::Header);
    }
    let ghost old_headers = head.headers@;
    remove_managed_headers(&mut head.headers, true);
    proof {
        lemma_stripped_states_nothing(old_headers, true);
    }
    add_date_and_connection(&mut head.headers, date, keep_alive, head.version);
    let forbidden = is_body_forbidden(req_method, code);
    let len = if forbidden {
        DecodedLength::Zero
    } else {
        framing_of(body, head.version)
    };
    push_framing_header(&mut head.headers, len, !forbidden);
    write_response_head(dst, head, title_case_headers);
    Ok(len)
}

/// What a request head needs to be encoded: a token as method, a valid
/// target, valid header names and values, and Content-Length headers that
/// agree.
pub open spec fn request_inputs_ok(line: RequestLine, hs: Seq<Header>) -> bool {
    is_token(line.method@) && target_ok(line.target@) && headers_ok(hs) && lengths_consistent(hs)
}

/// Writes a request head: request line, header lines and the blank line.
fn write_request_head(dst: &mut Vec<u8>, head: &MessageHead<RequestLine>, title: bool)
    ensures
        final(dst)@ == old(dst)@ + request_line(
            head.subject.method@,
            head.subject.target@,
            head.version,
        ) + render_headers(head.headers@, title) + crlf(),
{
    let ghost start = dst@;
    push_all(dst, head.subject.method.as_slice());
    dst.push(32u8);
    push_all(dst, head.subject.target.as_slice());
    dst.push(32u8);
    push_version(dst, head.version);
    push_crlf(dst);
    let ghost line = dst@;
    push_headers(dst, &head.headers, title);
    proof {
        assert(line =~= start + request_line(head.subject.method@, head.subject.target@, head.version));
        assert(dst@ =~= start + request_line(head.subject.method@, head.subject.target@, head.version)
            + render_headers(head.headers@, title) + crlf());
    }
}

/// Client side: replaces the length headers of a request by the one that
/// states how its body is framed (none when it has no body), writes its
/// head to `dst` (names in title case with `title_case_headers`), and
/// records its method for reading the response. A server
/// parsing the headers as written finds the same body length. Nothing is
/// changed or written when the head cannot be encoded.
pub fn encode_request(
    head: &mut MessageHead<RequestLine>,
    body: Option<BodyLength>,
    req_method: &mut Option<Vec<u8>>,
    title_case_headers: bool,
    dst: &mut Vec<u8>,
) -> (r: Result<DecodedLength, EncodeError>)
    ensures
        request_framing(old(head).version, body) matches Err(e) ==> r == Err::<
            DecodedLength,
            EncodeError,
        >(e),
        request_framing(old(head).version, body) is Ok && !(is_token(old(head).subject.method@)
            && target_ok(old(head).subject.target@)) ==> r == Err::<DecodedLength, EncodeError>(
            EncodeError::StartLine,
        ),
        request_framing(old(head).version, body) is Ok && is_token(old(head).subject.method@)
            && target_ok(old(head).subject.target@) && !(headers_ok(old(head).headers@)
            && lengths_consistent(old(head).headers@)) ==> r == Err::<DecodedLength, EncodeError>(
            EncodeError::Header,
        ),
        r is Err ==> *final(head) == *old(head) && final(dst)@ == old(dst)@ && *final(req_method)
            == *old(req_method),
        request_inputs_ok(old(head).subject, old(head).headers@) ==> (request_framing(
            old(head).version,
            body,
        ) matches Ok(len) ==> r == Ok::<DecodedLength, EncodeError>(len)),
        r matches Ok(len) ==> {
            &&& final(head).version == old(head).version
            &&& final(head).subject == old(head).subject
            &&& method_view(*final(req_method)) == Some(old(head).subject.method@)
            &&& header_views(final(head).headers@) == header_views(
                strip_managed(old(head).headers@, false),
            ) + framing_part(len, false)
            &&& request_length(final(head).headers@) == Ok::<DecodedLength, ParseError>(len)
            &&& final(dst)@ == old(dst)@ + request_line(
                final(head).subject.method@,
                final(head).subject.target@,
                final(head).version,
            ) + render_headers(final(head).headers@, title_case_headers) + crlf()
        },
{
    if body == Some(BodyLength::Unknown) && head.version == Version::Http10 {
        return Err(EncodeError::UnknownLengthHttp10);
    }
    if !check_token(head.subject.method.as_slice()) || !check_target(head.subject.target.as_slice()) {
        return Err(EncodeError::StartLine);
    }
    if !are_headers_ok(&head.headers) || !check_lengths(&head.headers) {
        return Err(EncodeError::Header);
    }
    let ghost old_headers = head.headers@;
    remove_managed_headers(&mut head.headers, false);
    proof {
        lemma_stripped_states_nothing(old_headers, false);
    }
    let len = framing_of(body, head.version);
    push_framing_header(&mut head.headers, len, false);
    write_request_head(dst, head, title_case_headers);
    *req_method = Some(copy_bytes(head.subject.method.as_slice()));
    Ok(len)
}

} // verus!
