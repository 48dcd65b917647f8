use vstd::prelude::*;
use crate::headers::{Header, Word, eq_ignore_case, bytes_eq_ignore_case, has_name};

verus! {

/// How the body of a message is delimited.
#[derive(Clone, Copy, Debug, PartialEq, Eq, Structural)]
pub enum DecodedLength {
    /// The message has no body.
    Zero,
    /// Exactly this many bytes follow (never zero).
    Exact(u64),
    /// The body uses chunked transfer coding.
    Chunked,
    /// The body runs until the connection closes.
    CloseDelimited,
}

/// Why a message head could not be parsed.
#[derive(Clone, Copy, Debug, PartialEq, Eq, Structural)]
pub enum ParseError {
    /// The start line or a header line is malformed.
    Malformed,
    /// More headers than the configured limit.
    TooManyHeaders,
    /// A protocol version other than HTTP/1.0 and HTTP/1.1.
    Version,
    /// A Content-Length value is not a number, or two of them differ.
    ContentLength,
    /// A request's Transfer-Encoding does not end in chunked.
    TransferEncoding,
    /// Both Transfer-Encoding and Content-Length are present.
    LengthConflict,
}

/// Value of a non-empty run of ASCII digits, read as a decimal number.
pub open spec fn decimal_value(s: Seq<u8>) -> nat
    decreases s.len(),
{
    if s.len() == 0 {
        0
    } else {
        decimal_value(s.drop_last()) * 10 + (s.last() - 48) as nat
    }
}

/// Whether `s` is a non-empty run of ASCII digits.
pub open spec fn all_digits(s: Seq<u8>) -> bool {
    s.len() > 0 && forall|i: int| 0 <= i < s.len() ==> 48 <= #[trigger] s[i] <= 57
}

/// The number a Content-Length value states, if it is a valid one.
pub open spec fn length_value(s: Seq<u8>) -> Option<nat> {
    if all_digits(s) && decimal_value(s) <= u64::MAX {
        Some(decimal_value(s))
    } else {
        None
    }
}

/// Reads a Content-Length value.
pub fn parse_length_value(s: &[u8]) -> (r: Option<u64>)
    ensures
        r matches Some(n) ==> length_value(s@) == Some(n as nat),
        r is None ==> length_value(s@) is None,
{
    if s.len() == 0 {
        return None;
    }
    let mut acc: u64 = 0;
    let mut overflow = false;
    let mut i: usize = 0;
    while i < s.len()
        invariant
            i <= s@.len(),
            forall|j: int| 0 <= j < i ==> 48 <= #[trigger] s@[j] <= 57,
            !overflow ==> acc as nat == decimal_value(s@.take(i as int)),
            overflow ==> decimal_value(s@.take(i as int)) > u64::MAX,
        decreases s@.len() - i,
    {
        let b = s[i];
        if b < 48 || b > 57 {
            return None;
        }
        assert(s@.take(i + 1).drop_last() =~= s@.take(i as int));
        let d = (b - 48) as u64;
        if !overflow {
            if acc > (u64::MAX - d) / 10 {
                overflow = true;
            } else {
                acc = acc * 10 + d;
            }
        }
        i = i + 1;
    }
    assert(s@.take(s@.len() as int) =~= s@);
    if overflow {
        None
    } else {
        Some(acc)
    }
}

/// What the Content-Length headers state together: `None` when there is none,
/// `Some(None)` when one is invalid or two differ, `Some(Some(n))` otherwise.
pub open spec fn content_length_of(hs: Seq<Header>) -> Option<Option<nat>>
    decreases hs.len(),
{
    if hs.len() == 0 {
        None
    } else {
        let prev = content_length_of(hs.drop_last());
        let h = hs.last();
        if !eq_ignore_case(h.name@, Word::ContentLength.spec_bytes()) {
            prev
        } else {
            let v = length_value(h.value@);
            match prev {
                None => Some(v),
                Some(None) => Some(None),
                Some(Some(m)) => if v == Some(m) {
                    Some(Some(m))
                } else {
                    Some(None)
                },
            }
        }
    }
}

/// What the Content-Length headers state together.
pub fn find_content_length(hs: &Vec<Header>) -> (r: Option<Option<u64>>)
    ensures
        r is None <==> content_length_of(hs@) is None,
        r matches Some(None) <==> content_length_of(hs@) matches Some(None),
        r matches Some(Some(n)) ==> content_length_of(hs@) == Some(Some(n as nat)),
{
    let name = Word::ContentLength.to_bytes();
    let mut r: Option<Option<u64>> = None;
    let mut i: usize = 0;
    while i < hs.len()
        invariant
            i <= hs@.len(),
            name@ == Word::ContentLength.spec_bytes(),
            r is None <==> content_length_of(hs@.take(i as int)) is None,
            r matches Some(None) <==> content_length_of(hs@.take(i as int)) matches Some(None),
            r matches Some(Some(n)) ==> content_length_of(hs@.take(i as int)) == Some(Some(n as nat)),
        decreases hs@.len() - i,
    {
        assert(hs@.take(i + 1).drop_last() =~= hs@.take(i as int));
        if bytes_eq_ignore_case(hs[i].name.as_slice(), name.as_slice()) {
            let v = parse_length_value(hs[i].value.as_slice());
            r = match r {
                None => Some(v),
                Some(None) => Some(None),
                Some(Some(m)) => match v {
                    Some(x) => if x == m {
                        Some(Some(m))
                    } else {
                        Some(None)
                    },
                    None => Some(None),
                },
            };
        }
        i = i + 1;
    }
    assert(hs@.take(hs@.len() as int) =~= hs@);
    r
}

/// The value of the last Transfer-Encoding header, if any.
pub open spec fn last_transfer_encoding(hs: Seq<Header>) -> Option<Seq<u8>>
    decreases hs.len(),
{
    if hs.len() == 0 {
        None
    } else if eq_ignore_case(hs.last().name@, Word::TransferEncoding.spec_bytes()) {
        Some(hs.last().value@)
    } else {
        last_transfer_encoding(hs.drop_last())
    }
}

/// Whether the last coding of a Transfer-Encoding value is chunked.
pub open spec fn chunked_final(v: Seq<u8>) -> bool {
    let n = v.len();
    n >= 7 && eq_ignore_case(v.subrange(n - 7, n as int), Word::Chunked.spec_bytes()) && (n == 7
        || v[n - 8] == 44u8 || v[n - 8] == 32u8 || v[n - 8] == 9u8)
}

/// Whether a Transfer-Encoding value ends in the chunked coding.
pub fn is_chunked_final(v: &[u8]) -> (r: bool)
    ensures
        r == chunked_final(v@),
{
    let n = v.len();
    if n < 7 {
        return false;
    }
    let c = Word::Chunked.to_bytes();
    let tail = crate::headers::eq_ignore_case_at(v, n - 7, c.as_slice());
    if !tail {
        return false;
    }
    n == 7 || v[n - 8] == 44u8 || v[n - 8] == 32u8 || v[n - 8] == 9u8
}

/// The value of the last Transfer-Encoding header, if any.
pub fn find_transfer_encoding(hs: &Vec<Header>) -> (r: Option<&Vec<u8>>)
    ensures
        r matches Some(v) ==> last_transfer_encoding(hs@) == Some(v@),
        r is None ==> last_transfer_encoding(hs@) is None,
{
    let name = Word::TransferEncoding.to_bytes();
    let mut i: usize = hs.len();
    assert(hs@.take(i as int) =~= hs@);
    while i > 0
        invariant
            i <= hs@.len(),
            name@ == Word::TransferEncoding.spec_bytes(),
            last_transfer_encoding(hs@) == last_transfer_encoding(hs@.take(i as int)),
        decreases i,
    {
        assert(hs@.take(i as int).drop_last() =~= hs@.take(i - 1));
        if bytes_eq_ignore_case(hs[i - 1].name.as_slice(), name.as_slice()) {
            return Some(&hs[i - 1].value);
        }
        i = i - 1;
    }
    None
}

/// The request method `HEAD`.
pub open spec fn head_method() -> Seq<u8> {
    seq![72u8, 69u8, 65u8, 68u8]
}

/// The request method `CONNECT`.
pub open spec fn connect_method() -> Seq<u8> {
    seq![67u8, 79u8, 78u8, 78u8, 69u8, 67u8, 84u8]
}

/// The bytes of an optional method.
pub open spec fn method_view(m: Option<Vec<u8>>) -> Option<Seq<u8>> {
    match m {
        Some(v) => Some(v@),
        None => None,
    }
}

/// Byte-wise equality of two slices.
pub fn bytes_eq(a: &[u8], b: &[u8]) -> (r: bool)
    ensures
        r == (a@ == b@),
{
    if a.len() != b.len() {
        return false;
    }
    let mut i: usize = 0;
    while i < a.len()
        invariant
            a@.len() == b@.len(),
            i <= a@.len(),
            forall|j: int| 0 <= j < i ==> a@[j] == b@[j],
        decreases a@.len() - i,
    {
        if a[i] != b[i] {
            return false;
        }
        i = i + 1;
    }
    assert(a@ =~= b@);
    true
}

/// Whether an optional method is the given one.
fn method_is(m: &Option<Vec<u8>>, want: &[u8]) -> (r: bool)
    ensures
        r == (method_view(*m) == Some(want@)),
{
    match m {
        Some(v) => bytes_eq(v.as_slice(), want),
        None => false,
    }
}

/// The length that a Content-Length of `n` gives.
pub open spec fn exact_length(n: nat) -> DecodedLength {
    if n == 0 {
        DecodedLength::Zero
    } else {
        DecodedLength::Exact(n as u64)
    }
}

/// Body length of a request with the given headers.
pub open spec fn request_length(hs: Seq<Header>) -> Result<DecodedLength, ParseError> {
    match last_transfer_encoding(hs) {
        Some(te) => if content_length_of(hs) is Some {
            Err(ParseError::LengthConflict)
        } else if chunked_final(te) {
            Ok(DecodedLength::Chunked)
        } else {
            Err(ParseError::TransferEncoding)
        },
        None => match content_length_of(hs) {
            None => Ok(DecodedLength::Zero),
            Some(None) => Err(ParseError::ContentLength),
            Some(Some(n)) => Ok(exact_length(n)),
        },
    }
}

/// Whether a response with this status, to a request with this method, has no body.
pub open spec fn body_forbidden(req_method: Option<Seq<u8>>, code: u16) -> bool {
    req_method == Some(head_method()) || (100 <= code <= 199) || code == 204 || code == 304
        || (req_method == Some(connect_method()) && 200 <= code <= 299)
}

/// Body length of a response with the given status and headers, to a request
/// with the given method.
pub open spec fn response_length(req_method: Option<Seq<u8>>, code: u16, hs: Seq<Header>) -> Result<
    DecodedLength,
    ParseError,
> {
    if body_forbidden(req_method, code) {
        Ok(DecodedLength::Zero)
    } else {
        match last_transfer_encoding(hs) {
            Some(te) => if content_length_of(hs) is Some {
                Err(ParseError::LengthConflict)
            } else if chunked_final(te) {
                Ok(DecodedLength::Chunked)
            } else {
                Ok(DecodedLength::CloseDelimited)
            },
            None => match content_length_of(hs) {
                None => Ok(DecodedLength::CloseDelimited),
                Some(None) => Err(ParseError::ContentLength),
                Some(Some(n)) => Ok(exact_length(n)),
            },
        }
    }
}

/// Classifies the body length of a request from its headers.
pub fn classify_request(hs: &Vec<Header>) -> (r: Result<DecodedLength, ParseError>)
    ensures
        r == request_length(hs@),
{
    let cl = find_content_length(hs);
    match find_transfer_encoding(hs) {
        Some(te) => if cl.is_some() {
            Err(ParseError::LengthConflict)
        } else if is_chunked_final(te.as_slice()) {
            Ok(DecodedLength::Chunked)
        } else {
            Err(ParseError::TransferEncoding)
        },
        None => match cl {
            None => Ok(DecodedLength::Zero),
            Some(None) => Err(ParseError::ContentLength),
            Some(Some(n)) => if n == 0 {
                Ok(DecodedLength::Zero)
            } else {
                Ok(DecodedLength::Exact(n))
            },
        },
    }
}

/// Whether a response with this status, to a request with this method, has no body.
pub fn is_body_forbidden(req_method: &Option<Vec<u8>>, code: u16) -> (r: bool)
    ensures
        r == body_forbidden(method_view(*req_method), code),
{
    let head: Vec<u8> = vec![72u8, 69u8, 65u8, 68u8];
    let connect: Vec<u8> = vec![67u8, 79u8, 78u8, 78u8, 69u8, 67u8, 84u8];
    assert(head@ =~= head_method());
    assert(connect@ =~= connect_method());
    method_is(req_method, head.as_slice()) || (100 <= code && code <= 199) || code == 204 || code
        == 304 || (method_is(req_method, connect.as_slice()) && 200 <= code && code <= 299)
}

/// Classifies the body length of a response from its status and headers,
/// given the method of the request it answers.
pub fn classify_response(req_method: &Option<Vec<u8>>, code: u16, hs: &Vec<Header>) -> (r: Result<
    DecodedLength,
    ParseError,
>)
    ensures
        r == response_length(method_view(*req_method), code, hs@),
{
    if is_body_forbidden(req_method, code) {
        return Ok(DecodedLength::Zero);
    }
    let cl = find_content_length(hs);
    match find_transfer_encoding(hs) {
        Some(te) => if cl.is_some() {
            Err(ParseError::LengthConflict)
        } else if is_chunked_final(te.as_slice()) {
            Ok(DecodedLength::Chunked)
        } else {
            Ok(DecodedLength::CloseDelimited)
        },
        None => match cl {
            None => Ok(DecodedLength::CloseDelimited),
            Some(None) => Err(ParseError::ContentLength),
            Some(Some(n)) => if n == 0 {
                Ok(DecodedLength::Zero)
            } else {
                Ok(DecodedLength::Exact(n))
            },
        },
    }
}

/// A request's body length is never delimited by the connection closing.
pub proof fn lemma_request_never_close_delimited(hs: Seq<Header>)
    ensures
        request_length(hs) != Ok::<DecodedLength, ParseError>(DecodedLength::CloseDelimited),
{
}

/// A response to HEAD, or with a status that forbids a body, has no body,
/// whatever its length headers say.
pub proof fn lemma_forbidden_body_is_zero(req_method: Option<Seq<u8>>, code: u16, hs: Seq<Header>)
    requires
        body_forbidden(req_method, code),
    ensures
        response_length(req_method, code, hs) == Ok::<DecodedLength, ParseError>(DecodedLength::Zero),
{
}

/// Any Content-Length header makes the combined Content-Length state present.
pub proof fn lemma_content_length_present(hs: Seq<Header>)
    requires
        has_name(hs, Word::ContentLength),
    ensures
        content_length_of(hs) is Some,
    decreases hs.len(),
{
    let i = choose|i: int|
        0 <= i < hs.len() && eq_ignore_case(#[trigger] hs[i].name@, Word::ContentLength.spec_bytes());
    if i < hs.len() - 1 {
        assert(hs.drop_last()[i] == hs[i]);
        lemma_content_length_present(hs.drop_last());
    }
}

/// A message with a chunked Transfer-Encoding and a Content-Length header is
/// refused, as a request and as a response that may carry a body.
pub proof fn lemma_chunked_with_content_length_fails(
    req_method: Option<Seq<u8>>,
    code: u16,
    hs: Seq<Header>,
)
    requires
        last_transfer_encoding(hs) matches Some(te) && chunked_final(te),
        has_name(hs, Word::ContentLength),
    ensures
        request_length(hs) == Err::<DecodedLength, ParseError>(ParseError::LengthConflict),
        !body_forbidden(req_method, code) ==> response_length(req_method, code, hs) == Err::<
            DecodedLength,
            ParseError,
        >(ParseError::LengthConflict),
{
    lemma_content_length_present(hs);
}

} // verus!
