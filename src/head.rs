use vstd::prelude::*;
use crate::headers::Header;
use crate::length::DecodedLength;

verus! {

/// Protocol version of a message.
#[derive(Clone, Copy, Debug, PartialEq, Eq, Structural)]
pub enum Version {
    Http10,
    Http11,
}

/// The parts of a request line after the version: method and target.
#[derive(Debug)]
pub struct RequestLine {
    pub method: Vec<u8>,
    pub target: Vec<u8>,
}

/// The parts of a status line after the version: code and reason phrase.
#[derive(Debug)]
pub struct StatusLine {
    pub code: u16,
    pub reason: Vec<u8>,
}

/// A start line with its version and headers, generic over the role's line.
#[derive(Debug)]
pub struct MessageHead<T> {
    pub version: Version,
    pub headers: Vec<Header>,
    pub subject: T,
}

/// A head read from bytes, with the framing decisions taken from it.
#[derive(Debug)]
pub struct ParsedMessage<T> {
    pub head: MessageHead<T>,
    pub decode: DecodedLength,
    pub expect_continue: bool,
    pub keep_alive: bool,
    pub wants_upgrade: bool,
}

/// A copy of a byte slice.
pub fn copy_bytes(v: &[u8]) -> (r: Vec<u8>)
    ensures
        r@ == v@,
{
    let mut r: Vec<u8> = Vec::new();
    let mut i: usize = 0;
    while i < v.len()
        invariant
            i <= v@.len(),
            r@ == v@.take(i as int),
        decreases v@.len() - i,
    {
        r.push(v[i]);
        i = i + 1;
        assert(r@ =~= v@.take(i as int));
    }
    assert(v@.take(v@.len() as int) =~= v@);
    r
}

} // verus!
