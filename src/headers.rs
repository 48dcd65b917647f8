use vstd::prelude::*;

verus! {

/// One header line: its name and its value, as bytes.
#[derive(Clone, Debug)]
pub struct Header {
    pub name: Vec<u8>,
    pub value: Vec<u8>,
}

/// The fixed words that framing decisions look for, each stored lower case.
#[derive(Clone, Copy, Debug, PartialEq, Eq, Structural)]
pub enum Word {
    ContentLength,
    TransferEncoding,
    Connection,
    Expect,
    Upgrade,
    Close,
    KeepAlive,
    Continue100,
    Chunked,
    Date,
}

impl Word {
    /// The word's bytes.
    pub open spec fn spec_bytes(self) -> Seq<u8> {
        match self {
            Word::ContentLength => seq![99u8, 111u8, 110u8, 116u8, 101u8, 110u8, 116u8, 45u8, 108u8, 101u8, 110u8, 103u8, 116u8, 104u8],
            Word::TransferEncoding => seq![116u8, 114u8, 97u8, 110u8, 115u8, 102u8, 101u8, 114u8, 45u8, 101u8, 110u8, 99u8, 111u8, 100u8, 105u8, 110u8, 103u8],
            Word::Connection => seq![99u8, 111u8, 110u8, 110u8, 101u8, 99u8, 116u8, 105u8, 111u8, 110u8],
            Word::Expect => seq![101u8, 120u8, 112u8, 101u8, 99u8, 116u8],
            Word::Upgrade => seq![117u8, 112u8, 103u8, 114u8, 97u8, 100u8, 101u8],
            Word::Close => seq![99u8, 108u8, 111u8, 115u8, 101u8],
            Word::KeepAlive => seq![107u8, 101u8, 101u8, 112u8, 45u8, 97u8, 108u8, 105u8, 118u8, 101u8],
            Word::Continue100 => seq![49u8, 48u8, 48u8, 45u8, 99u8, 111u8, 110u8, 116u8, 105u8, 110u8, 117u8, 101u8],
            Word::Chunked => seq![99u8, 104u8, 117u8, 110u8, 107u8, 101u8, 100u8],
            Word::Date => seq![100u8, 97u8, 116u8, 101u8],
        }
    }

    /// The word's bytes, as a new vector.
    pub fn to_bytes(self) -> (r: Vec<u8>)
        ensures
            r@ == self.spec_bytes(),
    {
        let r = match self {
            Word::ContentLength => vec![99u8, 111u8, 110u8, 116u8, 101u8, 110u8, 116u8, 45u8, 108u8, 101u8, 110u8, 103u8, 116u8, 104u8],
            Word::TransferEncoding => vec![116u8, 114u8, 97u8, 110u8, 115u8, 102u8, 101u8, 114u8, 45u8, 101u8, 110u8, 99u8, 111u8, 100u8, 105u8, 110u8, 103u8],
            Word::Connection => vec![99u8, 111u8, 110u8, 110u8, 101u8, 99u8, 116u8, 105u8, 111u8, 110u8],
            Word::Expect => vec![101u8, 120u8, 112u8, 101u8, 99u8, 116u8],
            Word::Upgrade => vec![117u8, 112u8, 103u8, 114u8, 97u8, 100u8, 101u8],
            Word::Close => vec![99u8, 108u8, 111u8, 115u8, 101u8],
            Word::KeepAlive => vec![107u8, 101u8, 101u8, 112u8, 45u8, 97u8, 108u8, 105u8, 118u8, 101u8],
            Word::Continue100 => vec![49u8, 48u8, 48u8, 45u8, 99u8, 111u8, 110u8, 116u8, 105u8, 110u8, 117u8, 101u8],
            Word::Chunked => vec![99u8, 104u8, 117u8, 110u8, 107u8, 101u8, 100u8],
            Word::Date => vec![100u8, 97u8, 116u8, 101u8],
        };
        assert(r@ =~= self.spec_bytes());
        r
    }
}

/// ASCII lower case of one byte.
pub open spec fn lower(b: u8) -> u8 {
    if 65 <= b <= 90 {
        (b + 32) as u8
    } else {
        b
    }
}

/// `a` equals `b` when ASCII letters are compared without case.
pub open spec fn eq_ignore_case(a: Seq<u8>, b: Seq<u8>) -> bool {
    a.len() == b.len() && forall|i: int| 0 <= i < a.len() ==> lower(#[trigger] a[i]) == lower(b[i])
}

fn lower_byte(b: u8) -> (r: u8)
    ensures
        r == lower(b),
{
    if 65 <= b && b <= 90 {
        b + 32
    } else {
        b
    }
}

/// Whether `a[start..start + b.len()]` equals `b` without case.
pub(crate) fn eq_ignore_case_at(a: &[u8], start: usize, b: &[u8]) -> (r: bool)
    requires
        start + b@.len() <= a@.len(),
    ensures
        r == eq_ignore_case(a@.subrange(start as int, start + b@.len()), b@),
{
    let alen = a.len();
    let mut i: usize = 0;
    while i < b.len()
        invariant
            alen == a@.len(),
            i <= b@.len(),
            start + b@.len() <= a@.len(),
            forall|j: int| 0 <= j < i ==> lower(a@[start + j]) == lower(b@[j]),
        decreases b@.len() - i,
    {
        if lower_byte(a[start + i]) != lower_byte(b[i]) {
            assert(lower(a@.subrange(start as int, start + b@.len())[i as int]) != lower(b@[i as int]));
            return false;
        }
        i = i + 1;
    }
    true
}

/// Whether `a` equals `b` without case.
pub fn bytes_eq_ignore_case(a: &[u8], b: &[u8]) -> (r: bool)
    ensures
        r == eq_ignore_case(a@, b@),
{
    if a.len() != b.len() {
        return false;
    }
    let r = eq_ignore_case_at(a, 0, b);
    assert(a@.subrange(0, b@.len() as int) =~= a@);
    r
}

/// A byte that may stand around an element of a comma-separated list.
pub open spec fn list_delimiter(b: u8) -> bool {
    b == 44u8 || b == 32u8 || b == 9u8
}

/// `tok` stands in `v` at `i`, without case, as a whole list element.
pub open spec fn token_at(v: Seq<u8>, i: int, tok: Seq<u8>) -> bool {
    0 <= i && i + tok.len() <= v.len() && eq_ignore_case(v.subrange(i, i + tok.len()), tok) && (i
        == 0 || list_delimiter(v[i - 1])) && (i + tok.len() == v.len() || list_delimiter(
        v[i + tok.len()],
    ))
}

/// `tok` is an element of the comma-separated list `v`, without case.
pub open spec fn has_token(v: Seq<u8>, tok: Seq<u8>) -> bool {
    exists|i: int| token_at(v, i, tok)
}

fn is_list_delimiter(b: u8) -> (r: bool)
    ensures
        r == list_delimiter(b),
{
    b == 44u8 || b == 32u8 || b == 9u8
}

/// Whether `tok` is an element of the comma-separated list `v`, without case.
pub fn contains_token(v: &[u8], tok: &[u8]) -> (r: bool)
    ensures
        r == has_token(v@, tok@),
{
    let vlen = v.len();
    let tlen = tok.len();
    if tlen > vlen {
        return false;
    }
    let last = vlen - tlen;
    let mut i: usize = 0;
    loop
        invariant
            vlen == v@.len(),
            tlen == tok@.len(),
            last == vlen - tlen,
            i <= last,
            forall|k: int| 0 <= k < i ==> !token_at(v@, k, tok@),
        decreases last - i,
    {
        if eq_ignore_case_at(v, i, tok) && (i == 0 || is_list_delimiter(v[i - 1])) && (i + tlen
            == vlen || is_list_delimiter(v[i + tlen])) {
            assert(token_at(v@, i as int, tok@));
            return true;
        }
        if i == last {
            return false;
        }
        i = i + 1;
    }
}

/// Whether some header has the given name and, without case, the given
/// value among the elements of its comma-separated list.
pub open spec fn has_value(hs: Seq<Header>, name: Word, value: Word) -> bool {
    exists|i: int|
        0 <= i < hs.len() && eq_ignore_case(#[trigger] hs[i].name@, name.spec_bytes()) && has_token(
            hs[i].value@,
            value.spec_bytes(),
        )
}

/// Whether some header has the given name and, without case, exactly the
/// given value.
pub open spec fn has_exact_value(hs: Seq<Header>, name: Word, value: Word) -> bool {
    exists|i: int|
        0 <= i < hs.len() && eq_ignore_case(#[trigger] hs[i].name@, name.spec_bytes())
            && eq_ignore_case(hs[i].value@, value.spec_bytes())
}

/// Whether some header has the given name and exactly the given value.
pub fn find_exact_value(hs: &Vec<Header>, name: Word, value: Word) -> (r: bool)
    ensures
        r == has_exact_value(hs@, name, value),
{
    let n = name.to_bytes();
    let v = value.to_bytes();
    let mut i: usize = 0;
    while i < hs.len()
        invariant
            i <= hs@.len(),
            n@ == name.spec_bytes(),
            v@ == value.spec_bytes(),
            forall|j: int|
                0 <= j < i ==> !(eq_ignore_case(#[trigger] hs@[j].name@, name.spec_bytes())
                    && eq_ignore_case(hs@[j].value@, value.spec_bytes())),
        decreases hs@.len() - i,
    {
        if bytes_eq_ignore_case(hs[i].name.as_slice(), n.as_slice())
            && bytes_eq_ignore_case(hs[i].value.as_slice(), v.as_slice()) {
            return true;
        }
        i = i + 1;
    }
    false
}

/// Whether some header has the given name.
pub open spec fn has_name(hs: Seq<Header>, name: Word) -> bool {
    exists|i: int| 0 <= i < hs.len() && eq_ignore_case(#[trigger] hs[i].name@, name.spec_bytes())
}

/// Whether some header has the given name.
pub fn find_name(hs: &Vec<Header>, name: Word) -> (r: bool)
    ensures
        r == has_name(hs@, name),
{
    let n = name.to_bytes();
    let mut i: usize = 0;
    while i < hs.len()
        invariant
            i <= hs@.len(),
            n@ == name.spec_bytes(),
            forall|j: int| 0 <= j < i ==> !eq_ignore_case(#[trigger] hs@[j].name@, name.spec_bytes()),
        decreases hs@.len() - i,
    {
        if bytes_eq_ignore_case(hs[i].name.as_slice(), n.as_slice()) {
            return true;
        }
        i = i + 1;
    }
    false
}

/// Whether some header has the given name and value.
pub fn find_value(hs: &Vec<Header>, name: Word, value: Word) -> (r: bool)
    ensures
        r == has_value(hs@, name, value),
{
    let n = name.to_bytes();
    let v = value.to_bytes();
    let mut i: usize = 0;
    while i < hs.len()
        invariant
            i <= hs@.len(),
            n@ == name.spec_bytes(),
            v@ == value.spec_bytes(),
            forall|j: int|
                0 <= j < i ==> !(eq_ignore_case(#[trigger] hs@[j].name@, name.spec_bytes())
                    && has_token(hs@[j].value@, value.spec_bytes())),
        decreases hs@.len() - i,
    {
        if bytes_eq_ignore_case(hs[i].name.as_slice(), n.as_slice())
            && contains_token(hs[i].value.as_slice(), v.as_slice()) {
            return true;
        }
        i = i + 1;
    }
    false
}

} // verus!
