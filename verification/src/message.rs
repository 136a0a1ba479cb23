//! Plain-value models of HTTP requests and responses.
//!
//! Header lists keep the order in which the transport produced them. Names
//! are compared exactly, so callers hand them over in one spelling (the
//! lower-case one that HTTP/2 mandates).

use vstd::prelude::*;

verus! {

/// The mathematical model of a header list: `(name, value)` pairs in order.
pub type HeaderSeq = Seq<(Seq<char>, Seq<char>)>;

/// Protocol version a response was received over.
#[derive(Clone, Copy, Debug, PartialEq, Eq, Structural)]
pub enum HttpVersion {
    Http09,
    Http10,
    Http11,
    H2,
    H3,
}

/// The parts of a request that caching decisions depend on.
#[derive(Debug, PartialEq, Eq)]
pub struct RequestParts {
    pub method: String,
    pub uri: String,
    pub version: HttpVersion,
    pub headers: Vec<(String, String)>,
}

pub struct RequestView {
    pub method: Seq<char>,
    pub uri: Seq<char>,
    pub version: HttpVersion,
    pub headers: HeaderSeq,
}

impl View for RequestParts {
    type V = RequestView;

    open spec fn view(&self) -> RequestView {
        RequestView {
            method: self.method@,
            uri: self.uri@,
            version: self.version,
            headers: self.headers.deep_view(),
        }
    }
}

/// A complete response as it is stored and served.
#[derive(Debug, PartialEq, Eq)]
pub struct HttpResponse {
    pub body: Vec<u8>,
    pub headers: Vec<(String, String)>,
    pub status: u16,
    pub url: String,
    pub version: HttpVersion,
}

pub struct ResponseView {
    pub body: Seq<u8>,
    pub headers: HeaderSeq,
    pub status: u16,
    pub url: Seq<char>,
    pub version: HttpVersion,
}

impl View for HttpResponse {
    type V = ResponseView;

    open spec fn view(&self) -> ResponseView {
        ResponseView {
            body: self.body@,
            headers: self.headers.deep_view(),
            status: self.status,
            url: self.url@,
            version: self.version,
        }
    }
}

/// `i` is the position of the first header called `name`.
pub open spec fn is_first_header(hs: HeaderSeq, name: Seq<char>, i: int) -> bool {
    &&& 0 <= i < hs.len()
    &&& hs[i].0 == name
    &&& forall|j: int| 0 <= j < i ==> (#[trigger] hs[j]).0 != name
}

pub open spec fn has_header(hs: HeaderSeq, name: Seq<char>) -> bool {
    exists|i: int| 0 <= i < hs.len() && (#[trigger] hs[i]).0 == name
}

/// Position of the first header called `name`, if there is one.
pub open spec fn header_position(hs: HeaderSeq, name: Seq<char>) -> Option<int> {
    if exists|i: int| is_first_header(hs, name, i) {
        Some(choose|i: int| is_first_header(hs, name, i))
    } else {
        None
    }
}

/// Value of the first header called `name`, if there is one.
pub open spec fn header_value(hs: HeaderSeq, name: Seq<char>) -> Option<Seq<char>> {
    match header_position(hs, name) {
        Some(i) => Some(hs[i].1),
        None => None,
    }
}

/// `hs` with the first header called `name` given `value`, or with
/// `(name, value)` appended when no header has that name.
pub open spec fn with_header(hs: HeaderSeq, name: Seq<char>, value: Seq<char>) -> HeaderSeq {
    match header_position(hs, name) {
        Some(i) => hs.update(i, (name, value)),
        None => hs.push((name, value)),
    }
}

/// A first position is unique, so finding one settles `header_position`.
pub proof fn lemma_first_header_is_position(hs: HeaderSeq, name: Seq<char>, i: int)
    requires
        is_first_header(hs, name, i),
    ensures
        header_position(hs, name) == Some(i),
        has_header(hs, name),
{
    let k = choose|k: int| is_first_header(hs, name, k);
    assert(is_first_header(hs, name, k));
    if k < i {
        assert(hs[k].0 != name);
    }
    if i < k {
        assert(hs[i].0 != name);
    }
}

/// Without any header of that name there is no first position.
pub proof fn lemma_no_header_no_position(hs: HeaderSeq, name: Seq<char>)
    requires
        forall|j: int| 0 <= j < hs.len() ==> (#[trigger] hs[j]).0 != name,
    ensures
        header_position(hs, name) is None,
        !has_header(hs, name),
{
    if exists|i: int| is_first_header(hs, name, i) {
        let k = choose|k: int| is_first_header(hs, name, k);
        assert(hs[k].0 != name);
    }
}

/// Index of the first header called `name`.
pub fn find_header(headers: &Vec<(String, String)>, name: &String) -> (r: Option<usize>)
    ensures
        match r {
            Some(i) => header_position(headers.deep_view(), name@) == Some(i as int),
            None => header_position(headers.deep_view(), name@) is None,
        },
        r is Some <==> has_header(headers.deep_view(), name@),
{
    let ghost hs = headers.deep_view();
    let mut i: usize = 0;
    while i < headers.len()
        invariant
            0 <= i <= headers.len(),
            hs == headers.deep_view(),
            forall|j: int| 0 <= j < i ==> (#[trigger] hs[j]).0 != name@,
        decreases headers.len() - i,
    {
        let same: bool = headers[i].0 == *name;
        proof {
            assert(hs[i as int] == headers@[i as int].deep_view());
        }
        if same {
            proof {
                lemma_first_header_is_position(hs, name@, i as int);
            }
            return Some(i);
        }
        i += 1;
    }
    proof {
        lemma_no_header_no_position(hs, name@);
    }
    None
}

/// Value of the first header called `name`.
pub fn get_header<'a>(headers: &'a Vec<(String, String)>, name: &String) -> (r: Option<&'a String>)
    ensures
        match r {
            Some(v) => header_value(headers.deep_view(), name@) == Some(v@),
            None => header_value(headers.deep_view(), name@) is None,
        },
{
    match find_header(headers, name) {
        Some(i) => {
            proof {
                assert(headers.deep_view()[i as int] == headers@[i as int].deep_view());
            }
            Some(&headers[i].1)
        },
        None => None,
    }
}

/// Gives the first header called `name` the value `value`, or appends the
/// pair when no header has that name.
pub fn set_header(headers: &mut Vec<(String, String)>, name: &String, value: &String)
    ensures
        final(headers).deep_view() == with_header(old(headers).deep_view(), name@, value@),
{
    let ghost before = headers.deep_view();
    match find_header(headers, name) {
        Some(i) => {
            headers[i] = (name.clone(), value.clone());
            assert(headers.deep_view() =~= before.update(i as int, (name@, value@)));
        },
        None => {
            headers.push((name.clone(), value.clone()));
            assert(headers.deep_view() =~= before.push((name@, value@)));
        },
    }
}

/// An independent copy of a header list.
pub fn copy_headers(headers: &Vec<(String, String)>) -> (r: Vec<(String, String)>)
    ensures
        r.deep_view() == headers.deep_view(),
{
    let mut out: Vec<(String, String)> = Vec::new();
    let mut i: usize = 0;
    while i < headers.len()
        invariant
            0 <= i <= headers.len(),
            out.len() == i,
            forall|j: int| 0 <= j < i ==> (#[trigger] out@[j]).deep_view() == headers@[j].deep_view(),
        decreases headers.len() - i,
    {
        out.push((headers[i].0.clone(), headers[i].1.clone()));
        i += 1;
    }
    assert(out.deep_view() =~= headers.deep_view());
    out
}

/// An independent copy of a byte string.
pub fn copy_bytes(bytes: &Vec<u8>) -> (r: Vec<u8>)
    ensures
        r@ == bytes@,
{
    let mut out: Vec<u8> = Vec::new();
    let mut i: usize = 0;
    while i < bytes.len()
        invariant
            0 <= i <= bytes.len(),
            out@ == bytes@.subrange(0, i as int),
        decreases bytes.len() - i,
    {
        out.push(bytes[i]);
        i += 1;
        assert(out@ =~= bytes@.subrange(0, i as int));
    }
    assert(out@ =~= bytes@);
    out
}

impl Clone for RequestParts {
    fn clone(&self) -> (r: Self)
        ensures
            r@ == self@,
    {
        RequestParts {
            method: self.method.clone(),
            uri: self.uri.clone(),
            version: self.version,
            headers: copy_headers(&self.headers),
        }
    }
}

impl Clone for HttpResponse {
    fn clone(&self) -> (r: Self)
        ensures
            r@ == self@,
    {
        HttpResponse {
            body: copy_bytes(&self.body),
            headers: copy_headers(&self.headers),
            status: self.status,
            url: self.url.clone(),
            version: self.version,
        }
    }
}

} // verus!
