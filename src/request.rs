use vstd::prelude::*;
use vstd::string::{StrSliceExecFns, StringSliceAdditionalSpecFns};

verus! {

/// One header line: a name, compared without ASCII case, and a value.
pub struct Header {
    pub name: Vec<u8>,
    pub value: Vec<u8>,
}

impl View for Header {
    type V = (Seq<u8>, Seq<u8>);

    open spec fn view(&self) -> (Seq<u8>, Seq<u8>) {
        (self.name@, self.value@)
    }
}

impl Header {
    pub fn new(name: &str, value: &str) -> (r: Header)
        ensures
            r.name@ == name.spec_bytes(),
            r.value@ == value.spec_bytes(),
    {
        Header { name: name.as_bytes_vec(), value: value.as_bytes_vec() }
    }

    pub fn duplicate(&self) -> (r: Header)
        ensures
            r@ == self@,
    {
        Header { name: copy_bytes(&self.name), value: copy_bytes(&self.value) }
    }
}

/// An inbound request as the router sees it: the method and target path as
/// sent (no percent-decoding), the header lines in order, and the raw body.
pub struct Request {
    pub method: Vec<u8>,
    pub path: Vec<u8>,
    pub headers: Vec<Header>,
    pub body: Vec<u8>,
}

impl Request {
    pub fn new(method: &str, path: &str) -> (r: Request)
        ensures
            r.method@ == method.spec_bytes(),
            r.path@ == path.spec_bytes(),
            r.headers@.len() == 0,
            r.body@.len() == 0,
    {
        Request {
            method: method.as_bytes_vec(),
            path: path.as_bytes_vec(),
            headers: Vec::new(),
            body: Vec::new(),
        }
    }

    /// Appends one header line.
    pub fn with_header(self, name: &str, value: &str) -> (r: Request)
        ensures
            r.method == self.method,
            r.path == self.path,
            r.body == self.body,
            r.headers@ == self.headers@.push(r.headers@.last()),
            r.headers@.last().name@ == name.spec_bytes(),
            r.headers@.last().value@ == value.spec_bytes(),
    {
        let mut req = self;
        req.headers.push(Header::new(name, value));
        req
    }

    /// Replaces the body.
    pub fn with_body(self, body: Vec<u8>) -> (r: Request)
        ensures
            r.method == self.method,
            r.path == self.path,
            r.headers == self.headers,
            r.body == body,
    {
        let mut req = self;
        req.body = body;
        req
    }
}

/// A canned response: status code, header lines and body.
pub struct ResponseTemplate {
    pub status: u16,
    pub headers: Vec<Header>,
    pub body: Vec<u8>,
}

pub struct ResponseView {
    pub status: u16,
    pub headers: Seq<(Seq<u8>, Seq<u8>)>,
    pub body: Seq<u8>,
}

impl View for ResponseTemplate {
    type V = ResponseView;

    open spec fn view(&self) -> ResponseView {
        ResponseView {
            status: self.status,
            headers: self.headers@.map_values(|h: Header| h@),
            body: self.body@,
        }
    }
}

impl ResponseTemplate {
    pub fn new(status: u16) -> (r: ResponseTemplate)
        ensures
            r@ == (ResponseView { status, headers: Seq::empty(), body: Seq::empty() }),
    {
        let r = ResponseTemplate { status, headers: Vec::new(), body: Vec::new() };
        assert(r@.headers =~= Seq::empty());
        r
    }

    pub fn with_header(self, name: &str, value: &str) -> (r: ResponseTemplate)
        ensures
            r.status == self.status,
            r.body == self.body,
            r.headers@ == self.headers@.push(r.headers@.last()),
            r.headers@.last().name@ == name.spec_bytes(),
            r.headers@.last().value@ == value.spec_bytes(),
    {
        let mut resp = self;
        resp.headers.push(Header::new(name, value));
        resp
    }

    pub fn with_body(self, body: Vec<u8>) -> (r: ResponseTemplate)
        ensures
            r.status == self.status,
            r.headers == self.headers,
            r.body == body,
    {
        let mut resp = self;
        resp.body = body;
        resp
    }

    pub fn duplicate(&self) -> (r: ResponseTemplate)
        ensures
            r@ == self@,
    {
        let mut headers: Vec<Header> = Vec::new();
        let mut i: usize = 0;
        while i < self.headers.len()
            invariant
                i <= self.headers@.len(),
                headers@.len() == i,
                forall|j: int| 0 <= j < i ==> (#[trigger] headers@[j])@ == self.headers@[j]@,
            decreases self.headers@.len() - i,
        {
            headers.push(self.headers[i].duplicate());
            i = i + 1;
        }
        let r = ResponseTemplate { status: self.status, headers, body: copy_bytes(&self.body) };
        assert(r@.headers =~= self@.headers);
        r
    }
}

/// The fixed status of the response given when no rule matches.
pub const NOT_FOUND: u16 = 404;

/// The fixed response given when no rule matches: 404, no headers, no body.
pub open spec fn fallback_view() -> ResponseView {
    ResponseView { status: NOT_FOUND, headers: Seq::empty(), body: Seq::empty() }
}

pub fn fallback_response() -> (r: ResponseTemplate)
    ensures
        r@ == fallback_view(),
{
    ResponseTemplate::new(NOT_FOUND)
}

pub fn copy_bytes(v: &Vec<u8>) -> (r: Vec<u8>)
    ensures
        r@ == v@,
{
    let mut r: Vec<u8> = Vec::new();
    let mut i: usize = 0;
    while i < v.len()
        invariant
            i <= v@.len(),
            r@ == v@.take(i as int),
        decreases v@.len() - i,
    {
        r.push(v[i]);
        i = i + 1;
        assert(r@ =~= v@.take(i as int));
    }
    assert(v@.take(v@.len() as int) =~= v@);
    r
}

} // verus!
