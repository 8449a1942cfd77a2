use vstd::prelude::*;
use vstd::string::StringExecFns;
use vstd::slice::slice_to_vec;
use vstd::utf8::encode_utf8;
use crate::headers::{Headers, HeaderSeq, header_map, headers_text, names_unique, put_header, value_of};
use crate::status::{StatusCode, status_text};

verus! {

/// What a response is: status, headers and body.
pub struct ResponseView {
    pub status: StatusCode,
    pub headers: HeaderSeq,
    pub body: Seq<u8>,
}

/// The head: status line, header block and the blank line that ends it.
pub open spec fn head_text(r: ResponseView) -> Seq<char> {
    "HTTP/1.1 "@ + status_text(r.status) + "\r\n"@ + headers_text(r.headers) + "\r\n"@
}

/// The wire form: the head in UTF-8, then the body bytes.
pub open spec fn wire_bytes(r: ResponseView) -> Seq<u8> {
    encode_utf8(head_text(r)) + r.body
}

/// A response under construction by a handler.
pub struct HttpResponse {
    status_code: StatusCode,
    headers: Headers,
    body: Vec<u8>,
}

impl View for HttpResponse {
    type V = ResponseView;

    closed spec fn view(&self) -> ResponseView {
        ResponseView { status: self.status_code, headers: self.headers@, body: self.body@ }
    }
}

impl HttpResponse {
    /// Header names are unique.
    pub open spec fn wf(&self) -> bool {
        names_unique(self@.headers)
    }

    /// A fresh response: 200, no headers, empty body.
    pub fn new() -> (r: Self)
        ensures
            r.wf(),
            r@.status == StatusCode::Success,
            r@.headers.len() == 0,
            r@.body.len() == 0,
    {
        HttpResponse { status_code: StatusCode::Success, headers: Headers::new(), body: Vec::new() }
    }

    /// Sets the status; returns the builder for chaining.
    pub fn set_status_code(&mut self, status_code: StatusCode) -> (r: &mut Self)
        ensures
            r@ == (ResponseView { status: status_code, ..old(self)@ }),
            final(self)@ == final(r)@,
    {
        self.status_code = status_code;
        self
    }

    /// Replaces the body; returns the builder for chaining.
    pub fn set_body(&mut self, body: Vec<u8>) -> (r: &mut Self)
        ensures
            r@ == (ResponseView { body: body@, ..old(self)@ }),
            final(self)@ == final(r)@,
    {
        self.body = body;
        self
    }

    /// Sets header `key` to `val`, overwriting an earlier value for the same name;
    /// returns the builder for chaining.
    pub fn set_header(&mut self, key: &str, val: &str) -> (r: &mut Self)
        requires
            old(self).wf(),
        ensures
            r.wf(),
            r@ == (ResponseView {
                headers: put_header(old(self)@.headers, key@, val@),
                ..old(self)@
            }),
            header_map(r@.headers) == header_map(old(self)@.headers).insert(key@, val@),
            final(self)@ == final(r)@,
    {
        self.headers.set(key, val);
        self
    }

    /// The status set so far.
    pub fn status_code(&self) -> (r: StatusCode)
        ensures
            r == self@.status,
    {
        self.status_code
    }

    /// The body set so far.
    pub fn body(&self) -> (r: &Vec<u8>)
        ensures
            r@ == self@.body,
    {
        &self.body
    }

    /// The value of header `key`, if it was set.
    pub fn header(&self, key: &str) -> (r: Option<String>)
        requires
            self.wf(),
        ensures
            r matches Some(v) ==> value_of(self@.headers, key@) == Some(v@),
            r is None ==> value_of(self@.headers, key@) is None,
    {
        self.headers.get(key)
    }

    /// The response as it goes on the wire: `HTTP/1.1 <code> <reason>\r\n`, one
    /// `Name: Value\r\n` per header, a blank line, then the body.
    pub fn to_bytes(&self) -> (r: Vec<u8>)
        ensures
            r@ == wire_bytes(self@),
    {
        let mut head = "HTTP/1.1 ".to_owned();
        let st = self.status_code.to_string();
        head.append(st.as_str());
        head.append("\r\n");
        self.headers.write_to(&mut head);
        head.append("\r\n");
        let mut out = slice_to_vec(head.as_str().as_bytes());
        let mut body = slice_to_vec(self.body.as_slice());
        out.append(&mut body);
        out
    }
}

} // verus!
