use vstd::prelude::*;
use vstd::utf8::{decode_utf8, valid_utf8};
use vstd::std_specs::iter::IteratorSpec;
use vstd::string::StrSliceExecFns;
use vstd::slice::{slice_subrange, slice_to_vec};
use crate::headers::{Headers, header_map, has_name};

verus! {

broadcast use vstd::string::group_string_axioms;

/// The characters of `s`, in order.
pub(crate) fn chars_of(s: &str) -> (r: Vec<char>)
    ensures
        r@ == s@,
{
    let n = s.unicode_len();
    let mut it = s.chars();
    let mut out: Vec<char> = Vec::new();
    while out.len() < n
        invariant
            n == s@.len(),
            it.remaining() == s@.subrange(out@.len() as int, s@.len() as int),
            out@ == s@.subrange(0, out@.len() as int),
            out@.len() <= n,
        decreases n - out@.len(),
    {
        match it.next() {
            Some(c) => {
                out.push(c);
            },
            None => {
                return out;
            },
        }
    }
    assert(out@ =~= s@);
    out
}

/// The text that `String::from_utf8_lossy` makes of `b`.
pub uninterp spec fn lossy_utf8(b: Seq<u8>) -> Seq<char>;

/// Relies on `String::from_utf8_lossy`: valid UTF-8 comes back unchanged, each invalid
/// sequence becomes U+FFFD; the result depends on the bytes alone, and no bytes give
/// no text.
#[verifier::external_body]
fn decode_lossy(b: &[u8]) -> (r: String)
    ensures
        r@ == lossy_utf8(b@),
        b@.len() == 0 ==> r@.len() == 0,
        valid_utf8(b@) ==> r@ == decode_utf8(b@),
{
    String::from_utf8_lossy(b).into_owned()
}

/// Why a request could not be parsed.
#[derive(Debug, Clone, Copy, PartialEq, Eq, Structural)]
pub enum ParseError {
    /// The request line lacks a method or a path.
    MalformedRequestLine,
    /// `Content-Length` is present but is not a decimal number that fits in `usize`.
    InvalidContentLength,
    /// Fewer body bytes are available than `Content-Length` declares.
    IncompleteBody,
}

/// The end of the line that starts at `i`: the index of the next `\n`, or the text's length.
pub open spec fn line_end(t: Seq<char>, i: int) -> int
    decreases t.len() - i,
{
    if i >= t.len() {
        t.len() as int
    } else if t[i] == '\n' {
        i
    } else {
        line_end(t, i + 1)
    }
}

/// Where the line that starts at `i` ends once a trailing `\r` is dropped.
pub open spec fn content_end(t: Seq<char>, i: int) -> int {
    let e = line_end(t, i);
    if e > i && t[e - 1] == '\r' {
        e - 1
    } else {
        e
    }
}

/// Where the line after the one at `i` starts (the text's length if there is none).
pub open spec fn next_line(t: Seq<char>, i: int) -> int {
    if line_end(t, i) < t.len() {
        line_end(t, i) + 1
    } else {
        t.len() as int
    }
}

/// Whitespace between the tokens of the request line: the Unicode `White_Space`
/// characters, as `char::is_whitespace` documents them.
pub open spec fn is_space(c: char) -> bool {
    ('\t' <= c <= '\r') || c == ' ' || c == '\u{85}' || c == '\u{A0}' || c == '\u{1680}'
        || ('\u{2000}' <= c <= '\u{200A}') || c == '\u{2028}' || c == '\u{2029}'
        || c == '\u{202F}' || c == '\u{205F}' || c == '\u{3000}'
}

/// The first index at or after `i`, below `e`, that is not whitespace (else `i` or `e`).
pub open spec fn skip_space(t: Seq<char>, i: int, e: int) -> int
    decreases e - i,
{
    if i >= e {
        i
    } else if is_space(t[i]) {
        skip_space(t, i + 1, e)
    } else {
        i
    }
}

/// The first index at or after `i`, below `e`, that is whitespace (else `i` or `e`).
pub open spec fn token_end(t: Seq<char>, i: int, e: int) -> int
    decreases e - i,
{
    if i >= e {
        i
    } else if is_space(t[i]) {
        i
    } else {
        token_end(t, i + 1, e)
    }
}

/// The first index `j` in `[i, e - 1)` where `": "` starts, else `e`.
pub open spec fn find_sep(t: Seq<char>, i: int, e: int) -> int
    decreases e - i,
{
    if i + 1 >= e {
        e
    } else if t[i] == ':' && t[i + 1] == ' ' {
        i
    } else {
        find_sep(t, i + 1, e)
    }
}

/// The headers map after the line `[p, e)`: a line with `": "` sets its name to its
/// value, a line without one is skipped.
pub open spec fn add_header_line(
    t: Seq<char>,
    p: int,
    e: int,
    acc: Map<Seq<char>, Seq<char>>,
) -> Map<Seq<char>, Seq<char>> {
    let j = find_sep(t, p, e);
    if j < e {
        acc.insert(t.subrange(p, j), t.subrange(j + 2, e))
    } else {
        acc
    }
}

/// Reads header lines from `p` on into `acc`, up to the first empty line or the end of
/// the text; returns the headers and where the body starts.
pub open spec fn scan_headers(t: Seq<char>, p: int, acc: Map<Seq<char>, Seq<char>>) -> (
    Map<Seq<char>, Seq<char>>,
    int,
)
    decreases t.len() - p,
{
    if p < 0 || p >= t.len() {
        (acc, t.len() as int)
    } else if content_end(t, p) == p {
        (acc, next_line(t, p))
    } else if next_line(t, p) <= p {
        (acc, t.len() as int)
    } else {
        scan_headers(t, next_line(t, p), add_header_line(t, p, content_end(t, p), acc))
    }
}

/// An ASCII decimal digit.
pub open spec fn is_digit(c: char) -> bool {
    '0' <= c <= '9'
}

/// A non-empty run of decimal digits.
pub open spec fn all_digits(s: Seq<char>) -> bool {
    s.len() > 0 && forall|i: int| 0 <= i < s.len() ==> is_digit(#[trigger] s[i])
}

/// A `Content-Length` value: a run of decimal digits, optionally after one `+`.
pub open spec fn number_digits(s: Seq<char>) -> Seq<char> {
    if s.len() > 0 && s[0] == '+' {
        s.drop_first()
    } else {
        s
    }
}

/// The number that a run of decimal digits denotes.
pub open spec fn decimal_value(s: Seq<char>) -> nat
    decreases s.len(),
{
    if s.len() == 0 {
        0
    } else {
        decimal_value(s.drop_last()) * 10 + ((s.last() as u32 - '0' as u32) as nat)
    }
}

/// What a parsed request is.
pub struct RequestView {
    pub method: Seq<char>,
    pub path: Seq<char>,
    pub headers: Map<Seq<char>, Seq<char>>,
    pub body: Seq<u8>,
}

/// The end of the byte line that starts at `i`: the index of the next `\n`, or the length.
pub open spec fn byte_line_end(b: Seq<u8>, i: int) -> int
    decreases b.len() - i,
{
    if i >= b.len() {
        b.len() as int
    } else if b[i] == 10 {
        i
    } else {
        byte_line_end(b, i + 1)
    }
}

/// Where the byte line after the one at `i` starts (the length if there is none).
pub open spec fn byte_next_line(b: Seq<u8>, i: int) -> int {
    if byte_line_end(b, i) < b.len() {
        byte_line_end(b, i) + 1
    } else {
        b.len() as int
    }
}

/// Whether the byte line at `i` is empty once a trailing `\r` is dropped.
pub open spec fn is_blank_line(b: Seq<u8>, i: int) -> bool {
    let e = byte_line_end(b, i);
    e == i || (e == i + 1 && b[i] == 13)
}

/// Where the body starts, looking for the empty line from the line at `p` on; the
/// length when there is no empty line.
pub open spec fn body_offset(b: Seq<u8>, p: int) -> int
    decreases b.len() - p,
{
    if p < 0 || p >= b.len() {
        b.len() as int
    } else if is_blank_line(b, p) {
        byte_next_line(b, p)
    } else if byte_next_line(b, p) <= p {
        b.len() as int
    } else {
        body_offset(b, byte_next_line(b, p))
    }
}

/// The length of the head: the request line and the header lines up to and including
/// the first empty line after it (all of `b` when there is none).
pub open spec fn head_len(b: Seq<u8>) -> int {
    body_offset(b, byte_next_line(b, 0))
}

/// Method, path and headers that the head text `t` holds, with an empty body.
///
/// The first line is the request line; its first two whitespace-separated tokens are
/// method and path. Header lines follow up to the first empty line; each is split at
/// its first `": "`, a later line overriding an earlier one of the same name, and a
/// line without `": "` is skipped. Lines end at `\n`, with a trailing `\r` dropped.
pub open spec fn parse_head(t: Seq<char>) -> Result<RequestView, ParseError> {
    let e = content_end(t, 0);
    let s0 = skip_space(t, 0, e);
    let e0 = token_end(t, s0, e);
    let s1 = skip_space(t, e0, e);
    let e1 = token_end(t, s1, e);
    if s1 >= e {
        Err(ParseError::MalformedRequestLine)
    } else {
        Ok(RequestView {
            method: t.subrange(s0, e0),
            path: t.subrange(s1, e1),
            headers: scan_headers(t, next_line(t, 0), Map::empty()).0,
            body: Seq::empty(),
        })
    }
}

/// The request with head text `t`, followed by the bytes `rest`: the body is the first
/// `Content-Length` bytes of `rest`, or empty without that header.
pub open spec fn parse_parts(t: Seq<char>, rest: Seq<u8>) -> Result<RequestView, ParseError> {
    match parse_head(t) {
        Err(e) => Err(e),
        Ok(req) => {
            if !req.headers.contains_key("Content-Length"@) {
                Ok(req)
            } else {
                let v = number_digits(req.headers["Content-Length"@]);
                if !(all_digits(v) && decimal_value(v) <= usize::MAX) {
                    Err(ParseError::InvalidContentLength)
                } else if decimal_value(v) > rest.len() {
                    Err(ParseError::IncompleteBody)
                } else {
                    Ok(RequestView { body: rest.subrange(0, decimal_value(v) as int), ..req })
                }
            }
        },
    }
}

/// The request that the bytes `b` hold: the head is decoded lossily as UTF-8, the body
/// is taken from the bytes after it as they are.
pub open spec fn parse_request(b: Seq<u8>) -> Result<RequestView, ParseError> {
    parse_parts(
        lossy_utf8(b.subrange(0, head_len(b))),
        b.subrange(head_len(b), b.len() as int),
    )
}

proof fn lemma_skip_space(t: Seq<char>, i: int, e: int)
    requires
        i <= e,
    ensures
        i <= skip_space(t, i, e) <= e,
        skip_space(t, i, e) < e ==> !is_space(t[skip_space(t, i, e)]),
    decreases e - i,
{
    if i < e && is_space(t[i]) {
        lemma_skip_space(t, i + 1, e);
    }
}

proof fn lemma_token_end(t: Seq<char>, i: int, e: int)
    requires
        i <= e,
    ensures
        i <= token_end(t, i, e) <= e,
        i < e && !is_space(t[i]) ==> i < token_end(t, i, e),
    decreases e - i,
{
    if i < e && !is_space(t[i]) {
        lemma_token_end(t, i + 1, e);
    }
}

/// A parsed request has a non-empty method and a non-empty path, and without a
/// `Content-Length` header its body is empty, whatever follows the headers.
pub proof fn lemma_parsed_request(t: Seq<char>, rest: Seq<u8>)
    requires
        parse_parts(t, rest) is Ok,
    ensures
        parse_parts(t, rest)->Ok_0.method.len() > 0,
        parse_parts(t, rest)->Ok_0.path.len() > 0,
        !parse_parts(t, rest)->Ok_0.headers.contains_key("Content-Length"@)
            ==> parse_parts(t, rest)->Ok_0.body.len() == 0,
{
    lemma_line_end(t, 0);
    let e = content_end(t, 0);
    let s0 = skip_space(t, 0, e);
    lemma_skip_space(t, 0, e);
    let e0 = token_end(t, s0, e);
    lemma_token_end(t, s0, e);
    let s1 = skip_space(t, e0, e);
    lemma_skip_space(t, e0, e);
    lemma_token_end(t, s1, e);
}

proof fn lemma_line_end(t: Seq<char>, i: int)
    requires
        0 <= i <= t.len(),
    ensures
        i <= line_end(t, i) <= t.len(),
        line_end(t, i) < t.len() ==> t[line_end(t, i)] == '\n',
    decreases t.len() - i,
{
    if i < t.len() && t[i] != '\n' {
        lemma_line_end(t, i + 1);
    }
}

fn line_end_of(t: &Vec<char>, i: usize) -> (r: usize)
    requires
        i <= t@.len(),
    ensures
        r == line_end(t@, i as int),
{
    let n = t.len();
    let mut j = i;
    while j < n && t[j] != '\n'
        invariant
            n == t@.len(),
            i <= j <= n,
            line_end(t@, j as int) == line_end(t@, i as int),
        decreases n - j,
    {
        j = j + 1;
    }
    j
}

fn skip_space_of(t: &Vec<char>, i: usize, e: usize) -> (r: usize)
    requires
        i <= e <= t@.len(),
    ensures
        r == skip_space(t@, i as int, e as int),
        i <= r <= e,
{
    let mut j = i;
    while j < e && is_space_char(t[j])
        invariant
            i <= j <= e <= t@.len(),
            skip_space(t@, j as int, e as int) == skip_space(t@, i as int, e as int),
        decreases e - j,
    {
        j = j + 1;
    }
    j
}

fn token_end_of(t: &Vec<char>, i: usize, e: usize) -> (r: usize)
    requires
        i <= e <= t@.len(),
    ensures
        r == token_end(t@, i as int, e as int),
        i <= r <= e,
{
    let mut j = i;
    while j < e && !is_space_char(t[j])
        invariant
            i <= j <= e <= t@.len(),
            token_end(t@, j as int, e as int) == token_end(t@, i as int, e as int),
        decreases e - j,
    {
        j = j + 1;
    }
    j
}

fn find_sep_of(t: &Vec<char>, i: usize, e: usize) -> (r: usize)
    requires
        i <= e <= t@.len(),
    ensures
        r == find_sep(t@, i as int, e as int),
        r == e || i <= r < e - 1,
{
    let mut j = i;
    while j < e && j + 1 < e && !(t[j] == ':' && t[j + 1] == ' ')
        invariant
            i <= j <= e <= t@.len(),
            find_sep(t@, j as int, e as int) == find_sep(t@, i as int, e as int),
        decreases e - j,
    {
        j = j + 1;
    }
    if j < e && j + 1 < e {
        j
    } else {
        e
    }
}

fn is_space_char(c: char) -> (r: bool)
    ensures
        r == is_space(c),
{
    ('\t' <= c && c <= '\r') || c == ' ' || c == '\u{85}' || c == '\u{A0}' || c == '\u{1680}'
        || ('\u{2000}' <= c && c <= '\u{200A}') || c == '\u{2028}' || c == '\u{2029}'
        || c == '\u{202F}' || c == '\u{205F}' || c == '\u{3000}'
}

proof fn lemma_decimal_prefix(s: Seq<char>, k: int, n: int)
    requires
        0 <= k <= n <= s.len(),
    ensures
        decimal_value(s.subrange(0, k)) <= decimal_value(s.subrange(0, n)),
    decreases n - k,
{
    if k < n {
        lemma_decimal_prefix(s, k, n - 1);
        assert(s.subrange(0, n).drop_last() =~= s.subrange(0, n - 1));
    }
}

/// The value of a run of decimal digits, if it is one and the value fits in `usize`.
fn parse_decimal(s: &Vec<char>) -> (r: Option<usize>)
    ensures
        r == (if all_digits(s@) && decimal_value(s@) <= usize::MAX {
            Some(decimal_value(s@) as usize)
        } else {
            None
        }),
{
    let n = s.len();
    if n == 0 {
        return None;
    }
    let mut i: usize = 0;
    let mut acc: usize = 0;
    while i < n
        invariant
            n == s@.len(),
            0 <= i <= n,
            acc == decimal_value(s@.subrange(0, i as int)),
            forall|j: int| 0 <= j < i ==> is_digit(#[trigger] s@[j]),
        decreases n - i,
    {
        let c = s[i];
        if !('0' <= c && c <= '9') {
            return None;
        }
        let d = (c as u32 - '0' as u32) as usize;
        proof {
            assert(s@.subrange(0, i + 1).drop_last() =~= s@.subrange(0, i as int));
            lemma_decimal_prefix(s@, i + 1, n as int);
            assert(s@.subrange(0, n as int) =~= s@);
        }
        match acc.checked_mul(10) {
            None => {
                return None;
            },
            Some(m) => match m.checked_add(d) {
                None => {
                    return None;
                },
                Some(v) => {
                    acc = v;
                },
            },
        }
        i = i + 1;
    }
    assert(s@.subrange(0, n as int) =~= s@);
    Some(acc)
}

proof fn lemma_byte_line_end(b: Seq<u8>, i: int)
    requires
        0 <= i <= b.len(),
    ensures
        i <= byte_line_end(b, i) <= b.len(),
    decreases b.len() - i,
{
    if i < b.len() && b[i] != 10 {
        lemma_byte_line_end(b, i + 1);
    }
}

fn byte_line_end_of(b: &[u8], i: usize) -> (r: usize)
    requires
        i <= b@.len(),
    ensures
        r == byte_line_end(b@, i as int),
        i <= r <= b@.len(),
{
    proof {
        lemma_byte_line_end(b@, i as int);
    }
    let n = b.len();
    let mut j = i;
    while j < n && b[j] != 10
        invariant
            n == b@.len(),
            i <= j <= n,
            byte_line_end(b@, j as int) == byte_line_end(b@, i as int),
        decreases n - j,
    {
        j = j + 1;
    }
    j
}

/// The length of the head of `b`, as `head_len` describes.
fn head_len_of(b: &[u8]) -> (r: usize)
    ensures
        r == head_len(b@),
        r <= b@.len(),
{
    let n = b.len();
    let l0 = byte_line_end_of(b, 0);
    let mut p: usize = if l0 < n {
        l0 + 1
    } else {
        n
    };
    let ghost target = head_len(b@);
    loop
        invariant
            n == b@.len(),
            p <= n,
            target == head_len(b@),
            body_offset(b@, p as int) == target,
        decreases n - p,
    {
        if p >= n {
            return n;
        }
        let l = byte_line_end_of(b, p);
        let next = if l < n {
            l + 1
        } else {
            n
        };
        if l == p || (l == p + 1 && b[p] == 13) {
            return next;
        }
        if next <= p {
            return n;
        }
        p = next;
    }
}

/// A parsed request: method, path, headers and body.
pub struct HttpRequest {
    method: String,
    path: String,
    headers: Headers,
    body: Vec<u8>,
}

impl View for HttpRequest {
    type V = RequestView;

    closed spec fn view(&self) -> RequestView {
        RequestView {
            method: self.method@,
            path: self.path@,
            headers: header_map(self.headers@),
            body: self.body@,
        }
    }
}

impl HttpRequest {
    #[verifier::type_invariant]
    spec fn inv(&self) -> bool {
        self.headers.wf()
    }

    /// Parses a request from the bytes read off a connection: the head is decoded
    /// lossily as UTF-8, the body is taken as bytes.
    pub fn new_from_buffer(buffer: &[u8]) -> (r: Result<HttpRequest, ParseError>)
        ensures
            match r {
                Ok(q) => parse_request(buffer@) == Ok::<RequestView, ParseError>(q@),
                Err(e) => parse_request(buffer@) == Err::<RequestView, ParseError>(e),
            },
    {
        let h = head_len_of(buffer);
        let text = decode_lossy(slice_subrange(buffer, 0, h));
        HttpRequest::from_parts(text.as_str(), slice_subrange(buffer, h, buffer.len()))
    }

    /// The method, e.g. `GET`.
    pub fn method(&self) -> (r: &String)
        ensures
            r@ == self@.method,
    {
        &self.method
    }

    /// The path, e.g. `/echo/hello`.
    pub fn path(&self) -> (r: &String)
        ensures
            r@ == self@.path,
    {
        &self.path
    }

    /// The body.
    pub fn body(&self) -> (r: &Vec<u8>)
        ensures
            r@ == self@.body,
    {
        &self.body
    }

    /// The value of header `name`, if the request carries it.
    pub fn header(&self, name: &str) -> (r: Option<String>)
        ensures
            r matches Some(v) ==> self@.headers.contains_key(name@) && self@.headers[name@] == v@,
            r is None ==> !self@.headers.contains_key(name@),
    {
        proof {
            use_type_invariant(self);
        }
        self.headers.get(name)
    }

    /// Parses the request whose head text is `text` and whose remaining bytes are
    /// `rest`, as `parse_parts` describes.
    pub fn from_parts(text: &str, rest: &[u8]) -> (r: Result<HttpRequest, ParseError>)
        ensures
            match r {
                Ok(q) => parse_parts(text@, rest@) == Ok::<RequestView, ParseError>(q@),
                Err(e) => parse_parts(text@, rest@) == Err::<RequestView, ParseError>(e),
            },
    {
        let t = chars_of(text);
        let n = t.len();
        let le = line_end_of(&t, 0);
        proof {
            lemma_line_end(t@, 0);
        }
        let e = if le > 0 && t[le - 1] == '\r' {
            le - 1
        } else {
            le
        };
        let s0 = skip_space_of(&t, 0, e);
        let e0 = token_end_of(&t, s0, e);
        let s1 = skip_space_of(&t, e0, e);
        let e1 = token_end_of(&t, s1, e);
        if s1 >= e {
            return Err(ParseError::MalformedRequestLine);
        }
        let method = text.substring_char(s0, e0).to_owned();
        let path = text.substring_char(s1, e1).to_owned();
        let start = if le < n {
            le + 1
        } else {
            n
        };
        let ghost target = scan_headers(t@, start as int, Map::empty());
        let mut headers = Headers::new();
        assert(header_map(headers@) =~= Map::empty());
        let mut p = start;
        let mut body_start: usize = n;
        loop
            invariant_except_break
                p <= n,
                scan_headers(t@, p as int, header_map(headers@)) == target,
            invariant
                n == t@.len(),
                t@ == text@,
                headers.wf(),
            ensures
                target == (header_map(headers@), body_start as int),
                body_start <= n,
            decreases n - p,
        {
            if p >= n {
                body_start = n;
                break;
            }
            let l = line_end_of(&t, p);
            proof {
                lemma_line_end(t@, p as int);
            }
            let c = if l > p && t[l - 1] == '\r' {
                l - 1
            } else {
                l
            };
            let next = if l < n {
                l + 1
            } else {
                n
            };
            if c == p {
                body_start = next;
                break;
            }
            let j = find_sep_of(&t, p, c);
            if j < c {
                let name = text.substring_char(p, j);
                let value = text.substring_char(j + 2, c);
                headers.set(name, value);
            }
            p = next;
        }
        let hv = headers.get("Content-Length");
        let ghost hm = header_map(headers@);
        proof {
            reveal_strlit("Content-Length");
            if has_name(headers@, "Content-Length"@) {
                assert(hm.contains_key("Content-Length"@));
            }
        }
        let body = match hv {
            None => Vec::new(),
            Some(v) => {
                let vs = v.as_str();
                let vn = vs.unicode_len();
                let number = if vn > 0 && vs.get_char(0) == '+' {
                    vs.substring_char(1, vn)
                } else {
                    vs
                };
                assert(number@ =~= number_digits(v@));
                let digits = chars_of(number);
                match parse_decimal(&digits) {
                    None => {
                        return Err(ParseError::InvalidContentLength);
                    },
                    Some(len) => {
                        if len > rest.len() {
                            return Err(ParseError::IncompleteBody);
                        }
                        slice_to_vec(slice_subrange(rest, 0, len))
                    },
                }
            },
        };
        let req = HttpRequest { method, path, headers, body };
        assert(req@.body =~= parse_parts(text@, rest@)->Ok_0.body);
        Ok(req)
    }
}

} // verus!
