use vstd::prelude::*;
use vstd::string::StringExecFns;
use vstd::utf8::encode_utf8;
use vstd::slice::slice_to_vec;
use crate::request::{HttpRequest, ParseError, RequestView, chars_of};
use crate::response::{HttpResponse, ResponseView};
use crate::status::StatusCode;

verus! {

broadcast use vstd::string::group_string_axioms;

/// The decimal digit for `d < 10`.
pub open spec fn digit_char(d: nat) -> char {
    if d == 0 { '0' }
    else if d == 1 { '1' }
    else if d == 2 { '2' }
    else if d == 3 { '3' }
    else if d == 4 { '4' }
    else if d == 5 { '5' }
    else if d == 6 { '6' }
    else if d == 7 { '7' }
    else if d == 8 { '8' }
    else { '9' }
}

/// `n` written in decimal, without leading zeros.
pub open spec fn decimal_text(n: nat) -> Seq<char>
    decreases n,
{
    if n < 10 {
        seq![digit_char(n)]
    } else {
        decimal_text(n / 10).push(digit_char(n % 10))
    }
}

fn digit_str(d: usize) -> (r: &'static str)
    requires
        d < 10,
    ensures
        r@ == seq![digit_char(d as nat)],
{
    proof {
        reveal_strlit("0");
        reveal_strlit("1");
        reveal_strlit("2");
        reveal_strlit("3");
        reveal_strlit("4");
        reveal_strlit("5");
        reveal_strlit("6");
        reveal_strlit("7");
        reveal_strlit("8");
        reveal_strlit("9");
    }
    let r = if d == 0 { "0" }
    else if d == 1 { "1" }
    else if d == 2 { "2" }
    else if d == 3 { "3" }
    else if d == 4 { "4" }
    else if d == 5 { "5" }
    else if d == 6 { "6" }
    else if d == 7 { "7" }
    else if d == 8 { "8" }
    else { "9" };
    assert(r@ =~= seq![digit_char(d as nat)]);
    r
}

fn write_decimal(n: usize, out: &mut String)
    ensures
        final(out)@ == old(out)@ + decimal_text(n as nat),
    decreases n,
{
    if n >= 10 {
        write_decimal(n / 10, out);
    }
    out.append(digit_str(n % 10));
    assert(final(out)@ =~= old(out)@ + decimal_text(n as nat)) by {
        if n >= 10 {
            assert(decimal_text(n as nat) == decimal_text((n / 10) as nat).push(digit_char((n % 10) as nat)));
        }
    };
}

/// `n` in decimal, e.g. `"42"`.
pub fn decimal_string(n: usize) -> (r: String)
    ensures
        r@ == decimal_text(n as nat),
{
    let mut out = String::new();
    write_decimal(n, &mut out);
    assert(out@ =~= decimal_text(n as nat));
    out
}

/// A response with status `s`, no headers and no body.
pub open spec fn bare_response(s: StatusCode) -> ResponseView {
    ResponseView { status: s, headers: Seq::empty(), body: Seq::empty() }
}

/// 200 with `Content-Type: <content_type>` (when given), `Content-Length` in bytes, and `body`.
pub open spec fn content_response(content_type: Option<Seq<char>>, body: Seq<u8>) -> ResponseView {
    let len_header = ("Content-Length"@, decimal_text(body.len()));
    ResponseView {
        status: StatusCode::Success,
        headers: match content_type {
            Some(ct) => seq![("Content-Type"@, ct), len_header],
            None => seq![len_header],
        },
        body,
    }
}

/// What the server does for a request.
pub enum ActionView {
    ServeIndex,
    ServeIndexDelayed,
    ReadFile(Seq<char>),
    WriteFile(Seq<char>, Seq<u8>),
    Respond(ResponseView),
}

/// The routing table, first matching rule first.
pub open spec fn route_of(r: RequestView) -> ActionView {
    let path = r.path;
    if r.method == "GET"@ {
        if path == "/"@ {
            ActionView::ServeIndex
        } else if path == "/sleep"@ {
            ActionView::ServeIndexDelayed
        } else if "/echo/"@.is_prefix_of(path) {
            ActionView::Respond(
                content_response(Some("text/plain"@), encode_utf8(path.subrange(6, path.len() as int))),
            )
        } else if "/files/"@.is_prefix_of(path) {
            ActionView::ReadFile(path.subrange(7, path.len() as int))
        } else if "/user-agent"@.is_prefix_of(path) {
            if r.headers.contains_key("User-Agent"@) {
                ActionView::Respond(
                    content_response(Some("text/plain"@), encode_utf8(r.headers["User-Agent"@])),
                )
            } else {
                ActionView::Respond(bare_response(StatusCode::BadRequest))
            }
        } else {
            ActionView::Respond(bare_response(StatusCode::NotImplemented))
        }
    } else if r.method == "POST"@ {
        if "/files/"@.is_prefix_of(path) {
            ActionView::WriteFile(path.subrange(7, path.len() as int), r.body)
        } else {
            ActionView::Respond(bare_response(StatusCode::NotFound))
        }
    } else {
        ActionView::Respond(bare_response(StatusCode::NotImplemented))
    }
}

/// What the server does for a request: serve the static page (at once, or after the
/// fixed delay), read or write a file under the file root (the name is relative to it),
/// or answer with a response built here.
pub enum Action {
    ServeIndex,
    ServeIndexDelayed,
    ReadFile(String),
    WriteFile(String, Vec<u8>),
    Respond(HttpResponse),
}

impl View for Action {
    type V = ActionView;

    open spec fn view(&self) -> ActionView {
        match self {
            Action::ServeIndex => ActionView::ServeIndex,
            Action::ServeIndexDelayed => ActionView::ServeIndexDelayed,
            Action::ReadFile(n) => ActionView::ReadFile(n@),
            Action::WriteFile(n, b) => ActionView::WriteFile(n@, b@),
            Action::Respond(r) => ActionView::Respond(r@),
        }
    }
}

/// Whether `t` starts with `prefix`.
fn has_prefix(t: &Vec<char>, prefix: &str) -> (r: bool)
    ensures
        r == prefix@.is_prefix_of(t@),
{
    let p = chars_of(prefix);
    if p.len() > t.len() {
        return false;
    }
    let mut i: usize = 0;
    while i < p.len()
        invariant
            p@ == prefix@,
            p@.len() <= t@.len(),
            i <= p@.len(),
            forall|j: int| 0 <= j < i ==> p@[j] == t@[j],
        decreases p@.len() - i,
    {
        if p[i] != t[i] {
            return false;
        }
        i = i + 1;
    }
    assert(p@ =~= t@.subrange(0, p@.len() as int));
    true
}

/// Whether `t` is exactly `word`.
fn is_exactly(t: &Vec<char>, word: &str) -> (r: bool)
    ensures
        r == (t@ == word@),
{
    let r = has_prefix(t, word) && t.len() == word.unicode_len();
    proof {
        if r {
            assert(t@ =~= word@);
        }
    }
    r
}

/// A 200 response with an optional `Content-Type`, a `Content-Length` that counts the
/// body's bytes, and `body`.
pub fn content(content_type: Option<&str>, body: Vec<u8>) -> (r: HttpResponse)
    ensures
        r.wf(),
        r@ == content_response(
            match content_type {
                Some(ct) => Some(ct@),
                None => None,
            },
            body@,
        ),
{
    let mut r = HttpResponse::new();
    r.set_status_code(StatusCode::Success);
    proof {
        reveal_strlit("Content-Type");
        reveal_strlit("Content-Length");
    }
    assert("Content-Type"@[8] != "Content-Length"@[8]);
    match content_type {
        Some(ct) => {
            r.set_header("Content-Type", ct);
            assert(r@.headers =~= seq![("Content-Type"@, ct@)]);
        },
        None => {},
    }
    let len = decimal_string(body.len());
    let ghost before = r@.headers;
    r.set_header("Content-Length", len.as_str());
    proof {
        assert(!crate::headers::has_name(before, "Content-Length"@)) by {
            if before.len() > 0 {
                assert(before[0].0 == "Content-Type"@);
                assert(before[0].0 != "Content-Length"@);
            }
        }
    }
    r.set_body(body);
    assert(r@.headers =~= content_response(
        match content_type {
            Some(ct) => Some(ct@),
            None => None,
        },
        body@,
    ).headers);
    r
}

/// A response with status `s` alone.
pub fn bare(s: StatusCode) -> (r: HttpResponse)
    ensures
        r.wf(),
        r@ == bare_response(s),
{
    let mut r = HttpResponse::new();
    r.set_status_code(s);
    assert(r@.headers =~= Seq::empty());
    assert(r@.body =~= Seq::empty());
    r
}

/// Decides what to do with a parsed request, following `route_of`.
pub fn route(req: &HttpRequest) -> (r: Action)
    ensures
        r@ == route_of(req@),
{
    let method = chars_of(req.method().as_str());
    let path_text = req.path().as_str();
    let path = chars_of(path_text);
    let n = path.len();
    proof {
        reveal_strlit("/echo/");
        reveal_strlit("/files/");
    }
    if is_exactly(&method, "GET") {
        if is_exactly(&path, "/") {
            Action::ServeIndex
        } else if is_exactly(&path, "/sleep") {
            Action::ServeIndexDelayed
        } else if has_prefix(&path, "/echo/") {
            let rest = path_text.substring_char(6, n);
            Action::Respond(content(Some("text/plain"), slice_to_vec(rest.as_bytes())))
        } else if has_prefix(&path, "/files/") {
            Action::ReadFile(path_text.substring_char(7, n).to_owned())
        } else if has_prefix(&path, "/user-agent") {
            match req.header("User-Agent") {
                Some(agent) => Action::Respond(
                    content(Some("text/plain"), slice_to_vec(agent.as_str().as_bytes())),
                ),
                None => Action::Respond(bare(StatusCode::BadRequest)),
            }
        } else {
            Action::Respond(bare(StatusCode::NotImplemented))
        }
    } else if is_exactly(&method, "POST") {
        if has_prefix(&path, "/files/") {
            Action::WriteFile(path_text.substring_char(7, n).to_owned(), slice_to_vec(req.body().as_slice()))
        } else {
            Action::Respond(bare(StatusCode::NotFound))
        }
    } else {
        Action::Respond(bare(StatusCode::NotImplemented))
    }
}

/// The answer to a read of the file `ReadFile` named.
pub open spec fn file_read_response(contents: Option<Seq<u8>>) -> ResponseView {
    match contents {
        Some(c) => content_response(Some("application/octet-stream"@), c),
        None => bare_response(StatusCode::NotFound),
    }
}

/// The answer to a write of the file `WriteFile` named.
pub open spec fn file_write_response(written: bool) -> ResponseView {
    if written {
        bare_response(StatusCode::Created)
    } else {
        bare_response(StatusCode::InternalServerError)
    }
}

/// The static page: 200, `Content-Length`, and the page as body.
pub fn index_page(page: Vec<u8>) -> (r: HttpResponse)
    ensures
        r.wf(),
        r@ == content_response(None, page@),
{
    content(None, page)
}

/// 200 with the file's contents as `application/octet-stream`, or 404 where it could not be read.
pub fn file_read(contents: Option<Vec<u8>>) -> (r: HttpResponse)
    ensures
        r.wf(),
        r@ == file_read_response(
            match contents {
                Some(c) => Some(c@),
                None => None,
            },
        ),
{
    match contents {
        Some(c) => content(Some("application/octet-stream"), c),
        None => bare(StatusCode::NotFound),
    }
}

/// 201 where the file was written, 500 where it was not.
pub fn file_written(written: bool) -> (r: HttpResponse)
    ensures
        r.wf(),
        r@ == file_write_response(written),
{
    if written {
        bare(StatusCode::Created)
    } else {
        bare(StatusCode::InternalServerError)
    }
}

/// Any method other than `GET` and `POST` is answered with 501 and nothing else,
/// whatever the path, headers and body; a `GET` that no rule matches gets the same.
pub proof fn lemma_unsupported_is_not_implemented(r: RequestView)
    requires
        r.method != "GET"@ && r.method != "POST"@ || r.method == "GET"@ && r.path != "/"@
            && r.path != "/sleep"@ && !"/echo/"@.is_prefix_of(r.path)
            && !"/files/"@.is_prefix_of(r.path) && !"/user-agent"@.is_prefix_of(r.path),
    ensures
        route_of(r) == ActionView::Respond(bare_response(StatusCode::NotImplemented)),
{
}

/// A `GET` under `/files/` asks to read the named file, and a read that fails is
/// answered with 404 and nothing else.
pub proof fn lemma_unreadable_file_is_not_found(r: RequestView)
    requires
        r.method == "GET"@,
        "/files/"@.is_prefix_of(r.path),
    ensures
        route_of(r) == ActionView::ReadFile(r.path.subrange(7, r.path.len() as int)),
        file_read_response(None).status == StatusCode::NotFound,
        file_read_response(None) == bare_response(StatusCode::NotFound),
{
    reveal_strlit("/");
    reveal_strlit("/sleep");
    reveal_strlit("/echo/");
    reveal_strlit("/files/");
    assert(r.path.subrange(0, 7) == "/files/"@);
    assert(r.path[1] == r.path.subrange(0, 7)[1]);
    assert(r.path[1] == 'f');
    assert(r.path != "/"@);
    assert(r.path != "/sleep"@);
    assert(!"/echo/"@.is_prefix_of(r.path)) by {
        assert("/echo/"@[1] != r.path[1]);
    }
}

/// What a connection does after a read.
pub enum Step {
    /// The body is still short and the peer may send more: read again.
    ReadMore,
    /// The request is complete: route it.
    Handle(HttpRequest),
    /// The request cannot be served: send this response.
    Reply(HttpResponse),
}

/// Decides what follows the parse of everything read so far: read more while the body
/// is short and the peer has not closed, route a complete request, answer 400 otherwise.
pub fn after_read(parsed: Result<HttpRequest, ParseError>, at_eof: bool) -> (r: Step)
    ensures
        match parsed {
            Ok(q) => r == Step::Handle(q),
            Err(ParseError::IncompleteBody) if !at_eof => r is ReadMore,
            Err(_) => r matches Step::Reply(resp) && resp.wf() && resp@ == bare_response(
                StatusCode::BadRequest,
            ),
        },
{
    match parsed {
        Ok(q) => Step::Handle(q),
        Err(ParseError::IncompleteBody) if !at_eof => Step::ReadMore,
        Err(_) => Step::Reply(bare(StatusCode::BadRequest)),
    }
}

} // verus!
