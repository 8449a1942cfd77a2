use http_server::pool::{Claim, JobQueue};
use http_server::request::{HttpRequest, ParseError};
use http_server::response::HttpResponse;
use http_server::router::{after_read, decimal_string, file_read, file_written, index_page, route, Action, Step};
use http_server::status::StatusCode;

fn parse(text: &str) -> HttpRequest {
    match HttpRequest::new_from_buffer(text.as_bytes()) {
        Ok(r) => r,
        Err(e) => panic!("parse failed: {:?}", e),
    }
}

fn respond(req: &HttpRequest) -> HttpResponse {
    match route(req) {
        Action::Respond(r) => r,
        _ => panic!("expected a direct response"),
    }
}

#[test]
fn parses_echo_request_and_routes_it() {
    let req = parse("GET /echo/hello HTTP/1.1\r\nHost: x\r\n\r\n");
    assert_eq!(req.method(), "GET");
    assert_eq!(req.path(), "/echo/hello");
    assert_eq!(req.body(), &b"".to_vec());
    assert_eq!(req.header("Host"), Some("x".to_string()));
    let resp = respond(&req);
    assert_eq!(resp.status_code(), StatusCode::Success);
    assert_eq!(resp.header("Content-Type"), Some("text/plain".to_string()));
    assert_eq!(resp.header("Content-Length"), Some("5".to_string()));
    assert_eq!(resp.body(), &b"hello".to_vec());
}

#[test]
fn body_follows_content_length() {
    let req = parse("POST /files/a HTTP/1.1\r\nContent-Length: 11\r\n\r\nhello world");
    assert_eq!(req.body(), &b"hello world".to_vec());
}

#[test]
fn body_is_cut_at_content_length() {
    let req = parse("POST /files/a HTTP/1.1\r\nContent-Length: 5\r\n\r\nhello world");
    assert_eq!(req.body(), &b"hello".to_vec());
}

#[test]
fn no_content_length_means_empty_body() {
    let req = parse("POST /files/a HTTP/1.1\r\nHost: x\r\n\r\ntrailing bytes");
    assert_eq!(req.body(), &b"".to_vec());
}

#[test]
fn bare_lf_line_endings_are_accepted() {
    let req = parse("GET /x HTTP/1.1\nA: b\n\n");
    assert_eq!(req.path(), "/x");
    assert_eq!(req.header("A"), Some("b".to_string()));
}

#[test]
fn later_header_overrides_earlier_and_malformed_lines_are_skipped() {
    let req = parse("GET / HTTP/1.1\r\nX: 1\r\nno separator here\r\nX: 2\r\nY: a: b\r\n\r\n");
    assert_eq!(req.header("X"), Some("2".to_string()));
    assert_eq!(req.header("Y"), Some("a: b".to_string()));
    assert_eq!(req.header("no separator here"), None);
}

#[test]
fn header_names_are_case_sensitive() {
    let req = parse("GET / HTTP/1.1\r\nhost: x\r\n\r\n");
    assert_eq!(req.header("Host"), None);
    assert_eq!(req.header("host"), Some("x".to_string()));
}

#[test]
fn empty_or_partial_request_line_is_rejected() {
    assert!(matches!(HttpRequest::new_from_buffer(b""), Err(ParseError::MalformedRequestLine)));
    assert!(matches!(HttpRequest::new_from_buffer(b"GET\r\n\r\n"), Err(ParseError::MalformedRequestLine)));
    assert!(matches!(HttpRequest::new_from_buffer(b"   \r\n"), Err(ParseError::MalformedRequestLine)));
}

#[test]
fn bad_content_length_is_rejected() {
    let r = HttpRequest::new_from_buffer(b"POST /f HTTP/1.1\r\nContent-Length: abc\r\n\r\nxyz");
    assert!(matches!(r, Err(ParseError::InvalidContentLength)));
    let r = HttpRequest::new_from_buffer(b"POST /f HTTP/1.1\r\nContent-Length: 99999999999999999999999\r\n\r\n");
    assert!(matches!(r, Err(ParseError::InvalidContentLength)));
}

#[test]
fn short_body_is_incomplete() {
    let r = HttpRequest::new_from_buffer(b"POST /f HTTP/1.1\r\nContent-Length: 10\r\n\r\nabc");
    assert!(matches!(r, Err(ParseError::IncompleteBody)));
}

#[test]
fn invalid_utf8_is_replaced() {
    let req = match HttpRequest::new_from_buffer(b"GET /echo/a\xffb HTTP/1.1\r\n\r\n") {
        Ok(r) => r,
        Err(_) => panic!("parse failed"),
    };
    assert_eq!(req.path(), "/echo/a\u{FFFD}b");
}

#[test]
fn user_agent_is_reflected() {
    let req = parse("GET /user-agent HTTP/1.1\r\nUser-Agent: test-client/1.0\r\n\r\n");
    let resp = respond(&req);
    assert_eq!(resp.status_code(), StatusCode::Success);
    assert_eq!(resp.body(), &b"test-client/1.0".to_vec());
    assert_eq!(resp.header("Content-Length"), Some("15".to_string()));
}

#[test]
fn missing_user_agent_is_bad_request() {
    let req = parse("GET /user-agent HTTP/1.1\r\n\r\n");
    assert_eq!(respond(&req).status_code(), StatusCode::BadRequest);
}

#[test]
fn posted_file_round_trips() {
    let post = parse("POST /files/report.txt HTTP/1.1\r\nContent-Length: 3\r\n\r\nabc");
    let stored = match route(&post) {
        Action::WriteFile(name, body) => {
            assert_eq!(name, "report.txt");
            body
        }
        _ => panic!("expected a file write"),
    };
    assert_eq!(file_written(true).status_code(), StatusCode::Created);
    let get = parse("GET /files/report.txt HTTP/1.1\r\n\r\n");
    match route(&get) {
        Action::ReadFile(name) => assert_eq!(name, "report.txt"),
        _ => panic!("expected a file read"),
    }
    let resp = file_read(Some(stored));
    assert_eq!(resp.status_code(), StatusCode::Success);
    assert_eq!(resp.body(), &b"abc".to_vec());
    assert_eq!(resp.header("Content-Type"), Some("application/octet-stream".to_string()));
    assert_eq!(resp.header("Content-Length"), Some("3".to_string()));
}

#[test]
fn missing_file_is_not_found() {
    let req = parse("GET /files/does-not-exist HTTP/1.1\r\n\r\n");
    match route(&req) {
        Action::ReadFile(name) => assert_eq!(name, "does-not-exist"),
        _ => panic!("expected a file read"),
    }
    assert_eq!(file_read(None).status_code(), StatusCode::NotFound);
}

#[test]
fn failed_write_is_server_error() {
    assert_eq!(file_written(false).status_code(), StatusCode::InternalServerError);
}

#[test]
fn unknown_routes_and_methods_are_not_implemented() {
    let req = parse("GET /unknown/route HTTP/1.1\r\n\r\n");
    assert_eq!(respond(&req).status_code(), StatusCode::NotImplemented);
    for m in ["PUT", "DELETE", "HEAD", "get"] {
        let req = parse(&format!("{} /echo/x HTTP/1.1\r\n\r\n", m));
        assert_eq!(respond(&req).status_code(), StatusCode::NotImplemented);
    }
}

#[test]
fn post_elsewhere_is_not_found() {
    let req = parse("POST /echo/x HTTP/1.1\r\n\r\n");
    assert_eq!(respond(&req).status_code(), StatusCode::NotFound);
}

#[test]
fn index_and_sleep_routes() {
    assert!(matches!(route(&parse("GET / HTTP/1.1\r\n\r\n")), Action::ServeIndex));
    assert!(matches!(route(&parse("GET /sleep HTTP/1.1\r\n\r\n")), Action::ServeIndexDelayed));
    let page = index_page(b"<html></html>".to_vec());
    assert_eq!(page.to_bytes(), b"HTTP/1.1 200 OK\r\nContent-Length: 13\r\n\r\n<html></html>".to_vec());
}

#[test]
fn content_length_counts_bytes() {
    let req = parse("GET /echo/h\u{e9}llo HTTP/1.1\r\n\r\n");
    let resp = respond(&req);
    assert_eq!(resp.header("Content-Length"), Some("6".to_string()));
}

#[test]
fn response_serialises_in_order() {
    let mut r = HttpResponse::new();
    r.set_status_code(StatusCode::NotFound);
    r.set_header("A", "1");
    r.set_header("B", "2");
    r.set_header("A", "3");
    r.set_body(b"xy".to_vec());
    assert_eq!(r.header("A"), Some("3".to_string()));
    assert_eq!(r.to_bytes(), b"HTTP/1.1 404 Not Found\r\nA: 3\r\nB: 2\r\n\r\nxy".to_vec());
}

#[test]
fn fresh_response_is_200_and_empty() {
    let r = HttpResponse::new();
    assert_eq!(r.to_bytes(), b"HTTP/1.1 200 OK\r\n\r\n".to_vec());
}

#[test]
fn status_lines() {
    assert_eq!(StatusCode::Success.to_string(), "200 OK");
    assert_eq!(StatusCode::Created.to_string(), "201 Created");
    assert_eq!(StatusCode::BadRequest.to_string(), "400 Bad Request");
    assert_eq!(StatusCode::NotFound.to_string(), "404 Not Found");
    assert_eq!(StatusCode::InternalServerError.to_string(), "500 Internal Server Error");
    assert_eq!(StatusCode::NotImplemented.to_string(), "501 Not Implemented");
    assert_eq!(StatusCode::NotImplemented.code(), 501);
}

#[test]
fn decimal_rendering() {
    assert_eq!(decimal_string(0), "0");
    assert_eq!(decimal_string(7), "7");
    assert_eq!(decimal_string(1024), "1024");
    assert_eq!(decimal_string(usize::MAX), usize::MAX.to_string());
}

#[test]
fn queue_hands_out_each_job_once_in_order() {
    let mut q: JobQueue<u32> = JobQueue::new();
    assert!(matches!(q.next(), Claim::Wait));
    for i in 0..5u32 {
        q.submit(i);
    }
    q.close();
    let mut got = Vec::new();
    loop {
        match q.next() {
            Claim::Run(j) => got.push(j),
            Claim::Wait => panic!("closed queue must not wait"),
            Claim::Stop => break,
        }
    }
    assert_eq!(got, vec![0, 1, 2, 3, 4]);
    assert!(matches!(q.next(), Claim::Stop));
    assert_eq!(q.pending_len(), 0);
    assert!(q.is_closed());
}

#[test]
fn closing_keeps_pending_jobs() {
    let mut q: JobQueue<&str> = JobQueue::new();
    q.submit("a");
    q.close();
    assert!(matches!(q.next(), Claim::Run("a")));
    assert!(matches!(q.next(), Claim::Stop));
}

#[test]
fn content_length_counts_body_bytes() {
    let r = HttpRequest::new_from_buffer("POST /files/a HTTP/1.1\r\nContent-Length: 2\r\n\r\n\u{e9}".as_bytes());
    match r {
        Ok(req) => assert_eq!(req.body(), &vec![0xc3u8, 0xa9]),
        Err(e) => panic!("parse failed: {:?}", e),
    }
}

#[test]
fn body_bytes_are_kept_as_they_are() {
    let mut raw = b"POST /files/bin HTTP/1.1\r\nContent-Length: 4\r\n\r\n".to_vec();
    raw.extend_from_slice(&[0xff, 0x00, 0x0a, 0x80]);
    let req = match HttpRequest::new_from_buffer(&raw) {
        Ok(r) => r,
        Err(e) => panic!("parse failed: {:?}", e),
    };
    assert_eq!(req.body(), &vec![0xff, 0x00, 0x0a, 0x80]);
    match route(&req) {
        Action::WriteFile(name, body) => {
            assert_eq!(name, "bin");
            let resp = file_read(Some(body));
            assert_eq!(resp.body(), &vec![0xff, 0x00, 0x0a, 0x80]);
        }
        _ => panic!("expected a file write"),
    }
}

#[test]
fn content_length_may_have_a_plus_sign() {
    let req = parse("POST /files/a HTTP/1.1\r\nContent-Length: +5\r\n\r\nhello world");
    assert_eq!(req.body(), &b"hello".to_vec());
    let r = HttpRequest::new_from_buffer(b"POST /f HTTP/1.1\r\nContent-Length: +\r\n\r\n");
    assert!(matches!(r, Err(ParseError::InvalidContentLength)));
    let r = HttpRequest::new_from_buffer(b"POST /f HTTP/1.1\r\nContent-Length: -1\r\n\r\n");
    assert!(matches!(r, Err(ParseError::InvalidContentLength)));
}

#[test]
fn request_line_splits_at_unicode_whitespace() {
    let req = parse("GET\u{a0}/x\u{3000}HTTP/1.1\r\n\r\n");
    assert_eq!(req.method(), "GET");
    assert_eq!(req.path(), "/x");
}

#[test]
fn incomplete_body_asks_for_more_until_eof() {
    let r = HttpRequest::new_from_buffer(b"POST /f HTTP/1.1\r\nContent-Length: 10\r\n\r\nabc");
    assert!(matches!(after_read(r, false), Step::ReadMore));
    let r = HttpRequest::new_from_buffer(b"POST /f HTTP/1.1\r\nContent-Length: 10\r\n\r\nabc");
    match after_read(r, true) {
        Step::Reply(resp) => assert_eq!(resp.status_code(), StatusCode::BadRequest),
        _ => panic!("expected a reply"),
    }
    let r = HttpRequest::new_from_buffer(b"GET\r\n\r\n");
    match after_read(r, false) {
        Step::Reply(resp) => assert_eq!(resp.status_code(), StatusCode::BadRequest),
        _ => panic!("expected a reply"),
    }
    let r = HttpRequest::new_from_buffer(b"GET / HTTP/1.1\r\n\r\n");
    assert!(matches!(after_read(r, false), Step::Handle(_)));
}

#[test]
fn setters_chain() {
    let mut r = HttpResponse::new();
    r.set_status_code(StatusCode::Created)
        .set_header("Content-Length", "2")
        .set_body(b"ok".to_vec())
        .set_header("Content-Length", "2");
    assert_eq!(r.status_code(), StatusCode::Created);
    assert_eq!(r.to_bytes(), b"HTTP/1.1 201 Created\r\nContent-Length: 2\r\n\r\nok".to_vec());
}
