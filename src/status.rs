use vstd::prelude::*;

verus! {

/// The closed set of status codes the server emits.
#[derive(Debug, Clone, Copy, PartialEq, Eq, Structural)]
pub enum StatusCode {
    Success,
    Created,
    BadRequest,
    NotFound,
    InternalServerError,
    NotImplemented,
}

/// The numeric code of a status.
pub open spec fn code_of(s: StatusCode) -> u16 {
    match s {
        StatusCode::Success => 200,
        StatusCode::Created => 201,
        StatusCode::BadRequest => 400,
        StatusCode::NotFound => 404,
        StatusCode::InternalServerError => 500,
        StatusCode::NotImplemented => 501,
    }
}

/// The text that follows `HTTP/1.1 ` on a status line: code and reason phrase.
pub open spec fn status_text(s: StatusCode) -> Seq<char> {
    match s {
        StatusCode::Success => "200 OK"@,
        StatusCode::Created => "201 Created"@,
        StatusCode::BadRequest => "400 Bad Request"@,
        StatusCode::NotFound => "404 Not Found"@,
        StatusCode::InternalServerError => "500 Internal Server Error"@,
        StatusCode::NotImplemented => "501 Not Implemented"@,
    }
}

impl StatusCode {
    /// The numeric code, e.g. 404.
    pub fn code(&self) -> (r: u16)
        ensures
            r == code_of(*self),
    {
        match self {
            StatusCode::Success => 200,
            StatusCode::Created => 201,
            StatusCode::BadRequest => 400,
            StatusCode::NotFound => 404,
            StatusCode::InternalServerError => 500,
            StatusCode::NotImplemented => 501,
        }
    }

    /// Code and reason phrase as they stand on a status line, e.g. `404 Not Found`.
    pub fn to_string(&self) -> (r: String)
        ensures
            r@ == status_text(*self),
    {
        let t: &str = match self {
            StatusCode::Success => "200 OK",
            StatusCode::Created => "201 Created",
            StatusCode::BadRequest => "400 Bad Request",
            StatusCode::NotFound => "404 Not Found",
            StatusCode::InternalServerError => "500 Internal Server Error",
            StatusCode::NotImplemented => "501 Not Implemented",
        };
        t.to_owned()
    }
}

} // verus!
