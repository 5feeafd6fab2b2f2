//! Errors as the API answers with them.
use vstd::prelude::*;
use crate::text::{ascii_lowercase, same, to_ascii_lowercase};

verus! {

/// What went wrong.
#[derive(Debug, Clone)]
pub struct ApiError {
    pub message: String,
    pub type_: String,
    pub param: Option<String>,
    pub code: Option<String>,
}

/// An error with the HTTP status and headers of its answer.
#[derive(Debug)]
pub struct AppError {
    pub status: u16,
    pub error: ApiError,
    /// Names and their values; a name stands there once, in whatever case it is written.
    pub headers: Option<Vec<(String, String)>>,
}

/// Whether an error has this status, message and type, and nothing else.
pub open spec fn is_plain(e: AppError, status: u16, message: Seq<char>, type_: Seq<char>) -> bool {
    &&& e.status == status
    &&& e.error.message@ == message
    &&& e.error.type_@ == type_
    &&& e.error.param is None
    &&& e.error.code is None
    &&& e.headers is None
}

/// The position of a header by its name, in whatever case that is written, or the number of
/// headers.
pub open spec fn header_position(headers: Seq<(String, String)>, name: Seq<char>) -> int
    decreases headers.len(),
{
    if headers.len() == 0 || ascii_lowercase(headers[0].0@) == ascii_lowercase(name) {
        0
    } else {
        1 + header_position(headers.drop_first(), name)
    }
}

/// The headers after one was set: in the place of the one of that name, else at the end.
pub open spec fn headers_with(
    headers: Seq<(String, String)>,
    name: String,
    value: String,
) -> Seq<(String, String)> {
    let i = header_position(headers, name@);
    if i < headers.len() {
        headers.update(i, (name, value))
    } else {
        headers.push((name, value))
    }
}

fn find_header(headers: &Vec<(String, String)>, name: &str) -> (r: usize)
    ensures
        r == header_position(headers@, name@),
        r <= headers@.len(),
{
    let mut i: usize = 0;
    assert(headers@.skip(0) =~= headers@);
    while i < headers.len()
        invariant
            i <= headers@.len(),
            header_position(headers@, name@) == i + header_position(
                headers@.skip(i as int),
                name@,
            ),
        decreases headers@.len() - i,
    {
        if same(
            to_ascii_lowercase(headers[i].0.as_str()).as_str(),
            to_ascii_lowercase(name).as_str(),
        ) {
            return i;
        }
        assert(headers@.skip(i as int).drop_first() =~= headers@.skip(i + 1));
        i = i + 1;
    }
    i
}

impl AppError {
    pub fn new(status: u16, message: &str, type_: &str) -> (r: AppError)
        ensures
            is_plain(r, status, message@, type_@),
    {
        AppError {
            status,
            error: ApiError {
                message: message.to_owned(),
                type_: type_.to_owned(),
                param: None,
                code: None,
            },
            headers: None,
        }
    }

    /// Names the parameter that is at fault.
    pub fn with_param(self, param: &str) -> (r: AppError)
        ensures
            r.error.param is Some,
            r.error.param->0@ == param@,
            r == (AppError { error: ApiError { param: r.error.param, ..self.error }, ..self }),
    {
        let mut out = self;
        out.error.param = Some(param.to_owned());
        out
    }

    /// Adds a code.
    pub fn with_code(self, code: &str) -> (r: AppError)
        ensures
            r.error.code is Some,
            r.error.code->0@ == code@,
            r == (AppError { error: ApiError { code: r.error.code, ..self.error }, ..self }),
    {
        let mut out = self;
        out.error.code = Some(code.to_owned());
        out
    }

    /// Sets a header of the answer.
    pub fn with_header(self, name: String, value: String) -> (r: AppError)
        ensures
            r.headers is Some,
            r.headers->0@ == headers_with(
                match self.headers {
                    Some(h) => h@,
                    None => Seq::empty(),
                },
                name,
                value,
            ),
            r == (AppError { headers: r.headers, ..self }),
    {
        let AppError { status, error, headers } = self;
        let mut list: Vec<(String, String)> = match headers {
            Some(h) => h,
            None => Vec::new(),
        };
        let i: usize = find_header(&list, name.as_str());
        if i < list.len() {
            list.set(i, (name, value));
        } else {
            list.push((name, value));
        }
        AppError { status, error, headers: Some(list) }
    }

    pub fn invalid_request(message: &str) -> (r: AppError)
        ensures
            is_plain(r, 400, message@, "invalid_request_error"@),
    {
        AppError::new(400, message, "invalid_request_error")
    }

    pub fn authentication_error(message: &str) -> (r: AppError)
        ensures
            is_plain(r, 401, message@, "authentication_error"@),
    {
        AppError::new(401, message, "authentication_error")
    }

    pub fn model_not_found(message: &str) -> (r: AppError)
        ensures
            is_plain(r, 404, message@, "model_not_found"@),
    {
        AppError::new(404, message, "model_not_found")
    }

    pub fn service_unavailable(message: &str, type_: &str) -> (r: AppError)
        ensures
            is_plain(r, 503, message@, type_@),
    {
        AppError::new(503, message, type_)
    }

    pub fn internal_server_error(message: &str) -> (r: AppError)
        ensures
            is_plain(r, 500, message@, "internal_error"@),
    {
        AppError::new(500, message, "internal_error")
    }

    pub fn request_timeout(message: &str) -> (r: AppError)
        ensures
            is_plain(r, 408, message@, "request_timeout"@),
    {
        AppError::new(408, message, "request_timeout")
    }

    /// The client closed the connection before it was answered.
    pub fn client_disconnected() -> (r: AppError)
        ensures
            is_plain(r, 499, "Client closed connection"@, "client_disconnected"@),
    {
        AppError::new(499, "Client closed connection", "client_disconnected")
    }
}

proof fn lemma_header_position(headers: Seq<(String, String)>, name: Seq<char>)
    ensures
        0 <= header_position(headers, name) <= headers.len(),
        header_position(headers, name) < headers.len() ==> ascii_lowercase(
            headers[header_position(headers, name)].0@,
        ) == ascii_lowercase(name),
        forall|j: int|
            0 <= j < header_position(headers, name) ==> ascii_lowercase(
                (#[trigger] headers[j]).0@,
            ) != ascii_lowercase(name),
    decreases headers.len(),
{
    if headers.len() > 0 && ascii_lowercase(headers[0].0@) != ascii_lowercase(name) {
        let rest = headers.drop_first();
        lemma_header_position(rest, name);
        assert forall|j: int| 0 <= j < header_position(headers, name) implies ascii_lowercase(
            (#[trigger] headers[j]).0@,
        ) != ascii_lowercase(name) by {
            if j > 0 {
                assert(rest[j - 1] == headers[j]);
            }
        }
    }
}

/// A header that is set takes the place of the first of that name, in whatever case it is written,
/// and comes last where there is none; no other header changes.
pub proof fn law_header_is_set(
    headers: Seq<(String, String)>,
    name: String,
    value: String,
    i: int,
)
    ensures
        0 <= i < headers.len() && ascii_lowercase(headers[i].0@) == ascii_lowercase(name@) && (
        forall|j: int|
            0 <= j < i ==> ascii_lowercase((#[trigger] headers[j]).0@) != ascii_lowercase(name@))
            ==> headers_with(headers, name, value) == headers.update(i, (name, value)),
        (forall|j: int|
            0 <= j < headers.len() ==> ascii_lowercase((#[trigger] headers[j]).0@)
                != ascii_lowercase(name@)) ==> headers_with(headers, name, value) == headers.push(
            (name, value),
        ),
{
    lemma_header_position(headers, name@);
    let p = header_position(headers, name@);
    if 0 <= i < headers.len() && ascii_lowercase(headers[i].0@) == ascii_lowercase(name@) {
        if p < i {
            assert(ascii_lowercase(headers[p].0@) == ascii_lowercase(name@));
        }
    }
}

/// A header name stands in an answer once, however often and in whatever case it is set, with the
/// value that was set last.
pub proof fn law_header_stands_once(
    headers: Seq<(String, String)>,
    a: String,
    x: String,
    b: String,
    y: String,
)
    requires
        ascii_lowercase(a@) == ascii_lowercase(b@),
    ensures
        headers_with(headers_with(headers, a, x), b, y) == headers_with(headers, b, y),
{
    lemma_header_position(headers, a@);
    lemma_header_position(headers, b@);
    let p = header_position(headers, a@);
    let q = header_position(headers, b@);
    if p < q {
        assert(ascii_lowercase(headers[p].0@) == ascii_lowercase(b@));
    }
    if q < p {
        assert(ascii_lowercase(headers[q].0@) == ascii_lowercase(a@));
    }
    assert(p == q);
    let once = headers_with(headers, a, x);
    lemma_header_position(once, b@);
    let r = header_position(once, b@);
    assert(once[p] == (a, x));
    if r < p {
        assert(once[r] == headers[r]);
    }
    assert(r == p);
    assert(headers_with(once, b, y) =~= headers_with(headers, b, y));
}

/// An error without a parameter, a code or headers is known by its status, message and type.
pub proof fn law_plain_errors(e: AppError, status: u16, message: Seq<char>, type_: Seq<char>)
    requires
        is_plain(e, status, message, type_),
    ensures
        e.status == status,
        e.error.message@ == message && e.error.type_@ == type_,
        e.error.param is None && e.error.code is None && e.headers is None,
{
}

} // verus!
