//! HTTP/1 protocol helpers: the error type and its status mapping, error
//! pages, and the keep-alive decision.

use vstd::prelude::*;

use crate::text::{decimal, push_decimal, push_str};
use crate::url::pattern::str_equal;

pub mod transport;

verus! {

/// An I/O error of the standard library.
#[verifier::external_type_specification]
#[verifier::external_body]
pub struct ExIoError(std::io::Error);

/// The text of an I/O error (its `Display` form). Nothing is stated of it.
#[verifier::external_body]
fn io_error_text(e: &std::io::Error) -> (r: String) {
    e.to_string()
}

/// The lower-case form of `s`, as `str::to_lowercase` computes it (Unicode
/// lower-case mapping).
pub uninterp spec fn lowercase(s: Seq<char>) -> Seq<char>;

/// Whether every character is ASCII.
pub open spec fn all_ascii(s: Seq<char>) -> bool {
    forall|i: int| 0 <= i < s.len() ==> (#[trigger] s[i] as u32) < 128
}

/// The ASCII lower-case form of one character: `A`..=`Z` become
/// `a`..=`z`, every other character stays.
pub open spec fn ascii_lower(c: char) -> char {
    if 'A' <= c && c <= 'Z' {
        ((c as u32) + 32) as char
    } else {
        c
    }
}

/// Lower-cases `s` with `str::to_lowercase`. On ASCII text the Unicode
/// lower-case mapping is the ASCII one: `A`..=`Z` become `a`..=`z` and
/// every other character stays.
#[verifier::external_body]
fn to_lowercase(s: &str) -> (r: String)
    ensures
        r@ == lowercase(s@),
        all_ascii(s@) ==> r@ == s@.map_values(|c: char| ascii_lower(c)),
{
    s.to_lowercase()
}

/// An HTTP status code.
#[derive(Debug, Clone, Copy, PartialEq, Eq, Structural)]
pub struct StatusCode(pub u16);

/// The reason phrase of a status code; empty for codes without one here.
pub open spec fn reason(code: u16) -> Seq<char> {
    if code == 200 {
        "OK"@
    } else if code == 201 {
        "Created"@
    } else if code == 204 {
        "No Content"@
    } else if code == 301 {
        "Moved Permanently"@
    } else if code == 302 {
        "Found"@
    } else if code == 304 {
        "Not Modified"@
    } else if code == 400 {
        "Bad Request"@
    } else if code == 401 {
        "Unauthorized"@
    } else if code == 403 {
        "Forbidden"@
    } else if code == 404 {
        "Not Found"@
    } else if code == 405 {
        "Method Not Allowed"@
    } else if code == 408 {
        "Request Timeout"@
    } else if code == 413 {
        "Payload Too Large"@
    } else if code == 415 {
        "Unsupported Media Type"@
    } else if code == 431 {
        "Request Header Fields Too Large"@
    } else if code == 500 {
        "Internal Server Error"@
    } else if code == 502 {
        "Bad Gateway"@
    } else if code == 503 {
        "Service Unavailable"@
    } else if code == 505 {
        "HTTP Version Not Supported"@
    } else {
        Seq::empty()
    }
}

impl StatusCode {
    /// The status with numeric code `code`.
    pub fn from_u16(code: u16) -> (r: StatusCode)
        ensures
            r.0 == code,
    {
        StatusCode(code)
    }

    /// The numeric code.
    pub fn as_u16(&self) -> (r: u16)
        ensures
            r == self.0,
    {
        self.0
    }

    /// The reason phrase, such as `Not Found`.
    pub fn reason_phrase(&self) -> (r: &'static str)
        ensures
            r@ == reason(self.0),
    {
        let c = self.0;
        let r = if c == 200 {
            "OK"
        } else if c == 201 {
            "Created"
        } else if c == 204 {
            "No Content"
        } else if c == 301 {
            "Moved Permanently"
        } else if c == 302 {
            "Found"
        } else if c == 304 {
            "Not Modified"
        } else if c == 400 {
            "Bad Request"
        } else if c == 401 {
            "Unauthorized"
        } else if c == 403 {
            "Forbidden"
        } else if c == 404 {
            "Not Found"
        } else if c == 405 {
            "Method Not Allowed"
        } else if c == 408 {
            "Request Timeout"
        } else if c == 413 {
            "Payload Too Large"
        } else if c == 415 {
            "Unsupported Media Type"
        } else if c == 431 {
            "Request Header Fields Too Large"
        } else if c == 500 {
            "Internal Server Error"
        } else if c == 502 {
            "Bad Gateway"
        } else if c == 503 {
            "Service Unavailable"
        } else if c == 505 {
            "HTTP Version Not Supported"
        } else {
            ""
        };
        proof {
            reveal_strlit("OK");
            reveal_strlit("Created");
            reveal_strlit("No Content");
            reveal_strlit("Moved Permanently");
            reveal_strlit("Found");
            reveal_strlit("Not Modified");
            reveal_strlit("Bad Request");
            reveal_strlit("Unauthorized");
            reveal_strlit("Forbidden");
            reveal_strlit("Not Found");
            reveal_strlit("Method Not Allowed");
            reveal_strlit("Request Timeout");
            reveal_strlit("Payload Too Large");
            reveal_strlit("Unsupported Media Type");
            reveal_strlit("Request Header Fields Too Large");
            reveal_strlit("Internal Server Error");
            reveal_strlit("Bad Gateway");
            reveal_strlit("Service Unavailable");
            reveal_strlit("HTTP Version Not Supported");
            reveal_strlit("");
        }
        r
    }
}

/// Errors of HTTP handling.
#[derive(Debug)]
pub enum HttpError {
    /// Low-level I/O error.
    Io(std::io::Error),
    /// Connection-level error, by its message.
    Connection(String),
    /// The start line did not parse.
    ParseError(String),
    /// A malformed header.
    InvalidHeader(String),
    /// A malformed request URI.
    InvalidUri(String),
    /// A malformed chunked body.
    ChunkError(String),
    /// The body is too large.
    PayloadTooLarge,
    /// The method is not allowed.
    MethodNotAllowed,
    /// The media type is not supported.
    UnsupportedMediaType,
    /// The header section is too large.
    HeaderTooLarge,
    /// Too many headers.
    TooManyHeaders,
    /// A header line is too long.
    HeaderLineTooLong,
    /// A specific status for the response.
    Status(StatusCode),
    /// No route matched the path.
    NoRoute(String),
    /// The request timed out.
    Timeout,
    /// The HTTP version is not supported.
    VersionNotSupported,
    /// A protocol violation.
    ProtocolViolation(String),
    /// Any other error.
    Other(String),
}

/// The status code each error maps to.
pub open spec fn error_status(e: &HttpError) -> u16 {
    match e {
        HttpError::Io(_) => 500,
        HttpError::Connection(_) => 502,
        HttpError::ParseError(_) => 400,
        HttpError::InvalidHeader(_) => 400,
        HttpError::InvalidUri(_) => 400,
        HttpError::ChunkError(_) => 400,
        HttpError::PayloadTooLarge => 413,
        HttpError::MethodNotAllowed => 405,
        HttpError::UnsupportedMediaType => 415,
        HttpError::HeaderTooLarge => 431,
        HttpError::TooManyHeaders => 431,
        HttpError::HeaderLineTooLong => 431,
        HttpError::Status(code) => code.0,
        HttpError::NoRoute(_) => 404,
        HttpError::Timeout => 408,
        HttpError::VersionNotSupported => 505,
        HttpError::ProtocolViolation(_) => 400,
        HttpError::Other(_) => 500,
    }
}

/// The message of each error; the text of an I/O error is its own.
pub open spec fn error_message(e: &HttpError, io_text: Seq<char>) -> Seq<char> {
    match e {
        HttpError::Io(_) => "I/O error: "@ + io_text,
        HttpError::Connection(msg) => "Connection error: "@ + msg@,
        HttpError::ParseError(msg) => "Parse error: "@ + msg@,
        HttpError::InvalidHeader(msg) => "Invalid header: "@ + msg@,
        HttpError::InvalidUri(uri) => "Invalid URI: "@ + uri@,
        HttpError::ChunkError(msg) => "Chunked transfer error: "@ + msg@,
        HttpError::PayloadTooLarge => "Payload too large"@,
        HttpError::MethodNotAllowed => "Method not allowed"@,
        HttpError::UnsupportedMediaType => "Unsupported media type"@,
        HttpError::HeaderTooLarge => "Header section too large"@,
        HttpError::TooManyHeaders => "Too many headers"@,
        HttpError::HeaderLineTooLong => "Header line too long"@,
        HttpError::Status(code) => "HTTP status error: StatusCode("@ + decimal(code.0 as nat)
            + ")"@,
        HttpError::NoRoute(path) => "No route matched path: "@ + path@,
        HttpError::Timeout => "Request timed out"@,
        HttpError::VersionNotSupported => "HTTP version not supported"@,
        HttpError::ProtocolViolation(msg) => "Protocol violation: "@ + msg@,
        HttpError::Other(msg) => "HTTP error: "@ + msg@,
    }
}

impl HttpError {
    /// Whether the connection can go on after this error: every error but
    /// an I/O or connection failure lets a response still be sent.
    pub fn can_continue(&self) -> (r: bool)
        ensures
            r == !(self is Io || self is Connection),
    {
        match self {
            HttpError::Io(_) => false,
            HttpError::Connection(_) => false,
            _ => true,
        }
    }

    /// The status code that answers this error.
    pub fn status(&self) -> (r: StatusCode)
        ensures
            r.0 == error_status(self),
    {
        match self {
            HttpError::Io(_) => StatusCode(500),
            HttpError::Connection(_) => StatusCode(502),
            HttpError::ParseError(_) => StatusCode(400),
            HttpError::InvalidHeader(_) => StatusCode(400),
            HttpError::InvalidUri(_) => StatusCode(400),
            HttpError::ChunkError(_) => StatusCode(400),
            HttpError::PayloadTooLarge => StatusCode(413),
            HttpError::MethodNotAllowed => StatusCode(405),
            HttpError::UnsupportedMediaType => StatusCode(415),
            HttpError::HeaderTooLarge => StatusCode(431),
            HttpError::TooManyHeaders => StatusCode(431),
            HttpError::HeaderLineTooLong => StatusCode(431),
            HttpError::Status(code) => *code,
            HttpError::NoRoute(_) => StatusCode(404),
            HttpError::Timeout => StatusCode(408),
            HttpError::VersionNotSupported => StatusCode(505),
            HttpError::ProtocolViolation(_) => StatusCode(400),
            HttpError::Other(_) => StatusCode(500),
        }
    }

    /// The human-readable message of the error.
    pub fn message(&self) -> (r: String)
        ensures
            !(self is Io) ==> r@ == error_message(self, Seq::empty()),
            self is Io ==> exists|t: Seq<char>| r@ == error_message(self, t),
    {
        let mut s = String::new();
        match self {
            HttpError::Io(e) => {
                push_str(&mut s, "I/O error: ");
                let t = io_error_text(e);
                push_str(&mut s, t.as_str());
                assert(s@ == error_message(self, t@));
            },
            HttpError::Connection(m) => {
                push_str(&mut s, "Connection error: ");
                push_str(&mut s, m.as_str());
            },
            HttpError::ParseError(m) => {
                push_str(&mut s, "Parse error: ");
                push_str(&mut s, m.as_str());
            },
            HttpError::InvalidHeader(m) => {
                push_str(&mut s, "Invalid header: ");
                push_str(&mut s, m.as_str());
            },
            HttpError::InvalidUri(m) => {
                push_str(&mut s, "Invalid URI: ");
                push_str(&mut s, m.as_str());
            },
            HttpError::ChunkError(m) => {
                push_str(&mut s, "Chunked transfer error: ");
                push_str(&mut s, m.as_str());
            },
            HttpError::PayloadTooLarge => push_str(&mut s, "Payload too large"),
            HttpError::MethodNotAllowed => push_str(&mut s, "Method not allowed"),
            HttpError::UnsupportedMediaType => push_str(&mut s, "Unsupported media type"),
            HttpError::HeaderTooLarge => push_str(&mut s, "Header section too large"),
            HttpError::TooManyHeaders => push_str(&mut s, "Too many headers"),
            HttpError::HeaderLineTooLong => push_str(&mut s, "Header line too long"),
            HttpError::Status(code) => {
                push_str(&mut s, "HTTP status error: StatusCode(");
                push_decimal(&mut s, code.0 as u64);
                push_str(&mut s, ")");
            },
            HttpError::NoRoute(p) => {
                push_str(&mut s, "No route matched path: ");
                push_str(&mut s, p.as_str());
            },
            HttpError::Timeout => push_str(&mut s, "Request timed out"),
            HttpError::VersionNotSupported => push_str(&mut s, "HTTP version not supported"),
            HttpError::ProtocolViolation(m) => {
                push_str(&mut s, "Protocol violation: ");
                push_str(&mut s, m.as_str());
            },
            HttpError::Other(m) => {
                push_str(&mut s, "HTTP error: ");
                push_str(&mut s, m.as_str());
            },
        }
        s
    }
}

impl crate::protocol::ProtocolError for HttpError {
    fn can_continue(&self) -> (r: bool)
        ensures
            r == !(self is Io || self is Connection),
    {
        HttpError::can_continue(self)
    }
}

/// A response with a status and an HTML body.
#[derive(Debug, Clone)]
pub struct HttpResponse {
    pub status: StatusCode,
    pub body: String,
}

impl HttpResponse {
    /// The status.
    pub fn status(&self) -> (r: StatusCode)
        ensures
            r == self.status,
    {
        self.status
    }

    /// The HTML body.
    pub fn body(&self) -> (r: &str)
        ensures
            r@ == self.body@,
    {
        self.body.as_str()
    }
}

/// The HTML page of an error status:
/// `<!DOCTYPE html>\n<html>\n<head><title>CODE REASON</title></head>\n<body><h1>CODE REASON</h1></body>\n</html>\n`.
pub open spec fn error_page(code: u16) -> Seq<char> {
    "<!DOCTYPE html>\n<html>\n<head><title>"@ + decimal(code as nat) + " "@ + reason(code)
        + "</title></head>\n<body><h1>"@ + decimal(code as nat) + " "@ + reason(code)
        + "</h1></body>\n</html>\n"@
}

/// Builds the HTML page of an error status.
fn html_error_body(status: &StatusCode) -> (r: String)
    ensures
        r@ == error_page(status.0),
{
    let code = status.as_u16();
    let phrase = status.reason_phrase();
    let mut s = String::new();
    push_str(&mut s, "<!DOCTYPE html>\n<html>\n<head><title>");
    push_decimal(&mut s, code as u64);
    push_str(&mut s, " ");
    push_str(&mut s, phrase);
    push_str(&mut s, "</title></head>\n<body><h1>");
    push_decimal(&mut s, code as u64);
    push_str(&mut s, " ");
    push_str(&mut s, phrase);
    push_str(&mut s, "</h1></body>\n</html>\n");
    s
}

/// A response with `status` and its HTML error page.
fn html_status_response(status: StatusCode) -> (r: HttpResponse)
    ensures
        r.status == status,
        r.body@ == error_page(status.0),
{
    let body = html_error_body(&status);
    HttpResponse { status, body }
}

/// The 404 Not Found response with its HTML page.
pub fn not_found_response() -> (r: HttpResponse)
    ensures
        r.status.0 == 404,
        r.body@ == error_page(404),
{
    html_status_response(StatusCode(404))
}

/// The response that answers an error: the error's own status when it is
/// an HTTP error (`Some`), 500 Internal Server Error for any other protocol
/// error (`None`); the body is the status's HTML page.
pub fn error_response_from(err: Option<&HttpError>) -> (r: HttpResponse)
    ensures
        r.status.0 == (match err {
            Some(e) => error_status(e),
            None => 500,
        }),
        r.body@ == error_page(r.status.0),
{
    let status = match err {
        Some(e) => e.status(),
        None => StatusCode(500),
    };
    html_status_response(status)
}

/// Whether a `Connection` header value keeps the connection open: without
/// the header it does (the HTTP/1.1 default); with it, it does unless the
/// value is `close` in any letter case.
pub open spec fn keeps_alive(connection: Option<&str>) -> bool {
    match connection {
        Some(v) => lowercase(v@) != "close"@,
        None => true,
    }
}

/// Whether a request keeps its connection open, given its `Connection`
/// header: without the header it does (the HTTP/1.1 default); with it, it
/// does unless the value is `close` in any letter case.
pub fn is_keep_alive(connection: Option<&str>) -> (r: bool)
    ensures
        r == keeps_alive(connection),
        match connection {
            Some(v) => all_ascii(v@) ==> r == (v@.map_values(|c: char| ascii_lower(c)) != "close"@),
            None => r,
        },
{
    match connection {
        Some(v) => {
            let lower = to_lowercase(v);
            !str_equal(lower.as_str(), "close")
        },
        None => true,
    }
}

/// The writer half of an HTTP connection.
pub struct HttpWireWriter<W> {
    inner: W,
}

impl<W> HttpWireWriter<W> {
    /// The wrapped writer.
    pub closed spec fn wrapped(self) -> W {
        self.inner
    }

    /// Wraps a writer.
    pub fn new(inner: W) -> (r: HttpWireWriter<W>)
        ensures
            r.wrapped() == inner,
    {
        HttpWireWriter { inner }
    }

    /// The wrapped writer.
    pub fn inner(&self) -> (r: &W)
        ensures
            *r == self.wrapped(),
    {
        &self.inner
    }

    /// The wrapped writer, mutably.
    pub fn inner_mut(&mut self) -> (r: &mut W)
        ensures
            *r == old(self).wrapped(),
            final(self).wrapped() == *final(r),
    {
        &mut self.inner
    }

    /// Unwraps the writer.
    pub fn into_inner(self) -> (r: W)
        ensures
            r == self.wrapped(),
    {
        self.inner
    }
}


/// The request-method prefixes that open an HTTP/1 request.
pub open spec fn http1_methods() -> Seq<Seq<char>> {
    seq!["GET "@, "POST "@, "PUT "@, "DELETE "@, "HEAD "@, "OPTIONS "@, "PATCH "@, "CONNECT "@, "TRACE "@]
}

/// Whether `bytes` begins with the ASCII text `p`.
pub open spec fn starts_with_ascii(bytes: Seq<u8>, p: Seq<char>) -> bool {
    bytes.len() >= p.len() && forall|i: int| 0 <= i < p.len() ==> (bytes[i] as char) == p[i]
}

/// Whether `bytes` begins with the ASCII text `p`.
fn bytes_start_with(bytes: &[u8], p: &str) -> (r: bool)
    ensures
        r == starts_with_ascii(bytes@, p@),
{
    let cs = crate::text::chars_of(p);
    if bytes.len() < cs.len() {
        return false;
    }
    let mut k: usize = 0;
    while k < cs.len()
        invariant
            cs@ == p@,
            cs@.len() <= bytes@.len(),
            k <= cs@.len(),
            forall|i: int| 0 <= i < k ==> (bytes@[i] as char) == cs@[i],
        decreases cs.len() - k,
    {
        if (bytes[k] as char) != cs[k] {
            return false;
        }
        k = k + 1;
    }
    true
}

/// The HTTP/1.1 protocol handler in a given role.
#[derive(Debug, Clone, Copy, PartialEq, Eq, Structural)]
pub struct Http1Protocol {
    pub role: crate::protocol::ProtocolRole,
}

impl Http1Protocol {
    /// The server-side handler.
    pub fn server() -> (r: Http1Protocol)
        ensures
            r.role == crate::protocol::ProtocolRole::Server,
    {
        Http1Protocol { role: crate::protocol::ProtocolRole::Server }
    }

    /// The client-side handler.
    pub fn client() -> (r: Http1Protocol)
        ensures
            r.role == crate::protocol::ProtocolRole::Client,
    {
        Http1Protocol { role: crate::protocol::ProtocolRole::Client }
    }

    /// The protocol name, `http`.
    pub fn name(&self) -> (r: &'static str)
        ensures
            r@ == "http"@,
    {
        "http"
    }

    /// The role.
    pub fn role(&self) -> (r: crate::protocol::ProtocolRole)
        ensures
            r == self.role,
    {
        self.role
    }

    /// Whether the first bytes of a connection are an HTTP/1 request: they
    /// begin with a request method and a space.
    pub fn detect(initial_bytes: &[u8]) -> (r: bool)
        ensures
            r == exists|i: int| 0 <= i < http1_methods().len() && starts_with_ascii(initial_bytes@, #[trigger] http1_methods()[i]),
    {
        let ghost ms = http1_methods();
        proof {
            reveal_strlit("GET ");
            reveal_strlit("POST ");
            reveal_strlit("PUT ");
            reveal_strlit("DELETE ");
            reveal_strlit("HEAD ");
            reveal_strlit("OPTIONS ");
            reveal_strlit("PATCH ");
            reveal_strlit("CONNECT ");
            reveal_strlit("TRACE ");
        }
        let r = bytes_start_with(initial_bytes, "GET ") || bytes_start_with(initial_bytes, "POST ")
            || bytes_start_with(initial_bytes, "PUT ") || bytes_start_with(initial_bytes, "DELETE ")
            || bytes_start_with(initial_bytes, "HEAD ") || bytes_start_with(initial_bytes, "OPTIONS ")
            || bytes_start_with(initial_bytes, "PATCH ") || bytes_start_with(initial_bytes, "CONNECT ")
            || bytes_start_with(initial_bytes, "TRACE ");
        assert(ms[0] == "GET "@ && ms[1] == "POST "@ && ms[2] == "PUT "@ && ms[3] == "DELETE "@
            && ms[4] == "HEAD "@ && ms[5] == "OPTIONS "@ && ms[6] == "PATCH "@ && ms[7] == "CONNECT "@
            && ms[8] == "TRACE "@);
        if !r {
            assert forall|i: int| 0 <= i < ms.len() implies !starts_with_ascii(initial_bytes@, #[trigger] ms[i]) by {
                if i == 0 {} else if i == 1 {} else if i == 2 {} else if i == 3 {} else if i == 4 {}
                else if i == 5 {} else if i == 6 {} else if i == 7 {} else {}
            }
        }
        r
    }

    /// The segments a request path is walked with: none for the empty
    /// path (the root endpoint), otherwise the pieces between `/`
    /// characters, empty pieces included.
    pub fn lit_parser(input: &str) -> (r: Vec<String>)
        ensures
            input@.len() == 0 ==> r@.len() == 0,
            input@.len() > 0 ==> crate::url::split::strs_view(r@) == crate::url::split::split_slash(input@),
    {
        if input.is_empty() {
            Vec::new()
        } else {
            crate::url::split::split_path(input)
        }
    }
}

/// The flow after one exchange: keep the connection for the next request
/// when the request asked to keep it alive.
pub fn flow_after(keep_alive: bool) -> (r: crate::protocol::ProtocolFlow)
    ensures
        r == (if keep_alive {
            crate::protocol::ProtocolFlow::Continue
        } else {
            crate::protocol::ProtocolFlow::Close
        }),
{
    if keep_alive {
        crate::protocol::ProtocolFlow::Continue
    } else {
        crate::protocol::ProtocolFlow::Close
    }
}

/// What the server does when no route matches a request: it answers 404
/// Not Found and keeps the connection only if the request asked for it.
pub fn on_no_route(keep_alive: bool) -> (r: (HttpResponse, crate::protocol::ProtocolFlow))
    ensures
        r.0.status.0 == 404,
        r.0.body@ == error_page(404),
        r.1 == (if keep_alive {
            crate::protocol::ProtocolFlow::Continue
        } else {
            crate::protocol::ProtocolFlow::Close
        }),
{
    (not_found_response(), flow_after(keep_alive))
}

/// What the server does when the handler chain fails: an error it can
/// continue after is answered with its error page (500 for an error that is
/// not an HTTP error) and the connection follows the keep-alive wish; any
/// other error closes the connection without an answer. `err` is the error
/// when it is an HTTP error; `can_continue` is the error's own verdict
/// (for an HTTP error, [`HttpError::can_continue`]).
pub fn on_handler_error(keep_alive: bool, can_continue: bool, err: Option<&HttpError>) -> (r: (
    Option<HttpResponse>,
    crate::protocol::ProtocolFlow,
))
    requires
        err matches Some(e) ==> can_continue == !(e is Io || e is Connection),
    ensures
        can_continue ==> (r.0 matches Some(resp) && resp.status.0 == (match err {
            Some(e) => error_status(e),
            None => 500,
        }) && resp.body@ == error_page(resp.status.0)) && r.1 == (if keep_alive {
            crate::protocol::ProtocolFlow::Continue
        } else {
            crate::protocol::ProtocolFlow::Close
        }),
        !can_continue ==> r.0 is None && r.1 == crate::protocol::ProtocolFlow::Close,
{
    if can_continue {
        (Some(error_response_from(err)), flow_after(keep_alive))
    } else {
        (None, crate::protocol::ProtocolFlow::Close)
    }
}

/// The safety check of a request against its endpoint's limits, given the
/// outcome of each limit (body size, method, content type): the first limit
/// that fails, in that order, refuses the request with its error.
pub fn request_check(body_size_ok: bool, method_ok: bool, content_type_ok: bool) -> (r: Result<(), HttpError>)
    ensures
        !body_size_ok ==> r == Err::<(), HttpError>(HttpError::PayloadTooLarge),
        body_size_ok && !method_ok ==> r == Err::<(), HttpError>(HttpError::MethodNotAllowed),
        body_size_ok && method_ok && !content_type_ok ==> r == Err::<(), HttpError>(
            HttpError::UnsupportedMediaType,
        ),
        body_size_ok && method_ok && content_type_ok ==> r is Ok,
{
    if !body_size_ok {
        return Err(HttpError::PayloadTooLarge);
    }
    if !method_ok {
        return Err(HttpError::MethodNotAllowed);
    }
    if !content_type_ok {
        return Err(HttpError::UnsupportedMediaType);
    }
    Ok(())
}

/// The `Host` value an outgoing request carries: its own when it has one;
/// otherwise the context's configured host when that is non-empty; else
/// none.
pub fn outgoing_host(request_host: Option<&str>, context_host: Option<&str>) -> (r: Option<String>)
    ensures
        match request_host {
            Some(h) => r matches Some(v) && v@ == h@,
            None => match context_host {
                Some(c) => if c@.len() > 0 {
                    r matches Some(v) && v@ == c@
                } else {
                    r is None
                },
                None => r is None,
            },
        },
{
    match request_host {
        Some(h) => Some(h.to_string()),
        None => match context_host {
            Some(c) => {
                if crate::text::chars_of(c).len() > 0 {
                    Some(c.to_string())
                } else {
                    None
                }
            },
            None => None,
        },
    }
}

/// Whether a content type marks a request as gRPC: it is present and
/// starts with `application/grpc`.
pub open spec fn grpc_content(content_type: Option<&str>) -> bool {
    match content_type {
        Some(ct) => ct@.len() >= "application/grpc"@.len() && ct@.take("application/grpc"@.len() as int)
            == "application/grpc"@,
        None => false,
    }
}

/// Whether a gRPC request's content type marks it as gRPC: it starts with
/// `application/grpc`.
pub fn is_grpc_content_type(content_type: Option<&str>) -> (r: bool)
    ensures
        r == grpc_content(content_type),
{
    match content_type {
        Some(ct) => {
            let cs = crate::text::chars_of(ct);
            let p = crate::text::chars_of("application/grpc");
            if cs.len() < p.len() {
                return false;
            }
            let mut k: usize = 0;
            while k < p.len()
                invariant
                    content_type == Some(ct),
                    cs@ == ct@,
                    p@ == "application/grpc"@,
                    p@.len() <= cs@.len(),
                    k <= p@.len(),
                    forall|i: int| 0 <= i < k ==> cs@[i] == p@[i],
                decreases p.len() - k,
            {
                if cs[k] != p[k] {
                    assert(ct@.take(p@.len() as int)[k as int] != p@[k as int]);
                    assert(ct@.take(p@.len() as int) != p@);
                    assert(ct@.take("application/grpc"@.len() as int) != "application/grpc"@);
                    return false;
                }
                k = k + 1;
            }
            assert(cs@.take(p@.len() as int) =~= p@);
            true
        },
        None => false,
    }
}

} // verus!
