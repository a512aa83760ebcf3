//! gRPC support: length-prefixed message framing, request-path parsing and
//! service-name checks.

use vstd::prelude::*;

use crate::http::{grpc_content, is_grpc_content_type};
use crate::text::push_str;
use crate::url::parser::{trim_leading_slashes, trim_start_slashes};
use crate::url::pattern::str_equal;
use crate::url::split::{split_path, split_slash, strs_view};

verus! {

/// A gRPC status: a numeric code and a message.
#[derive(Debug, Clone, PartialEq, Eq)]
pub struct GrpcStatus {
    pub code: i32,
    pub message: String,
}

/// The gRPC code for an invalid argument.
pub const INVALID_ARGUMENT: i32 = 3;

/// The gRPC code for something not found.
pub const NOT_FOUND: i32 = 5;

/// The pieces of a gRPC request path: leading `/` removed, then split at
/// every `/`.
pub open spec fn grpc_path_parts(path: Seq<char>) -> Seq<Seq<char>> {
    split_slash(trim_leading_slashes(path))
}

/// Splits a gRPC request path `/package.Service/Method` into service and
/// method: the leading `/` characters are dropped and the rest must have
/// exactly two `/`-separated pieces.
pub fn parse_grpc_path(path: &str) -> (r: Result<(String, String), GrpcStatus>)
    ensures
        grpc_path_parts(path@).len() == 2 ==> (r matches Ok((s, m)) && s@ == grpc_path_parts(path@)[0]
            && m@ == grpc_path_parts(path@)[1]),
        grpc_path_parts(path@).len() != 2 ==> (r matches Err(e) && e.code == INVALID_ARGUMENT
            && e.message@ == "Invalid gRPC path format"@),
{
    let trimmed = trim_start_slashes(path);
    let parts = split_path(trimmed.as_str());
    if parts.len() != 2 {
        proof {
            reveal_strlit("Invalid gRPC path format");
        }
        return Err(
            GrpcStatus { code: INVALID_ARGUMENT, message: "Invalid gRPC path format".to_string() },
        );
    }
    assert(strs_view(parts@)[0] == parts@[0]@);
    assert(strs_view(parts@)[1] == parts@[1]@);
    Ok((parts[0].clone(), parts[1].clone()))
}

/// A gRPC service, known by its fully qualified name.
#[derive(Debug, Clone)]
pub struct GrpcService {
    pub name: String,
}

impl GrpcService {
    /// A service named `name`.
    pub fn new(name: &str) -> (r: GrpcService)
        ensures
            r.name@ == name@,
    {
        GrpcService { name: name.to_owned() }
    }

    /// Accepts requests for this service only: any other service is not
    /// found.
    pub fn check_service(&self, service: &str) -> (r: Result<(), GrpcStatus>)
        ensures
            service@ == self.name@ ==> r is Ok,
            service@ != self.name@ ==> (r matches Err(e) && e.code == NOT_FOUND && e.message@ == "Service "@
                + service@ + " not found"@),
    {
        if str_equal(service, self.name.as_str()) {
            Ok(())
        } else {
            let mut m = String::new();
            push_str(&mut m, "Service ");
            push_str(&mut m, service);
            push_str(&mut m, " not found");
            Err(GrpcStatus { code: NOT_FOUND, message: m })
        }
    }
}

/// A gRPC message: an optional protobuf body and an optional status.
#[derive(Debug, Clone)]
pub struct GrpcMessage {
    pub body: Option<Vec<u8>>,
    pub grpc_status: Option<u32>,
    pub grpc_message: Option<String>,
}

/// The four big-endian bytes of `n`.
pub open spec fn be32(n: u32) -> Seq<u8> {
    seq![(n / 0x1000000) as u8, (n / 0x10000 % 0x100) as u8, (n / 0x100 % 0x100) as u8, (n % 0x100) as u8]
}

/// The number that four big-endian bytes encode.
pub open spec fn be32_value(b: Seq<u8>) -> int {
    b[0] * 0x1000000 + b[1] * 0x10000 + b[2] * 0x100 + b[3]
}

/// The frame of a body: a zero compression flag, the body length as four
/// big-endian bytes (modulo 2^32), then the body.
pub open spec fn frame(body: Seq<u8>) -> Seq<u8> {
    seq![0u8] + be32(body.len() as u32) + body
}

/// What decoding `b` yields: `None` while the header or the body is
/// incomplete; otherwise the body and the bytes after the frame.
pub open spec fn decode_spec(b: Seq<u8>) -> Option<(Seq<u8>, Seq<u8>)> {
    if b.len() < 5 {
        None
    } else {
        let n = be32_value(b.subrange(1, 5));
        if b.len() < 5 + n {
            None
        } else {
            Some((b.subrange(5, 5 + n), b.skip(5 + n)))
        }
    }
}

/// The big-endian bytes of a number give it back.
pub proof fn lemma_be32(n: u32)
    ensures
        be32_value(be32(n)) == n,
{
    let b = be32(n);
    assert(b[0] == n / 0x1000000);
    assert(b[1] == n / 0x10000 % 0x100);
    assert(b[2] == n / 0x100 % 0x100);
    assert(b[3] == n % 0x100);
    assert(be32_value(b) == n) by (nonlinear_arith)
        requires
            b[0] == n / 0x1000000,
            b[1] == n / 0x10000 % 0x100,
            b[2] == n / 0x100 % 0x100,
            b[3] == n % 0x100,
            n < 0x100000000,
            be32_value(b) == b[0] * 0x1000000 + b[1] * 0x10000 + b[2] * 0x100 + b[3],
    ;
}

/// Decoding undoes encoding: a frame followed by any bytes decodes to its
/// body, leaving those bytes.
pub proof fn lemma_frame_roundtrip(body: Seq<u8>, rest: Seq<u8>)
    requires
        body.len() <= u32::MAX,
    ensures
        decode_spec(frame(body) + rest) == Some((body, rest)),
{
    let b = frame(body) + rest;
    let n = body.len() as u32;
    lemma_be32(n);
    assert(b.subrange(1, 5) =~= be32(n));
    assert(b.subrange(5, 5 + body.len() as int) =~= body);
    assert(b.skip(5 + body.len() as int) =~= rest);
}

/// The payload a request reads past the five-byte frame header is the
/// message that a response frames.
pub proof fn lemma_payload_of_frame(message: Seq<u8>)
    ensures
        frame(message).len() >= 5,
        frame(message).skip(5) == message,
{
    assert(frame(message).skip(5) =~= message);
}

impl GrpcMessage {
    /// A message carrying `body`.
    pub fn new(body: Vec<u8>) -> (r: GrpcMessage)
        ensures
            r.body == Some(body),
            r.grpc_status is None,
            r.grpc_message is None,
    {
        GrpcMessage { body: Some(body), grpc_status: None, grpc_message: None }
    }

    /// An error message with status `code` and text `message`.
    pub fn error(code: u32, message: &str) -> (r: GrpcMessage)
        ensures
            r.body is None,
            r.grpc_status == Some(code),
            r.grpc_message matches Some(m) && m@ == message@,
    {
        GrpcMessage { body: None, grpc_status: Some(code), grpc_message: Some(message.to_owned()) }
    }

    /// The message with status `code` and text `message`.
    pub fn with_status(self, code: u32, message: &str) -> (r: GrpcMessage)
        ensures
            r.body == self.body,
            r.grpc_status == Some(code),
            r.grpc_message matches Some(m) && m@ == message@,
    {
        GrpcMessage { grpc_status: Some(code), grpc_message: Some(message.to_owned()), ..self }
    }

    /// The body.
    pub fn body(&self) -> (r: Option<&Vec<u8>>)
        ensures
            r is Some <==> self.body is Some,
            r matches Some(b) ==> self.body == Some(*b),
    {
        match &self.body {
            Some(b) => Some(b),
            None => None,
        }
    }

    /// Sets the body.
    pub fn set_body(&mut self, body: Vec<u8>)
        ensures
            final(self).body == Some(body),
            final(self).grpc_status == old(self).grpc_status,
            final(self).grpc_message == old(self).grpc_message,
    {
        self.body = Some(body);
    }

    /// Appends the frame of the body to `buf`; a message without body adds
    /// nothing (the status travels in trailers).
    pub fn encode(&self, buf: &mut Vec<u8>)
        ensures
            self.body matches Some(b) ==> final(buf)@ == old(buf)@ + frame(b@),
            self.body is None ==> final(buf)@ == old(buf)@,
    {
        if let Some(body) = &self.body {
            let n = body.len() as u32;
            buf.push(0u8);
            buf.push((n / 0x1000000) as u8);
            buf.push((n / 0x10000 % 0x100) as u8);
            buf.push((n / 0x100 % 0x100) as u8);
            buf.push((n % 0x100) as u8);
            let ghost start = buf@;
            let mut k: usize = 0;
            while k < body.len()
                invariant
                    k <= body@.len(),
                    buf@ == start + body@.take(k as int),
                decreases body.len() - k,
            {
                buf.push(body[k]);
                assert(body@.take(k + 1) =~= body@.take(k as int).push(body@[k as int]));
                k = k + 1;
            }
            assert(body@.take(k as int) =~= body@);
            assert(start =~= old(buf)@ + seq![0u8] + be32(n));
            assert(buf@ =~= old(buf)@ + frame(body@));
        }
    }

    /// Takes one complete frame from the front of `buf`: `None`, with `buf`
    /// unchanged, while the header or the body is incomplete; otherwise the
    /// message carrying the body, the frame removed from `buf`.
    pub fn decode(buf: &mut Vec<u8>) -> (r: Option<GrpcMessage>)
        ensures
            decode_spec(old(buf)@) is None ==> r is None && final(buf)@ == old(buf)@,
            decode_spec(old(buf)@) matches Some((body, rest)) ==> (r matches Some(m) && (m.body
                matches Some(b) && b@ == body) && m.grpc_status is None && m.grpc_message is None
                && final(buf)@ == rest),
    {
        if buf.len() < 5 {
            return None;
        }
        let length: u32 = (buf[1] as u32) * 0x1000000 + (buf[2] as u32) * 0x10000 + (buf[3] as u32)
            * 0x100 + (buf[4] as u32);
        proof {
            assert(old(buf)@.subrange(1, 5)[0] == buf@[1]);
            assert(old(buf)@.subrange(1, 5)[1] == buf@[2]);
            assert(old(buf)@.subrange(1, 5)[2] == buf@[3]);
            assert(old(buf)@.subrange(1, 5)[3] == buf@[4]);
        }
        let avail = buf.len() - 5;
        if (avail as u64) < (length as u64) {
            return None;
        }
        let len = length as usize;
        assert(buf@.len() == buf.len());
        let mut body: Vec<u8> = Vec::new();
        let mut k: usize = 0;
        while k < len
            invariant
                len <= avail,
                avail + 5 == buf@.len(),
                buf@.len() <= usize::MAX,
                buf@ == old(buf)@,
                k <= len,
                body@ == buf@.subrange(5, 5 + k),
            decreases len - k,
        {
            body.push(buf[5 + k]);
            assert(buf@.subrange(5, 5 + k + 1) =~= buf@.subrange(5, 5 + k).push(buf@[5 + k]));
            k = k + 1;
        }
        let mut rest: Vec<u8> = Vec::new();
        let mut j: usize = 5 + len;
        assert(buf@.subrange(5 + len, 5 + len) =~= Seq::<u8>::empty());
        while j < buf.len()
            invariant
                5 + len <= j <= buf@.len(),
                buf@ == old(buf)@,
                rest@ == buf@.subrange(5 + len, j as int),
            decreases buf.len() - j,
        {
            rest.push(buf[j]);
            assert(buf@.subrange(5 + len, j + 1) =~= buf@.subrange(5 + len, j as int).push(buf@[j as int]));
            j = j + 1;
        }
        assert(buf@.subrange(5 + len, buf@.len() as int) =~= buf@.skip(5 + len));
        *buf = rest;
        Some(GrpcMessage::new(body))
    }
}

/// A gRPC request as the server sees it: service and method taken from the
/// request path, and the framed body.
#[derive(Debug, Clone)]
pub struct GrpcRequest {
    pub service: String,
    pub method: String,
    pub body: Option<Vec<u8>>,
}

impl GrpcRequest {
    /// Reads a gRPC request from the parts of an HTTP/2 request: its path,
    /// its `content-type` value and its body. The path must split into
    /// service and method; then the content type must start with
    /// `application/grpc`.
    pub fn from_parts(path: &str, content_type: Option<&str>, body: Option<Vec<u8>>) -> (r: Result<
        GrpcRequest,
        GrpcStatus,
    >)
        ensures
            grpc_path_parts(path@).len() != 2 ==> (r matches Err(e) && e.code == INVALID_ARGUMENT
                && e.message@ == "Invalid gRPC path format"@),
            grpc_path_parts(path@).len() == 2 && !grpc_content(content_type) ==> (r matches Err(e)
                && e.code == INVALID_ARGUMENT && e.message@ == "Not a gRPC request"@),
            grpc_path_parts(path@).len() == 2 && grpc_content(content_type) ==> (r matches Ok(req)
                && req.service@ == grpc_path_parts(path@)[0] && req.method@ == grpc_path_parts(
                path@,
            )[1] && req.body == body),
    {
        let (service, method) = match parse_grpc_path(path) {
            Ok(p) => p,
            Err(e) => {
                return Err(e);
            },
        };
        if !is_grpc_content_type(content_type) {
            proof {
                reveal_strlit("Not a gRPC request");
            }
            return Err(
                GrpcStatus { code: INVALID_ARGUMENT, message: "Not a gRPC request".to_string() },
            );
        }
        Ok(GrpcRequest { service, method, body })
    }

    /// The protobuf bytes of the body: what follows the five-byte frame
    /// header (compression flag and length).
    pub fn payload(&self) -> (r: Result<Vec<u8>, GrpcStatus>)
        ensures
            match self.body {
                None => r matches Err(e) && e.code == INVALID_ARGUMENT && e.message@
                    == "No request body"@,
                Some(b) => if b@.len() < 5 {
                    r matches Err(e) && e.code == INVALID_ARGUMENT && e.message@
                        == "Invalid gRPC frame"@
                } else {
                    r matches Ok(p) && p@ == b@.skip(5)
                },
            },
    {
        let b = match &self.body {
            Some(b) => b,
            None => {
                proof {
                    reveal_strlit("No request body");
                }
                return Err(
                    GrpcStatus { code: INVALID_ARGUMENT, message: "No request body".to_string() },
                );
            },
        };
        if b.len() < 5 {
            proof {
                reveal_strlit("Invalid gRPC frame");
            }
            return Err(
                GrpcStatus { code: INVALID_ARGUMENT, message: "Invalid gRPC frame".to_string() },
            );
        }
        let mut out: Vec<u8> = Vec::new();
        let mut k: usize = 5;
        while k < b.len()
            invariant
                5 <= k <= b@.len(),
                out@ == b@.subrange(5, k as int),
            decreases b.len() - k,
        {
            out.push(b[k]);
            assert(b@.subrange(5, k + 1) =~= b@.subrange(5, k as int).push(b@[k as int]));
            k = k + 1;
        }
        assert(b@.subrange(5, b@.len() as int) =~= b@.skip(5));
        Ok(out)
    }
}

impl GrpcService {
    /// Reads a request addressed to this service from the parts of an
    /// HTTP/2 request, as [`GrpcRequest::from_parts`] does; a request for
    /// another service is not found.
    pub fn handle_request(&self, path: &str, content_type: Option<&str>, body: Option<Vec<u8>>) -> (r:
        Result<GrpcRequest, GrpcStatus>)
        ensures
            grpc_path_parts(path@).len() != 2 ==> (r matches Err(e) && e.code == INVALID_ARGUMENT
                && e.message@ == "Invalid gRPC path format"@),
            grpc_path_parts(path@).len() == 2 && !grpc_content(content_type) ==> (r matches Err(e)
                && e.code == INVALID_ARGUMENT && e.message@ == "Not a gRPC request"@),
            grpc_path_parts(path@).len() == 2 && grpc_content(content_type) && grpc_path_parts(
                path@,
            )[0] != self.name@ ==> (r matches Err(e) && e.code == NOT_FOUND && e.message@
                == "Service "@ + grpc_path_parts(path@)[0] + " not found"@),
            grpc_path_parts(path@).len() == 2 && grpc_content(content_type) && grpc_path_parts(
                path@,
            )[0] == self.name@ ==> (r matches Ok(req) && req.service@ == self.name@ && req.method@
                == grpc_path_parts(path@)[1] && req.body == body),
    {
        let req = match GrpcRequest::from_parts(path, content_type, body) {
            Ok(req) => req,
            Err(e) => {
                return Err(e);
            },
        };
        match self.check_service(req.service.as_str()) {
            Ok(()) => Ok(req),
            Err(e) => Err(e),
        }
    }
}

/// Whether an HTTP/2 header is passed on as gRPC metadata: pseudo-headers
/// (starting with `:`), `content-type` and `user-agent` are not.
pub fn is_metadata_header(name: &str) -> (r: bool)
    ensures
        r == !((name@.len() > 0 && name@[0] == ':') || name@ == "content-type"@ || name@
            == "user-agent"@),
{
    let cs = crate::text::chars_of(name);
    if cs.len() > 0 && cs[0] == ':' {
        return false;
    }
    !(str_equal(name, "content-type") || str_equal(name, "user-agent"))
}

/// A gRPC response: its status and its framed body.
#[derive(Debug, Clone)]
pub struct GrpcResponse {
    pub status: GrpcStatus,
    pub body: Option<Vec<u8>>,
}

impl GrpcResponse {
    /// Sets the body to the frame of an encoded protobuf message.
    pub fn set_message(&mut self, message: Vec<u8>)
        ensures
            final(self).body matches Some(b) && b@ == frame(message@),
            final(self).status == old(self).status,
    {
        let mut buf: Vec<u8> = Vec::new();
        GrpcMessage::new(message).encode(&mut buf);
        self.body = Some(buf);
    }

    /// Sets the status.
    pub fn set_status(&mut self, status: GrpcStatus)
        ensures
            final(self).status == status,
            final(self).body == old(self).body,
    {
        self.status = status;
    }
}

} // verus!
