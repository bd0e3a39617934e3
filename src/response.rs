use crate::paths::ContentType;
use vstd::prelude::*;
use vstd::string::StringSliceAdditionalSpecFns;

verus! {

/// The statuses that a response can carry.
#[derive(Clone, Copy, Debug, PartialEq, Eq, Structural)]
pub enum Status {
    Success,
    NotFound,
    ServerError,
}

impl Status {
    /// The status line, line break included.
    pub open spec fn line(self) -> Seq<u8> {
        match self {
            Status::Success => "HTTP/1.1 200 OK\r\n".spec_bytes(),
            Status::NotFound => "HTTP/1.1 404 Not Found\r\n".spec_bytes(),
            Status::ServerError => "HTTP/1.1 500 Internal Server Error\r\n".spec_bytes(),
        }
    }

    fn status_line(&self) -> (r: &'static str)
        ensures
            r.spec_bytes() == self.line(),
    {
        match self {
            Status::Success => "HTTP/1.1 200 OK\r\n",
            Status::NotFound => "HTTP/1.1 404 Not Found\r\n",
            Status::ServerError => "HTTP/1.1 500 Internal Server Error\r\n",
        }
    }
}

/// The decimal digits of `n`, most significant first, without leading zeros.
pub open spec fn decimal(n: nat) -> Seq<u8>
    decreases n,
{
    if n < 10 {
        seq![(48 + n) as u8]
    } else {
        decimal(n / 10).push((48 + n % 10) as u8)
    }
}

/// The `Content-Type` header line, when there is one.
pub open spec fn content_type_header(ct: Option<ContentType>) -> Seq<u8> {
    match ct {
        Some(c) => "Content-Type: ".spec_bytes() + c.text() + "\r\n".spec_bytes(),
        None => Seq::empty(),
    }
}

/// A complete response: status line, optional content type, the exact
/// length of the body, a blank line, and the body.
pub open spec fn response_bytes(status: Status, ct: Option<ContentType>, body: Seq<u8>) -> Seq<
    u8,
> {
    status.line() + content_type_header(ct) + "Content-Length: ".spec_bytes() + decimal(
        body.len(),
    ) + "\r\n\r\n".spec_bytes() + body
}

/// The response to a request for something that is absent or not allowed.
pub open spec fn not_found() -> Seq<u8> {
    response_bytes(Status::NotFound, None, "Not Found".spec_bytes())
}

/// The response to a request for a file that exists but cannot be read.
pub open spec fn server_error() -> Seq<u8> {
    response_bytes(Status::ServerError, None, "Internal Server Error".spec_bytes())
}

fn push_all(out: &mut Vec<u8>, b: &[u8])
    ensures
        final(out)@ == old(out)@ + b@,
{
    let ghost start = out@;
    let mut i: usize = 0;
    while i < b.len()
        invariant
            i <= b@.len(),
            out@ == start + b@.take(i as int),
        decreases b@.len() - i,
    {
        out.push(b[i]);
        i = i + 1;
        assert(out@ =~= start + b@.take(i as int));
    }
    assert(b@.take(i as int) =~= b@);
}

fn push_decimal(out: &mut Vec<u8>, n: usize)
    ensures
        final(out)@ == old(out)@ + decimal(n as nat),
    decreases n,
{
    if n < 10 {
        out.push((48 + n) as u8);
        assert(out@ =~= old(out)@ + decimal(n as nat));
    } else {
        push_decimal(out, n / 10);
        out.push((48 + n % 10) as u8);
        assert(out@ =~= old(out)@ + decimal(n as nat));
    }
}

/// Frames `body` as a response with the given status and content type.
pub fn frame(status: Status, ct: Option<ContentType>, body: &[u8]) -> (r: Vec<u8>)
    ensures
        r@ == response_bytes(status, ct, body@),
{
    let mut out: Vec<u8> = Vec::new();
    push_all(&mut out, status.status_line().as_bytes());
    match ct {
        Some(c) => {
            push_all(&mut out, "Content-Type: ".as_bytes());
            push_all(&mut out, c.mime().as_bytes());
            push_all(&mut out, "\r\n".as_bytes());
        },
        None => {},
    }
    push_all(&mut out, "Content-Length: ".as_bytes());
    push_decimal(&mut out, body.len());
    push_all(&mut out, "\r\n\r\n".as_bytes());
    push_all(&mut out, body);
    assert(out@ =~= response_bytes(status, ct, body@));
    out
}

/// The `404 Not Found` response.
pub fn not_found_response() -> (r: Vec<u8>)
    ensures
        r@ == not_found(),
{
    frame(Status::NotFound, None, "Not Found".as_bytes())
}

/// The `500 Internal Server Error` response.
pub fn server_error_response() -> (r: Vec<u8>)
    ensures
        r@ == server_error(),
{
    frame(Status::ServerError, None, "Internal Server Error".as_bytes())
}

} // verus!
