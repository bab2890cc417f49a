//! The server side of a connection: the `Handler` that answers requests and
//! the decisions taken after each read from a client.
use vstd::prelude::*;
use vstd::string::*;

use crate::http::request::{parse_request, parse_request_panics, RequestView};
use crate::http::response::ResponseView;
use crate::http::{ParseError, Request, Response, StatusCode, MAX_BODY_SIZE, MAX_HEADERS_SIZE};

verus! {

/// Answers the requests of one server.
pub trait Handler: Sized {
    fn handle_request(&mut self, request: &Request) -> Response;

    /// The answer to a request that could not be parsed; the handler itself
    /// stays as it was.
    fn handle_bad_request(&mut self, e: &ParseError) -> (r: Response)
        default_ensures
            r@ == (ResponseView { status: StatusCode::BadRequest, body: Some("Bad Request"@) }),
            *final(self) == *old(self),
    {
        Response::new(StatusCode::BadRequest, Some(String::from_str("Bad Request")))
    }
}

/// A server that listens on one address.
pub struct Server {
    addr: String,
}

impl View for Server {
    type V = Seq<char>;

    /// The address, as characters.
    closed spec fn view(&self) -> Seq<char> {
        self.addr@
    }
}

impl Server {
    pub fn new(addr: String) -> (r: Server)
        ensures
            r@ == addr@,
    {
        Server { addr }
    }

    /// The address that the server listens on.
    pub fn addr(&self) -> (r: &str)
        ensures
            r@ == self@,
    {
        self.addr.as_str()
    }
}

/// The most bytes that one connection may send.
pub const MAX_MESSAGE_SIZE: usize = MAX_HEADERS_SIZE + MAX_BODY_SIZE;

/// What to do after a read of `bytes_read` bytes, with `buffered` bytes
/// received before it.
#[derive(Debug, PartialEq, Eq, Clone, Copy, Structural)]
pub enum ReadStep {
    /// The client closed the connection before sending anything.
    Close,
    /// The client closed the connection: parse what was received, once.
    ParseLast,
    /// The message would grow past `MAX_MESSAGE_SIZE`: answer this error.
    Reject(ParseError),
    /// Append the bytes just read and parse again.
    Append,
}

/// The step after a read.
pub open spec fn read_step(buffered: nat, bytes_read: nat) -> ReadStep {
    if bytes_read == 0 {
        if buffered == 0 {
            ReadStep::Close
        } else {
            ReadStep::ParseLast
        }
    } else if buffered + bytes_read > MAX_MESSAGE_SIZE {
        ReadStep::Reject(ParseError::InvalidRequest)
    } else {
        ReadStep::Append
    }
}

/// A connection's buffer never grows past `MAX_MESSAGE_SIZE`: bytes are only
/// appended where the sum stays within it.
pub proof fn lemma_buffer_stays_bounded(buffered: nat, bytes_read: nat)
    requires
        buffered <= MAX_MESSAGE_SIZE,
        read_step(buffered, bytes_read) == ReadStep::Append,
    ensures
        buffered + bytes_read <= MAX_MESSAGE_SIZE,
        bytes_read > 0,
{
}

pub fn after_read(buffered: usize, bytes_read: usize) -> (r: ReadStep)
    ensures
        r == read_step(buffered as nat, bytes_read as nat),
{
    if bytes_read == 0 {
        if buffered == 0 {
            ReadStep::Close
        } else {
            ReadStep::ParseLast
        }
    } else if buffered > MAX_MESSAGE_SIZE || bytes_read > MAX_MESSAGE_SIZE - buffered {
        ReadStep::Reject(ParseError::InvalidRequest)
    } else {
        ReadStep::Append
    }
}

/// What to do with the bytes received so far.
pub enum Reply<'a> {
    /// Answer this request.
    Handle(Request<'a>),
    /// Answer this parse error.
    Reject(ParseError),
    /// Wait for more bytes.
    Wait,
}

/// Parses the bytes received so far. A request that is not complete yet is
/// waited for, unless the client has closed the connection (`last`).
pub fn reply_to<'a>(buffer: &'a [u8], last: bool) -> (r: Reply<'a>)
    requires
        !parse_request_panics(buffer@),
    ensures
        match r {
            Reply::Handle(req) => parse_request(buffer@) == Ok::<RequestView, ParseError>(req@),
            Reply::Reject(e) => parse_request(buffer@) == Err::<RequestView, ParseError>(e) && (
            last || e != ParseError::Incomplete),
            Reply::Wait => !last && parse_request(buffer@) == Err::<RequestView, ParseError>(
                ParseError::Incomplete,
            ),
        },
{
    match Request::try_from(buffer) {
        Ok(request) => Reply::Handle(request),
        Err(ParseError::Incomplete) => if last {
            Reply::Reject(ParseError::Incomplete)
        } else {
            Reply::Wait
        },
        Err(e) => Reply::Reject(e),
    }
}

} // verus!
