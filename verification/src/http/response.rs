//! Responses and the text that goes on the wire for them.
use vstd::prelude::*;
use vstd::string::*;
use vstd::utf8::*;

use super::status_code::StatusCode;
use crate::text::{decimal, push_decimal, push_str};

verus! {

/// A response, as plain values.
pub struct ResponseView {
    pub status: StatusCode,
    pub body: Option<Seq<char>>,
}

pub struct Response {
    status_code: StatusCode,
    body: Option<String>,
}

impl View for Response {
    type V = ResponseView;

    closed spec fn view(&self) -> ResponseView {
        ResponseView {
            status: self.status_code,
            body: match self.body {
                Some(b) => Some(b@),
                None => None,
            },
        }
    }
}

/// The body text, empty where there is none.
pub open spec fn body_text(r: ResponseView) -> Seq<char> {
    match r.body {
        Some(b) => b,
        None => Seq::empty(),
    }
}

/// What `str::len` returns for a string with these characters: the length
/// of its UTF-8 encoding.
pub open spec fn byte_len(s: Seq<char>) -> usize {
    encode_utf8(s).len() as usize
}

/// The status line and the `Content-Length` line of a response.
pub open spec fn response_head(r: ResponseView) -> Seq<char> {
    "HTTP/1.1 "@ + decimal(r.status.code() as nat) + " "@ + r.status.reason()
        + "\r\nContent-Length: "@ + decimal(byte_len(body_text(r)) as nat) + "\r\n"@
}

/// The text of a response on the wire: status line, `Content-Length` (in
/// bytes), `Content-Type` where the body is not empty, a blank line, and the
/// body.
pub open spec fn response_text(r: ResponseView) -> Seq<char> {
    let body = body_text(r);
    response_head(r) + (if body.len() == 0 {
        Seq::empty()
    } else {
        "Content-Type: text/plain\r\n"@
    }) + "\r\n"@ + body
}

impl Response {
    pub fn new(status_code: StatusCode, body: Option<String>) -> (r: Response)
        ensures
            r@ == (ResponseView {
                status: status_code,
                body: match body {
                    Some(b) => Some(b@),
                    None => None,
                },
            }),
    {
        Response { status_code, body }
    }

    /// A response whose body is a JSON document.
    pub fn json(status_code: StatusCode, body: String) -> (r: Response)
        ensures
            r@ == (ResponseView { status: status_code, body: Some(body@) }),
    {
        Response { status_code, body: Some(body) }
    }

    /// Appends the text of the response, as it goes on the wire, to `out`.
    pub fn send(&self, out: &mut String)
        ensures
            final(out)@ == old(out)@ + response_text(self@),
    {
        let body: &str = match &self.body {
            Some(b) => b.as_str(),
            None => "",
        };
        proof {
            reveal_strlit("");
        }
        assert(body@ == body_text(self@));
        let blen = body.len();
        let ghost o0 = out@;
        push_str(out, "HTTP/1.1 ");
        push_decimal(out, self.status_code.as_u16() as usize);
        push_str(out, " ");
        push_str(out, self.status_code.reason_phrase());
        push_str(out, "\r\nContent-Length: ");
        push_decimal(out, blen);
        push_str(out, "\r\n");
        assert(out@ =~= o0 + response_head(self@));
        let ghost o1 = out@;
        if !body.is_empty() {
            push_str(out, "Content-Type: text/plain\r\n");
        }
        let ghost o2 = out@;
        push_str(out, "\r\n");
        push_str(out, body);
        assert(out@ =~= o2 + "\r\n"@ + body@);
        assert(o2 =~= o1 + (if body@.len() == 0 {
            Seq::<char>::empty()
        } else {
            "Content-Type: text/plain\r\n"@
        }));
        assert(out@ =~= old(out)@ + response_text(self@));
    }
}

} // verus!
