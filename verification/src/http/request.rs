//! Parsing a request from the bytes that a client sent.
use vstd::prelude::*;
use vstd::slice::slice_subrange;
use vstd::string::*;
use vstd::utf8::*;

use super::headers::{content_length_of, parse_headers, HeaderView, Headers};
use super::method::{method_named, Method, MethodError};
use vstd::std_specs::convert::FromSpecImpl;
use super::query_string::{parse_query, QueryString};
use crate::text::{
    chars_of, find_char, find_char_from, lemma_find_char_from_bounds, split_once_crlf, str_eq,
    str_split_once_crlf, utf8_decode,
};

verus! {

/// The longest head (request line and headers) that is waited for.
pub const MAX_HEADERS_SIZE: usize = 8 * 1024;

/// The longest body that is accepted.
pub const MAX_BODY_SIZE: usize = 1024 * 1024;

#[derive(Debug, PartialEq, Eq, Clone, Copy, Structural)]
pub enum ParseError {
    InvalidRequest,
    InvalidEncoding,
    InvalidProtocol,
    InvalidMethod,
    Incomplete,
    InvalidHeader,
    BodyTooLarge,
}

impl ParseError {
    /// The text that describes the error.
    pub open spec fn text(self) -> Seq<char> {
        match self {
            ParseError::InvalidRequest => "Invalid Request"@,
            ParseError::InvalidEncoding => "Invalid Encoding"@,
            ParseError::InvalidProtocol => "Invalid Protocol"@,
            ParseError::InvalidMethod => "Invalid Method"@,
            ParseError::Incomplete => "Incomplete"@,
            ParseError::InvalidHeader => "Invalid Header"@,
            ParseError::BodyTooLarge => "Body Too Large"@,
        }
    }

    pub fn message(&self) -> (r: &'static str)
        ensures
            r@ == self.text(),
    {
        match self {
            ParseError::InvalidRequest => "Invalid Request",
            ParseError::InvalidEncoding => "Invalid Encoding",
            ParseError::InvalidProtocol => "Invalid Protocol",
            ParseError::InvalidMethod => "Invalid Method",
            ParseError::Incomplete => "Incomplete",
            ParseError::InvalidHeader => "Invalid Header",
            ParseError::BodyTooLarge => "Body Too Large",
        }
    }
}

impl From<std::str::Utf8Error> for ParseError {
    fn from(_e: std::str::Utf8Error) -> (r: Self) {
        ParseError::InvalidEncoding
    }
}

impl FromSpecImpl<std::str::Utf8Error> for ParseError {
    open spec fn obeys_from_spec() -> bool {
        true
    }

    open spec fn from_spec(v: std::str::Utf8Error) -> ParseError {
        ParseError::InvalidEncoding
    }
}

impl From<MethodError> for ParseError {
    fn from(_e: MethodError) -> (r: Self) {
        ParseError::InvalidMethod
    }
}

impl FromSpecImpl<MethodError> for ParseError {
    open spec fn obeys_from_spec() -> bool {
        true
    }

    open spec fn from_spec(v: MethodError) -> ParseError {
        ParseError::InvalidMethod
    }
}

/// A parsed request, as plain values.
pub struct RequestView {
    pub path: Seq<char>,
    pub query: Option<Map<Seq<char>, Seq<char>>>,
    pub method: Method,
    pub headers: Seq<HeaderView>,
    pub body: Option<Seq<u8>>,
}

/// A request whose parts borrow the buffer it was parsed from.
#[derive(Debug)]
pub struct Request<'buf> {
    path: &'buf str,
    query_string: Option<QueryString<'buf>>,
    method: Method,
    headers: Headers<'buf>,
    body: Option<&'buf [u8]>,
}

impl<'buf> View for Request<'buf> {
    type V = RequestView;

    closed spec fn view(&self) -> RequestView {
        RequestView {
            path: self.path@,
            query: match self.query_string {
                Some(q) => Some(q@),
                None => None,
            },
            method: self.method,
            headers: self.headers@,
            body: match self.body {
                Some(b) => Some(b@),
                None => None,
            },
        }
    }
}

/// The first position at or after `i` where `"\r\n\r\n"` starts in `buf`,
/// plus four: the end of the head.
pub open spec fn header_end_from(buf: Seq<u8>, i: int) -> Option<int>
    decreases buf.len() - i,
{
    if i < 0 || i + 4 > buf.len() {
        None
    } else if buf[i] == 13 && buf[i + 1] == 10 && buf[i + 2] == 13 && buf[i + 3] == 10 {
        Some(i + 4)
    } else {
        header_end_from(buf, i + 1)
    }
}

/// The end of the head: just after the first blank line.
pub open spec fn head_end(buf: Seq<u8>) -> Option<int> {
    header_end_from(buf, 0)
}

proof fn lemma_header_end_from_bounds(buf: Seq<u8>, i: int)
    ensures
        header_end_from(buf, i) matches Some(e) ==> 0 <= i && i + 4 <= e <= buf.len(),
    decreases buf.len() - i,
{
    if 0 <= i && i + 4 <= buf.len() && !(buf[i] == 13 && buf[i + 1] == 10 && buf[i + 2] == 13
        && buf[i + 3] == 10) {
        lemma_header_end_from_bounds(buf, i + 1);
    }
}

fn find_header_end(buf: &[u8]) -> (r: Option<usize>)
    ensures
        r is None <==> head_end(buf@) is None,
        r matches Some(e) ==> head_end(buf@) == Some(e as int),
{
    let mut i: usize = 0;
    while buf.len() >= 4 && i <= buf.len() - 4
        invariant
            head_end(buf@) == header_end_from(buf@, i as int),
        decreases buf@.len() - i,
    {
        if buf[i] == 13 && buf[i + 1] == 10 && buf[i + 2] == 13 && buf[i + 3] == 10 {
            return Some(i + 4);
        }
        i = i + 1;
    }
    None
}

/// The first position at or after `i` of a space or a carriage return.
pub open spec fn word_end_from(s: Seq<char>, i: int) -> Option<int>
    decreases s.len() - i,
{
    if i < 0 || i >= s.len() {
        None
    } else if s[i] == ' ' || s[i] == '\r' {
        Some(i)
    } else {
        word_end_from(s, i + 1)
    }
}

proof fn lemma_word_end_from_bounds(s: Seq<char>, i: int)
    ensures
        word_end_from(s, i) matches Some(k) ==> 0 <= i <= k < s.len(),
    decreases s.len() - i,
{
    if 0 <= i < s.len() && !(s[i] == ' ' || s[i] == '\r') {
        lemma_word_end_from_bounds(s, i + 1);
    }
}

/// The first word of `s` and the text after the space or carriage return that
/// ends it; the whole of `s` where no such character comes, `None` where `s`
/// is empty. The separator is found by its position among the characters, and
/// the text is then cut at that many bytes (and one more for the rest), so
/// where non-ASCII text comes before the separator the cut falls elsewhere.
pub open spec fn next_word(s: Seq<char>) -> Option<(Seq<char>, Seq<char>)> {
    match word_end_from(s, 0) {
        Some(i) => {
            let bytes = encode_utf8(s);
            Some((decode_utf8(bytes.take(i)), decode_utf8(bytes.skip(i + 1))))
        },
        None => if s.len() == 0 {
            None
        } else {
            Some((s, Seq::empty()))
        },
    }
}

/// The cut of `next_word` falls inside a character: cutting a `str` there
/// panics.
pub open spec fn next_word_panics(s: Seq<char>) -> bool {
    match word_end_from(s, 0) {
        Some(i) => !is_char_boundary(encode_utf8(s), i) || !is_char_boundary(encode_utf8(s), i + 1),
        None => false,
    }
}

/// Whether `request` can be cut where `get_next_word` cuts it.
fn next_word_cuts(request: &str) -> (r: bool)
    ensures
        r == !next_word_panics(request@),
{
    let v = chars_of(request);
    let mut i: usize = 0;
    while i < v.len()
        invariant
            v@ == request@,
            i <= v@.len(),
            word_end_from(v@, 0) == word_end_from(v@, i as int),
        decreases v@.len() - i,
    {
        let c = v[i];
        if c == ' ' || c == '\r' {
            return request.is_char_boundary(i) && request.is_char_boundary(i + 1);
        }
        i = i + 1;
    }
    true
}

fn get_next_word<'a>(request: &'a str) -> (r: Option<(&'a str, &'a str)>)
    requires
        !next_word_panics(request@),
    ensures
        match r {
            Some((a, b)) => next_word(request@) == Some((a@, b@)),
            None => next_word(request@) is None,
        },
{
    broadcast use encode_utf8_decode_utf8;

    let v = chars_of(request);
    let mut i: usize = 0;
    while i < v.len()
        invariant
            v@ == request@,
            i <= v@.len(),
            word_end_from(v@, 0) == word_end_from(v@, i as int),
            !next_word_panics(request@),
        decreases v@.len() - i,
    {
        let c = v[i];
        if c == ' ' || c == '\r' {
            let ghost bytes = encode_utf8(request@);
            let (a, _) = request.split_at(i);
            let (_, b) = request.split_at(i + 1);
            assert(a.spec_bytes() =~= bytes.take(i as int));
            assert(b.spec_bytes() =~= bytes.skip(i + 1));
            proof {
                encode_utf8_decode_utf8(a@);
                encode_utf8_decode_utf8(b@);
            }
            return Some((a, b));
        }
        i = i + 1;
    }
    if v.len() == 0 {
        None
    } else {
        let e = request.substring_char(0, 0);
        assert(e@ =~= Seq::<char>::empty());
        Some((request, e))
    }
}

/// Cutting the words of the request line panics: the first cut, or the
/// second after a first word, or the third after a second.
pub open spec fn request_line_panics(line: Seq<char>) -> bool {
    ||| next_word_panics(line)
    ||| match next_word(line) {
        Some((_m, rest1)) => {
            ||| next_word_panics(rest1)
            ||| match next_word(rest1) {
                Some((_t, rest2)) => next_word_panics(rest2),
                None => false,
            }
        },
        None => false,
    }
}

fn request_line_cuts(line: &str) -> (r: bool)
    ensures
        r == !request_line_panics(line@),
{
    if !next_word_cuts(line) {
        return false;
    }
    match get_next_word(line) {
        None => true,
        Some((_, rest1)) => {
            if !next_word_cuts(rest1) {
                return false;
            }
            match get_next_word(rest1) {
                None => true,
                Some((_, rest2)) => next_word_cuts(rest2),
            }
        },
    }
}

/// The request line `METHOD TARGET HTTP/1.1`: its method and its target.
pub open spec fn parse_request_line(line: Seq<char>) -> Result<(Method, Seq<char>), ParseError> {
    match next_word(line) {
        None => Err(ParseError::InvalidMethod),
        Some((m, rest1)) => match next_word(rest1) {
            None => Err(ParseError::InvalidRequest),
            Some((target, rest2)) => match next_word(rest2) {
                None => Err(ParseError::InvalidRequest),
                Some((protocol, rest3)) => if rest3.len() != 0 {
                    Err(ParseError::InvalidRequest)
                } else if protocol != "HTTP/1.1"@ {
                    Err(ParseError::InvalidProtocol)
                } else {
                    match method_named(m) {
                        None => Err(ParseError::InvalidMethod),
                        Some(method) => Ok((method, target)),
                    }
                },
            },
        },
    }
}

/// The path of a request target: the text before the first `?`.
pub open spec fn target_path(target: Seq<char>) -> Seq<char> {
    match find_char_from(target, '?', 0) {
        Some(q) => target.take(q),
        None => target,
    }
}

/// The query of a request target: the text after the first `?`, parsed.
pub open spec fn target_query(target: Seq<char>) -> Option<Map<Seq<char>, Seq<char>>> {
    match find_char_from(target, '?', 0) {
        Some(q) => Some(parse_query(target.skip(q + 1))),
        None => None,
    }
}

/// What `Request::try_from` makes of the bytes a client sent.
pub open spec fn parse_request(buf: Seq<u8>) -> Result<RequestView, ParseError> {
    match head_end(buf) {
        None => if buf.len() >= MAX_HEADERS_SIZE {
            Err(ParseError::InvalidHeader)
        } else {
            Err(ParseError::Incomplete)
        },
        Some(he) => {
            let head = buf.take(he);
            if !valid_utf8(head) {
                Err(ParseError::InvalidEncoding)
            } else {
                match split_once_crlf(decode_utf8(head)) {
                    None => Err(ParseError::InvalidRequest),
                    Some((line, section)) => match parse_request_line(line) {
                        Err(e) => Err(e),
                        Ok((method, target)) => match parse_headers(section) {
                            Err(e) => Err(e),
                            Ok(headers) => match content_length_of(headers) {
                                Err(e) => Err(e),
                                Ok(cl) => {
                                    let n: int = match cl {
                                        Some(n) => n as int,
                                        None => 0,
                                    };
                                    if n > MAX_BODY_SIZE {
                                        Err(ParseError::BodyTooLarge)
                                    } else if buf.len() < he + n {
                                        Err(ParseError::Incomplete)
                                    } else {
                                        Ok(
                                            RequestView {
                                                path: target_path(target),
                                                query: target_query(target),
                                                method,
                                                headers,
                                                body: if n == 0 {
                                                    None
                                                } else {
                                                    Some(buf.subrange(he, he + n))
                                                },
                                            },
                                        )
                                    }
                                },
                            },
                        },
                    },
                }
            }
        },
    }
}

proof fn lemma_header_end_from_extends(buf: Seq<u8>, extra: Seq<u8>, i: int)
    requires
        header_end_from(buf, i) is Some,
    ensures
        header_end_from(buf + extra, i) == header_end_from(buf, i),
    decreases buf.len() - i,
{
    let whole = buf + extra;
    if 0 <= i && i + 4 <= buf.len() {
        assert(whole[i] == buf[i] && whole[i + 1] == buf[i + 1] && whole[i + 2] == buf[i + 2]
            && whole[i + 3] == buf[i + 3]);
        if !(buf[i] == 13 && buf[i + 1] == 10 && buf[i + 2] == 13 && buf[i + 3] == 10) {
            lemma_header_end_from_extends(buf, extra, i + 1);
        }
    }
}

/// Once the head has arrived, the answer of the parser is final unless it is
/// `Incomplete`: bytes that come after it change nothing. This is why a
/// server may parse again after every read and stop at the first answer
/// other than `Incomplete`.
pub proof fn lemma_parse_request_is_final(buf: Seq<u8>, extra: Seq<u8>)
    requires
        head_end(buf) is Some,
        parse_request(buf) != Err::<RequestView, ParseError>(ParseError::Incomplete),
    ensures
        parse_request(buf + extra) == parse_request(buf),
{
    let whole = buf + extra;
    lemma_header_end_from_extends(buf, extra, 0);
    lemma_header_end_from_bounds(buf, 0);
    let he = head_end(buf).unwrap();
    assert(whole.take(he) =~= buf.take(he));
    if parse_request(buf) is Ok {
        let n: int = match content_length_of(parse_request(buf).unwrap().headers) {
            Ok(Some(n)) => n as int,
            _ => 0,
        };
        assert(whole.subrange(he, he + n) =~= buf.subrange(he, he + n));
    }
}

/// A parsed request never carries an empty body, nor one longer than
/// `MAX_BODY_SIZE`.
pub proof fn lemma_parsed_body_size(buf: Seq<u8>)
    ensures
        parse_request(buf) matches Ok(r) ==> (r.body matches Some(b) ==> 0 < b.len()
            <= MAX_BODY_SIZE),
{
    lemma_header_end_from_bounds(buf, 0);
}

/// `Request::try_from` panics on `buf`: its head is complete and UTF-8, and
/// cutting the words of its request line falls inside a character.
pub open spec fn parse_request_panics(buf: Seq<u8>) -> bool {
    match head_end(buf) {
        None => false,
        Some(he) => {
            let head = buf.take(he);
            valid_utf8(head) && match split_once_crlf(decode_utf8(head)) {
                Some((line, _section)) => request_line_panics(line),
                None => false,
            }
        },
    }
}

/// Whether the request line of `buf` can be cut into its words, that is,
/// whether `Request::try_from` may be called on `buf` at all.
pub fn words_cut_on_char_boundaries(buf: &[u8]) -> (r: bool)
    ensures
        r == !parse_request_panics(buf@),
{
    broadcast use encode_utf8_decode_utf8;

    let header_end = match find_header_end(buf) {
        Some(end) => end,
        None => {
            return true;
        },
    };
    proof {
        lemma_header_end_from_bounds(buf@, 0);
    }
    let head = slice_subrange(buf, 0, header_end);
    assert(head@ =~= buf@.take(header_end as int));
    let header_text = match utf8_decode(head) {
        Ok(t) => t,
        Err(_) => {
            return true;
        },
    };
    assert(decode_utf8(encode_utf8(header_text@)) == header_text@);
    match str_split_once_crlf(header_text) {
        Some((line, _)) => request_line_cuts(line),
        None => true,
    }
}

impl<'buf> Request<'buf> {
    pub fn path(&self) -> (r: &str)
        ensures
            r@ == self@.path,
    {
        self.path
    }

    pub fn method(&self) -> (r: Method)
        ensures
            r == self@.method,
    {
        self.method
    }

    pub fn query_string(&self) -> (r: Option<&QueryString<'buf>>)
        ensures
            match r {
                Some(q) => self@.query == Some(q@),
                None => self@.query is None,
            },
    {
        match &self.query_string {
            Some(q) => Some(q),
            None => None,
        }
    }

    pub fn headers(&self) -> (r: &Headers<'buf>)
        ensures
            r@ == self@.headers,
    {
        &self.headers
    }

    pub fn body(&self) -> (r: Option<&'buf [u8]>)
        ensures
            match r {
                Some(b) => self@.body == Some(b@),
                None => self@.body is None,
            },
    {
        self.body
    }

    /// The body as text: `None` without a body, an error where the body is
    /// not UTF-8.
    pub fn body_text(&self) -> (r: Option<Result<&'buf str, std::str::Utf8Error>>)
        ensures
            match r {
                None => self@.body is None,
                Some(Ok(s)) => self@.body matches Some(b) && valid_utf8(b) && s@ == decode_utf8(b),
                Some(Err(_)) => self@.body matches Some(b) && !valid_utf8(b),
            },
    {
        broadcast use encode_utf8_decode_utf8;

        match self.body {
            None => None,
            Some(b) => {
                let t = utf8_decode(b);
                proof {
                    if let Ok(s) = t {
                        assert(decode_utf8(encode_utf8(s@)) == s@);
                    }
                }
                Some(t)
            },
        }
    }

    /// Parses a request from the bytes received so far. Its words are cut out
    /// of the request line at byte positions, which must fall between
    /// characters: `words_cut_on_char_boundaries` tells.
    #[verifier::spinoff_prover]
    pub fn try_from(buf: &'buf [u8]) -> (r: Result<Request<'buf>, ParseError>)
        requires
            !parse_request_panics(buf@),
        ensures
            match r {
                Ok(req) => parse_request(buf@) == Ok::<RequestView, ParseError>(req@),
                Err(e) => parse_request(buf@) == Err::<RequestView, ParseError>(e),
            },
    {
        broadcast use encode_utf8_decode_utf8;

        let header_end = match find_header_end(buf) {
            Some(end) => end,
            None => {
                if buf.len() >= MAX_HEADERS_SIZE {
                    return Err(ParseError::InvalidHeader);
                } else {
                    return Err(ParseError::Incomplete);
                }
            },
        };
        proof {
            lemma_header_end_from_bounds(buf@, 0);
        }
        assert(head_end(buf@) == Some(header_end as int));
        let head = slice_subrange(buf, 0, header_end);
        assert(head@ =~= buf@.take(header_end as int));
        let header_text = match utf8_decode(head) {
            Ok(t) => t,
            Err(e) => {
                return Err(ParseError::from(e));
            },
        };
        assert(decode_utf8(encode_utf8(header_text@)) == header_text@);
        assert(header_text@ == decode_utf8(buf@.take(header_end as int)));

        let (request_line, headers_section) = match str_split_once_crlf(header_text) {
            Some(parts) => parts,
            None => {
                return Err(ParseError::InvalidRequest);
            },
        };
        let (method, rest) = match get_next_word(request_line) {
            Some(w) => w,
            None => {
                return Err(ParseError::InvalidMethod);
            },
        };
        let (target, rest) = match get_next_word(rest) {
            Some(w) => w,
            None => {
                return Err(ParseError::InvalidRequest);
            },
        };
        let (protocol, rest) = match get_next_word(rest) {
            Some(w) => w,
            None => {
                return Err(ParseError::InvalidRequest);
            },
        };
        if !rest.is_empty() {
            return Err(ParseError::InvalidRequest);
        }
        if !str_eq(protocol, "HTTP/1.1") {
            return Err(ParseError::InvalidProtocol);
        }
        let method = match Method::from_name(method) {
            Ok(m) => m,
            Err(e) => {
                return Err(ParseError::from(e));
            },
        };

        let target_chars = chars_of(target);
        let target_len = target_chars.len();
        let (path, query_string) = match find_char(&target_chars, '?', 0) {
            Some(q) => {
                proof {
                    lemma_find_char_from_bounds(target@, '?', 0);
                }
                assert(q < target_len);
                let query = target.substring_char(q + 1, target_len);
                let path = target.substring_char(0, q);
                assert(query@ =~= target@.skip(q + 1));
                assert(path@ =~= target@.take(q as int));
                (path, Some(QueryString::from(query)))
            },
            None => (target, None),
        };

        let headers = match Headers::try_from(headers_section) {
            Ok(h) => h,
            Err(e) => {
                return Err(e);
            },
        };
        let content_length = match headers.content_length() {
            Ok(Some(n)) => n,
            Ok(None) => 0,
            Err(e) => {
                return Err(e);
            },
        };
        if content_length > MAX_BODY_SIZE {
            return Err(ParseError::BodyTooLarge);
        }
        if buf.len() - header_end < content_length {
            return Err(ParseError::Incomplete);
        }
        let body = if content_length == 0 {
            None
        } else {
            Some(slice_subrange(buf, header_end, header_end + content_length))
        };
        let request = Request { path, query_string, method, headers, body };
        assert(request@.query == target_query(target@));
        Ok(request)
    }
}

} // verus!
