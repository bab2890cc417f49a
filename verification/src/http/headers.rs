//! Request headers: parsing the header section and looking names up.
use vstd::prelude::*;

use super::request::ParseError;
use crate::text::{
    ascii_lower_code, chars_of, crlf_from, eq_ignore_ascii_case, find_char_from, find_char_in, find_crlf,
    lemma_crlf_from_bounds, parse_usize, str_eq_ignore_ascii_case, str_parse_usize, trim,
    trim_range,
};

verus! {

/// A header name and value, as characters.
pub type HeaderView = (Seq<char>, Seq<char>);

/// The headers of a request, in the order in which they came.
#[derive(Debug)]
pub struct Headers<'buf> {
    data: Vec<(&'buf str, &'buf str)>,
}

impl<'buf> View for Headers<'buf> {
    type V = Seq<HeaderView>;

    closed spec fn view(&self) -> Seq<HeaderView> {
        self.data@.map_values(|p: (&'buf str, &'buf str)| (p.0@, p.1@))
    }
}

/// One header line `name: value`: the text before the first colon and the
/// text after it, both trimmed; `None` without a colon or with an empty name.
pub open spec fn parse_header_line(line: Seq<char>) -> Option<HeaderView> {
    match find_char_from(line, ':', 0) {
        None => None,
        Some(c) => {
            let name = trim(line.take(c));
            if name.len() == 0 {
                None
            } else {
                Some((name, trim(line.skip(c + 1))))
            }
        },
    }
}

/// The headers of the lines of `s` from position `i` on. Lines end with
/// `"\r\n"`; the first empty line ends the headers, and a line that is not a
/// header makes the whole section invalid.
pub open spec fn header_lines_from(s: Seq<char>, i: int) -> Result<Seq<HeaderView>, ParseError>
    decreases s.len() - i,
{
    if i < 0 || i > s.len() {
        Ok(seq![])
    } else {
        let end = match crlf_from(s, i) {
            Some(e) => e,
            None => s.len() as int,
        };
        let line = s.subrange(i, end);
        if end <= i {
            Ok(seq![])
        } else {
            match parse_header_line(line) {
                None => Err(ParseError::InvalidHeader),
                Some(h) => match crlf_from(s, i) {
                    None => Ok(seq![h]),
                    Some(e) => {
                        proof {
                            lemma_crlf_from_bounds(s, i);
                        }
                        match header_lines_from(s, e + 2) {
                            Ok(rest) => Ok(seq![h] + rest),
                            Err(err) => Err(err),
                        }
                    },
                },
            }
        }
    }
}

/// What `Headers::try_from` makes of a header section.
pub open spec fn parse_headers(s: Seq<char>) -> Result<Seq<HeaderView>, ParseError> {
    header_lines_from(s, 0)
}

/// The value of the first header whose name matches `name` up to ASCII case.
pub open spec fn header_value(hs: Seq<HeaderView>, name: Seq<char>) -> Option<Seq<char>>
    decreases hs.len(),
{
    if hs.len() == 0 {
        None
    } else if eq_ignore_ascii_case(hs[0].0, name) {
        Some(hs[0].1)
    } else {
        header_value(hs.drop_first(), name)
    }
}

/// The body length that the headers announce: none without a
/// `Content-Length` header, an error where its value is not a `usize`.
pub open spec fn content_length_of(hs: Seq<HeaderView>) -> Result<Option<usize>, ParseError> {
    match header_value(hs, "content-length"@) {
        None => Ok(None),
        Some(v) => match parse_usize(v) {
            Some(n) => Ok(Some(n)),
            None => Err(ParseError::InvalidHeader),
        },
    }
}

/// A lookup finds the first header whose name matches, wherever it stands:
/// the value of header `k` where no earlier name matches, and nothing where
/// no name matches at all.
pub proof fn lemma_header_value_first_match(hs: Seq<HeaderView>, name: Seq<char>, k: int)
    requires
        0 <= k < hs.len(),
        eq_ignore_ascii_case(hs[k].0, name),
        forall|j: int| 0 <= j < k ==> !eq_ignore_ascii_case(#[trigger] hs[j].0, name),
    ensures
        header_value(hs, name) == Some(hs[k].1),
    decreases k,
{
    if k > 0 {
        assert(!eq_ignore_ascii_case(hs[0].0, name));
        let t = hs.drop_first();
        assert forall|j: int| 0 <= j < k - 1 implies !eq_ignore_ascii_case(#[trigger] t[j].0, name) by {
            assert(t[j] == hs[j + 1]);
        }
        lemma_header_value_first_match(t, name, k - 1);
    }
}

pub proof fn lemma_header_value_no_match(hs: Seq<HeaderView>, name: Seq<char>)
    requires
        forall|j: int| 0 <= j < hs.len() ==> !eq_ignore_ascii_case(#[trigger] hs[j].0, name),
    ensures
        header_value(hs, name) is None,
    decreases hs.len(),
{
    if hs.len() > 0 {
        assert(!eq_ignore_ascii_case(hs[0].0, name));
        let t = hs.drop_first();
        assert forall|j: int| 0 <= j < t.len() implies !eq_ignore_ascii_case(#[trigger] t[j].0, name) by {
            assert(t[j] == hs[j + 1]);
        }
        lemma_header_value_no_match(t, name);
    }
}

/// The `Content-Length` of a header list is read from the first header of
/// that name (in any ASCII case), wherever it stands in the list: its value
/// as a number, or `InvalidHeader` where the value is not one.
pub proof fn lemma_content_length_anywhere(hs: Seq<HeaderView>, k: int)
    requires
        0 <= k < hs.len(),
        eq_ignore_ascii_case(hs[k].0, "content-length"@),
        forall|j: int| 0 <= j < k ==> !eq_ignore_ascii_case(#[trigger] hs[j].0, "content-length"@),
    ensures
        content_length_of(hs) == (match parse_usize(hs[k].1) {
            Some(n) => Ok::<Option<usize>, ParseError>(Some(n)),
            None => Err::<Option<usize>, ParseError>(ParseError::InvalidHeader),
        }),
{
    lemma_header_value_first_match(hs, "content-length"@, k);
}

/// Without a header named `Content-Length` (in any ASCII case) there is no
/// body length.
pub proof fn lemma_no_content_length(hs: Seq<HeaderView>)
    requires
        forall|j: int|
            0 <= j < hs.len() ==> !eq_ignore_ascii_case(#[trigger] hs[j].0, "content-length"@),
    ensures
        content_length_of(hs) == Ok::<Option<usize>, ParseError>(None),
{
    lemma_header_value_no_match(hs, "content-length"@);
}

/// Other headers in front change nothing of the `Content-Length`.
pub proof fn lemma_content_length_skips_other_headers(h: HeaderView, hs: Seq<HeaderView>)
    requires
        !eq_ignore_ascii_case(h.0, "content-length"@),
    ensures
        content_length_of(seq![h] + hs) == content_length_of(hs),
{
    assert((seq![h] + hs).drop_first() =~= hs);
}

proof fn lemma_crlf_from_shift(p: Seq<char>, s: Seq<char>, j: int)
    requires
        0 <= j,
    ensures
        crlf_from(p + s, p.len() + j) == (match crlf_from(s, j) {
            Some(k) => Some(k + p.len()),
            None => None::<int>,
        }),
    decreases s.len() - j,
{
    if j + 1 < s.len() {
        assert((p + s)[p.len() + j] == s[j]);
        assert((p + s)[p.len() + j + 1] == s[j + 1]);
        if !(s[j] == '\r' && s[j + 1] == '\n') {
            lemma_crlf_from_shift(p, s, j + 1);
        }
    }
}

proof fn lemma_header_lines_from_shift(p: Seq<char>, s: Seq<char>, j: int)
    requires
        0 <= j,
    ensures
        header_lines_from(p + s, p.len() + j) == header_lines_from(s, j),
    decreases s.len() - j,
{
    let t = p + s;
    lemma_crlf_from_shift(p, s, j);
    lemma_crlf_from_bounds(s, j);
    if j <= s.len() {
        let end = match crlf_from(s, j) {
            Some(e) => e,
            None => s.len() as int,
        };
        assert(t.subrange(p.len() + j, p.len() + end) =~= s.subrange(j, end));
        if let Some(e) = crlf_from(s, j) {
            lemma_header_lines_from_shift(p, s, e + 2);
        }
    }
}

proof fn lemma_crlf_after_line(l: Seq<char>, rest: Seq<char>, i: int)
    requires
        0 <= i <= l.len(),
        crlf_from(l, i) is None,
    ensures
        crlf_from(l + seq!['\r', '\n'] + rest, i) == Some(l.len() as int),
    decreases l.len() - i,
{
    let s = l + seq!['\r', '\n'] + rest;
    assert(s[l.len() as int] == '\r' && s[l.len() + 1int] == '\n');
    if i < l.len() {
        assert(s[i] == l[i]);
        if i + 1 < l.len() {
            assert(s[i + 1] == l[i + 1]);
        } else {
            assert(s[i + 1] == '\r');
        }
        lemma_crlf_after_line(l, rest, i + 1);
    }
}

/// Every header line before the blank line is kept, in order: a header line
/// in front of a section puts its header in front of the section's headers
/// (or leaves the section's error as it is).
pub proof fn lemma_header_line_kept(l: Seq<char>, rest: Seq<char>, h: HeaderView)
    requires
        parse_header_line(l) == Some(h),
        crlf_from(l, 0) is None,
    ensures
        parse_headers(l + seq!['\r', '\n'] + rest) == (match parse_headers(rest) {
            Ok(hs) => Ok::<Seq<HeaderView>, ParseError>(seq![h] + hs),
            Err(e) => Err::<Seq<HeaderView>, ParseError>(e),
        }),
{
    let p = l + seq!['\r', '\n'];
    let s = l + seq!['\r', '\n'] + rest;
    assert(s =~= p + rest);
    crate::text::lemma_find_char_from_bounds(l, ':', 0);
    lemma_crlf_after_line(l, rest, 0);
    assert(s.subrange(0, l.len() as int) =~= l);
    lemma_header_lines_from_shift(p, rest, 0);
    assert(p.len() + 0 == l.len() + 2);
}

/// A section that starts with a blank line has no headers.
pub proof fn lemma_blank_line_ends_headers(rest: Seq<char>)
    ensures
        parse_headers(seq!['\r', '\n'] + rest) == Ok::<Seq<HeaderView>, ParseError>(Seq::empty()),
{
    let s = seq!['\r', '\n'] + rest;
    assert(s[0] == '\r' && s[1] == '\n');
}

/// Header names are looked up without regard to ASCII case: two names that
/// differ only there find the same value.
pub proof fn lemma_header_lookup_ignores_ascii_case(
    hs: Seq<HeaderView>,
    a: Seq<char>,
    b: Seq<char>,
)
    requires
        eq_ignore_ascii_case(a, b),
    ensures
        header_value(hs, a) == header_value(hs, b),
    decreases hs.len(),
{
    if hs.len() > 0 {
        let n = hs[0].0;
        assert(eq_ignore_ascii_case(n, a) == eq_ignore_ascii_case(n, b)) by {
            if eq_ignore_ascii_case(n, a) {
                assert forall|i: int| 0 <= i < n.len() implies ascii_lower_code(#[trigger] n[i])
                    == ascii_lower_code(b[i]) by {
                    assert(ascii_lower_code(a[i]) == ascii_lower_code(b[i]));
                }
            }
            if eq_ignore_ascii_case(n, b) {
                assert forall|i: int| 0 <= i < n.len() implies ascii_lower_code(#[trigger] n[i])
                    == ascii_lower_code(a[i]) by {
                    assert(ascii_lower_code(a[i]) == ascii_lower_code(b[i]));
                }
            }
        }
        lemma_header_lookup_ignores_ascii_case(hs.drop_first(), a, b);
    }
}

impl<'buf> Headers<'buf> {
    /// The value of the first header named `name`, ignoring ASCII case.
    pub fn get(&self, name: &str) -> (r: Option<&'buf str>)
        ensures
            match r {
                Some(v) => header_value(self@, name@) == Some(v@),
                None => header_value(self@, name@) is None,
            },
    {
        let mut i: usize = 0;
        assert(self@.skip(0) =~= self@);
        while i < self.data.len()
            invariant
                i <= self.data@.len(),
                self@.len() == self.data@.len(),
                header_value(self@, name@) == header_value(self@.skip(i as int), name@),
            decreases self.data@.len() - i,
        {
            let (key, value) = self.data[i];
            assert(self@.skip(i as int)[0] == self@[i as int]);
            assert(self@.skip(i as int).drop_first() =~= self@.skip(i + 1));
            if str_eq_ignore_ascii_case(key, name) {
                return Some(value);
            }
            i = i + 1;
        }
        None
    }

    /// The `Content-Length` header as a number.
    pub fn content_length(&self) -> (r: Result<Option<usize>, ParseError>)
        ensures
            r == content_length_of(self@),
    {
        match self.get("content-length") {
            None => Ok(None),
            Some(value) => match str_parse_usize(value) {
                Some(n) => Ok(Some(n)),
                None => Err(ParseError::InvalidHeader),
            },
        }
    }

    /// Parses a header section: `name: value` lines separated by `"\r\n"`,
    /// up to the first empty line.
    pub fn try_from(headers_section: &'buf str) -> (r: Result<Headers<'buf>, ParseError>)
        ensures
            match r {
                Ok(h) => parse_headers(headers_section@) == Ok::<Seq<HeaderView>, ParseError>(h@),
                Err(e) => parse_headers(headers_section@) == Err::<Seq<HeaderView>, ParseError>(e),
            },
    {
        let v = chars_of(headers_section);
        let mut data: Vec<(&'buf str, &'buf str)> = Vec::new();
        let mut i: usize = 0;
        loop
            invariant
                v@ == headers_section@,
                i <= v@.len(),
                parse_headers(v@) == (match header_lines_from(v@, i as int) {
                    Ok(rest) => Ok((Headers { data }@) + rest),
                    Err(e) => Err(e),
                }),
            decreases v@.len() - i,
        {
            let ghost old_view = (Headers { data }@);
            let crlf = find_crlf(&v, i);
            proof {
                lemma_crlf_from_bounds(v@, i as int);
            }
            let end = match crlf {
                Some(e) => e,
                None => v.len(),
            };
            if end == i {
                assert(old_view + seq![] =~= old_view);
                return Ok(Headers { data });
            }
            let ghost line = v@.subrange(i as int, end as int);
            let colon = match find_char_in(&v, ':', i, end) {
                Some(c) => c,
                None => {
                    return Err(ParseError::InvalidHeader);
                },
            };
            proof {
                crate::text::lemma_find_char_from_bounds(line, ':', 0);
            }
            let (na, nb) = trim_range(&v, i, colon);
            let (va, vb) = trim_range(&v, colon + 1, end);
            assert(line.take(colon - i) =~= v@.subrange(i as int, colon as int));
            assert(line.skip(colon - i + 1) =~= v@.subrange(colon + 1, end as int));
            if na == nb {
                return Err(ParseError::InvalidHeader);
            }
            let name = headers_section.substring_char(na, nb);
            let value = headers_section.substring_char(va, vb);
            data.push((name, value));
            let ghost h = (name@, value@);
            assert((Headers { data }@) =~= old_view.push(h));
            match crlf {
                None => {
                    assert(old_view + seq![h] =~= old_view.push(h));
                    return Ok(Headers { data });
                },
                Some(e) => {
                    assert(forall|rest: Seq<HeaderView>|
                        old_view + (seq![h] + rest) =~= old_view.push(h) + rest);
                    i = e + 2;
                },
            }
        }
    }
}

} // verus!
