//! The example API: a list of items that can be searched, paged through and
//! added to.
use vstd::prelude::*;
use vstd::string::*;
use vstd::utf8::*;

use crate::http::method::Method;
use crate::http::request::RequestView;
use crate::http::response::ResponseView;
use crate::http::{Request, Response, StatusCode};
use crate::server::Handler;
use crate::text::{
    chars_contain, chars_of, contains, decimal, find_char, find_char_from,
    lemma_find_char_from_bounds, parse_usize, push_decimal, push_str, str_eq, str_parse_usize,
    trim, trim_range,
};

verus! {

/// What `str::to_lowercase` returns: the Unicode lower case of `s`.
pub uninterp spec fn to_lowercase(s: Seq<char>) -> Seq<char>;

/// `str::to_lowercase`, which lower-cases by the Unicode tables. Claimed: the
/// result depends on the characters of `s` alone (it is `to_lowercase(s@)`);
/// what the tables map each character to is left unsaid.
#[verifier::external_body]
fn lowercase(s: &str) -> (r: String)
    ensures
        r@ == to_lowercase(s@),
{
    s.to_lowercase()
}

/// The items of a text: its lines, trimmed, from position `i` on; empty lines
/// are left out.
pub open spec fn item_lines_from(s: Seq<char>, i: int) -> Seq<Seq<char>>
    decreases s.len() - i,
{
    if i < 0 || i > s.len() {
        Seq::empty()
    } else {
        let end = match find_char_from(s, '\n', i) {
            Some(e) => e,
            None => s.len() as int,
        };
        let item = trim(s.subrange(i, end));
        let here = if item.len() == 0 {
            Seq::empty()
        } else {
            seq![item]
        };
        match find_char_from(s, '\n', i) {
            None => here,
            Some(e) => {
                proof {
                    lemma_find_char_from_bounds(s, '\n', i);
                }
                here + item_lines_from(s, e + 1)
            },
        }
    }
}

/// How one character is written inside a JSON string: `\` and `"` get a
/// backslash in front.
pub open spec fn escape_char(c: char) -> Seq<char> {
    if c == '\\' {
        seq!['\\', '\\']
    } else if c == '"' {
        seq!['\\', '"']
    } else {
        seq![c]
    }
}

/// `s` with every `\` and `"` escaped by a backslash.
pub open spec fn json_escape(s: Seq<char>) -> Seq<char>
    decreases s.len(),
{
    if s.len() == 0 {
        Seq::empty()
    } else {
        json_escape(s.drop_last()) + escape_char(s.last())
    }
}

/// A JSON string holding `s`.
pub open spec fn quoted(s: Seq<char>) -> Seq<char> {
    seq!['"'] + json_escape(s) + seq!['"']
}

/// The JSON strings of `items`, separated by commas.
pub open spec fn quoted_list(items: Seq<Seq<char>>) -> Seq<char>
    decreases items.len(),
{
    if items.len() == 0 {
        Seq::empty()
    } else if items.len() == 1 {
        quoted(items[0])
    } else {
        quoted_list(items.drop_last()) + seq![','] + quoted(items.last())
    }
}

/// The value of query parameter `key`, if the request has it.
pub open spec fn query_param(req: RequestView, key: Seq<char>) -> Option<Seq<char>> {
    match req.query {
        Some(q) => if q.contains_key(key) {
            Some(q[key])
        } else {
            None
        },
        None => None,
    }
}

/// A positive number given as `text`, or `default`.
pub open spec fn positive_or(text: Option<Seq<char>>, default: usize) -> usize {
    match text {
        Some(t) => match parse_usize(t) {
            Some(n) => if n > 0 {
                n
            } else {
                default
            },
            None => default,
        },
        None => default,
    }
}

/// The lower-cased search term of a listing.
pub open spec fn search_term(req: RequestView) -> Option<Seq<char>> {
    match query_param(req, "q"@) {
        Some(q) => Some(to_lowercase(q)),
        None => None,
    }
}

/// The page number of a listing, counted from 1.
pub open spec fn page_number(req: RequestView) -> usize {
    positive_or(query_param(req, "page"@), 1)
}

/// How many items a page of a listing holds.
pub open spec fn page_limit(req: RequestView) -> usize {
    positive_or(query_param(req, "limit"@), 10)
}

/// An item shows in a listing if its lower case contains the search term.
pub open spec fn item_matches(item: Seq<char>, search: Option<Seq<char>>) -> bool {
    match search {
        Some(q) => contains(to_lowercase(item), q),
        None => true,
    }
}

/// The items that show in a listing, in their order.
pub open spec fn matching_items(items: Seq<Seq<char>>, search: Option<Seq<char>>) -> Seq<
    Seq<char>,
>
    decreases items.len(),
{
    if items.len() == 0 {
        Seq::empty()
    } else if item_matches(items.last(), search) {
        matching_items(items.drop_last(), search).push(items.last())
    } else {
        matching_items(items.drop_last(), search)
    }
}

/// The index of the first item of page `page`: `(page - 1) * limit`, or
/// `usize::MAX` where that does not fit.
pub open spec fn page_start(page: usize, limit: usize) -> int {
    if (page - 1) * limit > usize::MAX {
        usize::MAX as int
    } else {
        (page - 1) * limit
    }
}

/// At most `limit` items of `items`, from index `start` on.
pub open spec fn page_of(items: Seq<Seq<char>>, start: int, limit: int) -> Seq<Seq<char>> {
    if start >= items.len() {
        Seq::empty()
    } else if start + limit >= items.len() {
        items.subrange(start, items.len() as int)
    } else {
        items.subrange(start, start + limit)
    }
}

/// The JSON body of a listing of `items`.
pub open spec fn list_body(items: Seq<Seq<char>>, req: RequestView) -> Seq<char> {
    let page = page_number(req);
    let limit = page_limit(req);
    let found = matching_items(items, search_term(req));
    "{\"items\":["@ + quoted_list(page_of(found, page_start(page, limit), limit as int))
        + "],\"page\":"@ + decimal(page as nat) + ",\"limit\":"@ + decimal(limit as nat)
        + ",\"total\":"@ + decimal(found.len()) + "}"@
}

/// The item that a request adds: its body as text, trimmed, where the body
/// is UTF-8 and the text is not blank.
pub open spec fn new_item(req: RequestView) -> Option<Seq<char>> {
    match req.body {
        Some(b) => if valid_utf8(b) && trim(decode_utf8(b)).len() > 0 {
            Some(trim(decode_utf8(b)))
        } else {
            None
        },
        None => None,
    }
}

/// The answer to adding an item, and the items after it.
pub open spec fn add_result(items: Seq<Seq<char>>, req: RequestView) -> (
    ResponseView,
    Seq<Seq<char>>,
) {
    match req.body {
        None => (ResponseView { status: StatusCode::BadRequest, body: Some("Missing body"@) }, items),
        Some(b) => if !valid_utf8(b) {
            (
                ResponseView { status: StatusCode::BadRequest, body: Some("Invalid UTF-8 body"@) },
                items,
            )
        } else if trim(decode_utf8(b)).len() == 0 {
            (ResponseView { status: StatusCode::BadRequest, body: Some("Empty body"@) }, items)
        } else {
            let item = trim(decode_utf8(b));
            (
                ResponseView {
                    status: StatusCode::OK,
                    body: Some(
                        "{\"item\":\""@ + json_escape(item) + "\",\"total\":"@ + decimal(
                            items.len() + 1,
                        ) + "}"@,
                    ),
                },
                items.push(item),
            )
        }
    }
}

/// The answer of the API to a request, and its items after it.
pub open spec fn api_result(items: Seq<Seq<char>>, req: RequestView) -> (
    ResponseView,
    Seq<Seq<char>>,
) {
    if req.method == Method::GET && req.path == "/"@ {
        (
            ResponseView {
                status: StatusCode::OK,
                body: Some(
                    "{\"message\":\"API ready\",\"endpoints\":[\"GET /items?q=&page=1&limit=10\",\"POST /items\"]}"@,
                ),
            },
            items,
        )
    } else if req.method == Method::GET && req.path == "/items"@ {
        (ResponseView { status: StatusCode::OK, body: Some(list_body(items, req)) }, items)
    } else if req.method == Method::POST && req.path == "/items"@ {
        add_result(items, req)
    } else {
        (ResponseView { status: StatusCode::NotFound, body: Some("Not Found"@) }, items)
    }
}

/// The items whose lower case holds `q` as a run of consecutive characters.
pub open spec fn lower_case_holds(q: Seq<char>) -> spec_fn(Seq<char>) -> bool {
    |it: Seq<char>|
        exists|i: int|
            0 <= i && i + q.len() <= to_lowercase(it).len() && #[trigger] to_lowercase(it).subrange(
                i,
                i + q.len(),
            ) == q
}

/// A search keeps, in order, exactly the items whose lower case holds the
/// search term as a run of consecutive characters.
pub proof fn lemma_search_keeps_items_containing_term(items: Seq<Seq<char>>, q: Seq<char>)
    ensures
        matching_items(items, Some(q)) == items.filter(lower_case_holds(q)),
    decreases items.len(),
{
    reveal_with_fuel(Seq::<_>::filter, 1);
    if items.len() > 0 {
        lemma_search_keeps_items_containing_term(items.drop_last(), q);
        let it = items.last();
        let low = to_lowercase(it);
        if item_matches(it, Some(q)) {
            let i = choose|i: int| crate::text::occurs_at(low, q, i);
            assert(0 <= i && i + q.len() <= low.len() && low.subrange(i, i + q.len()) == q);
        }
        if lower_case_holds(q)(it) {
            let i = choose|i: int|
                0 <= i && i + q.len() <= low.len() && #[trigger] low.subrange(i, i + q.len()) == q;
            assert(crate::text::occurs_at(low, q, i));
        }
        assert(lower_case_holds(q)(it) == item_matches(it, Some(q)));
    }
}

/// An empty search term is in every text, so it lists every item.
pub proof fn lemma_empty_search_lists_all(items: Seq<Seq<char>>)
    ensures
        matching_items(items, Some(Seq::empty())) == items,
    decreases items.len(),
{
    if items.len() > 0 {
        let it = items.last();
        assert(to_lowercase(it).subrange(0, 0) =~= Seq::<char>::empty());
        assert(crate::text::occurs_at(to_lowercase(it), Seq::empty(), 0));
        lemma_empty_search_lists_all(items.drop_last());
        assert(items.drop_last().push(it) =~= items);
    }
}

/// Escaping works character by character: the escape of two texts one after
/// the other is their escapes one after the other.
pub proof fn lemma_json_escape_concat(a: Seq<char>, b: Seq<char>)
    ensures
        json_escape(a + b) == json_escape(a) + json_escape(b),
    decreases b.len(),
{
    if b.len() == 0 {
        assert(a + b =~= a);
        assert(json_escape(a) + Seq::<char>::empty() =~= json_escape(a));
    } else {
        assert((a + b).drop_last() =~= a + b.drop_last());
        assert((a + b).last() == b.last());
        lemma_json_escape_concat(a, b.drop_last());
        assert(json_escape(a) + json_escape(b.drop_last()) + escape_char(b.last()) =~= json_escape(
            a,
        ) + json_escape(b));
    }
}

/// Only a backslash and a double quote are escaped, each by a backslash in
/// front; every other character is written as it is.
pub proof fn lemma_json_escape_char(c: char)
    ensures
        json_escape(seq![c]) == (if c == '\\' {
            seq!['\\', '\\']
        } else if c == '"' {
            seq!['\\', '"']
        } else {
            seq![c]
        }),
{
    assert(seq![c].drop_last() =~= Seq::<char>::empty());
    assert(seq![c].last() == c);
    assert(json_escape(Seq::<char>::empty()) == Seq::<char>::empty());
    assert(Seq::<char>::empty() + escape_char(c) =~= escape_char(c));
}

/// A text without backslashes and double quotes is written unchanged.
pub proof fn lemma_json_escape_plain(s: Seq<char>)
    requires
        forall|i: int| 0 <= i < s.len() ==> #[trigger] s[i] != '\\' && s[i] != '"',
    ensures
        json_escape(s) == s,
    decreases s.len(),
{
    if s.len() > 0 {
        lemma_json_escape_plain(s.drop_last());
        assert(s.drop_last().push(s.last()) =~= s);
    }
}

/// Without a search term every item is listed, in order.
pub proof fn lemma_no_search_lists_all(items: Seq<Seq<char>>)
    ensures
        matching_items(items, None) == items,
    decreases items.len(),
{
    if items.len() > 0 {
        lemma_no_search_lists_all(items.drop_last());
        assert(items.drop_last().push(items.last()) =~= items);
    }
}

/// A successful `POST /items` appends its item, which then comes last in a
/// listing without search term; a refused one leaves the items as they were.
pub proof fn lemma_add_then_list(items: Seq<Seq<char>>, req: RequestView)
    ensures
        new_item(req) matches Some(t) ==> add_result(items, req).1 == items.push(t) && matching_items(
            add_result(items, req).1,
            None,
        ) == matching_items(items, None).push(t),
        new_item(req) is None ==> add_result(items, req).1 == items,
{
    if let Some(t) = new_item(req) {
        assert(items.push(t).drop_last() =~= items);
    }
}

/// Only a successful `POST /items` changes the items, and it appends one:
/// items are never changed in place, reordered or removed.
pub proof fn lemma_only_post_adds(items: Seq<Seq<char>>, req: RequestView)
    ensures
        api_result(items, req).1 == items || (req.method == Method::POST && req.path == "/items"@
            && new_item(req) is Some && api_result(items, req).1 == items.push(new_item(req).unwrap())),
{
}

/// Pages `1` to `k` of `found`, of `limit` items each, one after the other.
pub open spec fn pages_upto(found: Seq<Seq<char>>, limit: usize, k: nat) -> Seq<Seq<char>>
    decreases k,
{
    if k == 0 {
        Seq::empty()
    } else {
        pages_upto(found, limit, (k - 1) as nat) + page_of(
            found,
            page_start(k as usize, limit),
            limit as int,
        )
    }
}

/// How many pages of `limit` items `total` items fill: `total / limit`,
/// rounded up.
pub open spec fn page_count(total: nat, limit: usize) -> nat {
    ((total + limit - 1) / (limit as int)) as nat
}

#[verifier::spinoff_prover]
proof fn lemma_pages_upto_take(found: Seq<Seq<char>>, limit: usize, k: nat)
    requires
        limit > 0,
        k <= usize::MAX,
        found.len() <= usize::MAX,
    ensures
        pages_upto(found, limit, k) == found.take(
            if k * limit >= found.len() {
                found.len() as int
            } else {
                k * limit
            },
        ),
    decreases k,
{
    let n = found.len() as int;
    let l = limit as int;
    if k == 0 {
        assert(found.take(0) =~= Seq::<Seq<char>>::empty());
    } else {
        let j = (k - 1) as nat;
        lemma_pages_upto_take(found, limit, j);
        assert(k * l == j * l + l) by (nonlinear_arith)
            requires
                j == k - 1,
        ;
        assert(j * l >= 0) by (nonlinear_arith)
            requires
                l > 0,
        ;
        let start = page_start(k as usize, limit);
        assert((k as usize) - 1 == j);
        if j * l >= n {
            assert(start >= n);
            assert(page_of(found, start, l) =~= Seq::<Seq<char>>::empty());
            assert(found.take(n) + Seq::<Seq<char>>::empty() =~= found.take(n));
        } else {
            assert(start == j * l);
            if start + l >= n {
                assert(found.take(j * l) + found.subrange(start, n) =~= found.take(n));
            } else {
                assert(found.take(j * l) + found.subrange(start, start + l) =~= found.take(k * l));
            }
        }
    }
}

/// Paging through a listing gives every item that it found once, in order:
/// pages `1` to `page_count` of `limit` items together make up the whole of
/// `found`, and every page after them is empty. (The total that a listing
/// reports does not depend on the page: it is `found.len()`.)
pub proof fn lemma_pages_cover_matches(found: Seq<Seq<char>>, limit: usize)
    requires
        limit > 0,
        found.len() <= usize::MAX,
    ensures
        pages_upto(found, limit, page_count(found.len(), limit)) == found,
        forall|p: usize|
            p > page_count(found.len(), limit) ==> (#[trigger] page_of(
                found,
                page_start(p, limit),
                limit as int,
            )).len() == 0,
{
    let t = found.len() as int;
    let l = limit as int;
    let n = page_count(found.len(), limit);
    assert(n * l >= t && n <= t + 1 && n >= 0) by (nonlinear_arith)
        requires
            l > 0,
            t >= 0,
            n == (t + l - 1) / l,
    ;
    if n > t {
        assert(t == 0) by (nonlinear_arith)
            requires
                l > 0,
                t >= 0,
                n == (t + l - 1) / l,
                n > t,
        ;
    }
    lemma_pages_upto_take(found, limit, n);
    assert(found.take(t) =~= found);
    assert forall|p: usize| p > n implies (#[trigger] page_of(
        found,
        page_start(p, limit),
        limit as int,
    )).len() == 0 by {
        assert((p - 1) * l >= n * l) by (nonlinear_arith)
            requires
                p - 1 >= n,
                l > 0,
        ;
    }
}

/// Pages follow one another: page `a` of `limit` items, then the page that
/// starts where it ends, make up the page of `2 * limit` items from `a`.
pub proof fn lemma_consecutive_pages(items: Seq<Seq<char>>, start: int, limit: int)
    requires
        0 <= start,
        0 <= limit,
    ensures
        page_of(items, start, limit) + page_of(items, start + limit, limit) == page_of(
            items,
            start,
            2 * limit,
        ),
        page_of(items, start, limit).len() <= limit,
{
    let n = items.len() as int;
    if start >= n {
        assert(page_of(items, start, limit) + page_of(items, start + limit, limit) =~= Seq::<
            Seq<char>,
        >::empty());
    } else if start + limit >= n {
        assert(page_of(items, start, limit) + page_of(items, start + limit, limit) =~= items.subrange(start, n));
    } else if start + 2 * limit >= n {
        assert(page_of(items, start, limit) + page_of(items, start + limit, limit) =~= items.subrange(start, n));
    } else {
        assert(page_of(items, start, limit) + page_of(items, start + limit, limit) =~= items.subrange(start, start + 2 * limit));
    }
}

/// `value` as it is written inside a JSON string.
pub fn escape_json(value: &str) -> (r: String)
    ensures
        r@ == json_escape(value@),
{
    let v = chars_of(value);
    let mut out = String::new();
    let mut i: usize = 0;
    while i < v.len()
        invariant
            v@ == value@,
            i <= v@.len(),
            out@ == json_escape(v@.take(i as int)),
        decreases v@.len() - i,
    {
        let c = v[i];
        if c == '\\' {
            out.push('\\');
            out.push('\\');
        } else if c == '"' {
            out.push('\\');
            out.push('"');
        } else {
            out.push(c);
        }
        assert(v@.take(i + 1).drop_last() =~= v@.take(i as int));
        assert(out@ =~= json_escape(v@.take(i + 1)));
        i = i + 1;
    }
    assert(v@.take(i as int) =~= v@);
    out
}

/// The items of the example API.
pub struct ApiHandler {
    items: Vec<String>,
}

impl View for ApiHandler {
    type V = Seq<Seq<char>>;

    closed spec fn view(&self) -> Seq<Seq<char>> {
        self.items@.map_values(|s: String| s@)
    }
}

/// A positive number given as the query parameter `key`, or `default`.
fn positive_param(request: &Request, key: &str, default: usize) -> (r: usize)
    ensures
        r == positive_or(query_param(request@, key@), default),
{
    match request.query_string() {
        Some(qs) => match qs.get(key) {
            Some(text) => match str_parse_usize(text) {
                Some(n) => if n > 0 {
                    n
                } else {
                    default
                },
                None => default,
            },
            None => default,
        },
        None => default,
    }
}

impl ApiHandler {
    /// The handler for the items listed one per line in `text`.
    pub fn from_text(text: &str) -> (r: ApiHandler)
        ensures
            r@ == item_lines_from(text@, 0),
    {
        let v = chars_of(text);
        let mut items: Vec<String> = Vec::new();
        let mut i: usize = 0;
        loop
            invariant
                v@ == text@,
                i <= v@.len(),
                item_lines_from(v@, 0) == (ApiHandler { items })@ + item_lines_from(v@, i as int),
            decreases v@.len() - i,
        {
            let ghost before = (ApiHandler { items })@;
            let nl = find_char(&v, '\n', i);
            proof {
                lemma_find_char_from_bounds(v@, '\n', i as int);
            }
            let end = match nl {
                Some(e) => e,
                None => v.len(),
            };
            let (a, b) = trim_range(&v, i, end);
            if a < b {
                let item = String::from_str(text.substring_char(a, b));
                items.push(item);
                assert((ApiHandler { items })@ =~= before + seq![trim(v@.subrange(i as int, end as int))]);
            } else {
                assert((ApiHandler { items })@ =~= before + Seq::<Seq<char>>::empty());
            }
            let ghost after = (ApiHandler { items })@;
            match nl {
                None => {
                    assert(before + item_lines_from(v@, i as int) =~= after);
                    return ApiHandler { items };
                },
                Some(e) => {
                    assert(before + item_lines_from(v@, i as int) =~= after + item_lines_from(
                        v@,
                        e + 1,
                    ));
                    i = e + 1;
                },
            }
        }
    }

    /// Lists the items that match the search term `q`, one page at a time.
    #[verifier::spinoff_prover]
    pub fn list_items(&self, request: &Request) -> (r: Response)
        ensures
            r@ == (ResponseView { status: StatusCode::OK, body: Some(list_body(self@, request@)) }),
    {
        let ghost items = self@;
        let search: Option<Vec<char>> = match request.query_string() {
            Some(qs) => match qs.get("q") {
                Some(q) => Some(chars_of(lowercase(q).as_str())),
                None => None,
            },
            None => None,
        };
        let ghost term: Option<Seq<char>> = match &search {
            Some(s) => Some(s@),
            None => None,
        };
        assert(term == search_term(request@));
        let page = positive_param(request, "page", 1);
        let limit = positive_param(request, "limit", 10);

        let mut found: Vec<&str> = Vec::new();
        let mut i: usize = 0;
        while i < self.items.len()
            invariant
                items == self@,
                items.len() == self.items@.len(),
                search matches Some(q) ==> term == Some(q@),
                search is None ==> term is None,
                i <= items.len(),
                found@.map_values(|s: &str| s@) == matching_items(items.take(i as int), term),
            decreases items.len() - i,
        {
            let item = self.items[i].as_str();
            let keep = match &search {
                Some(q) => chars_contain(&chars_of(lowercase(item).as_str()), q),
                None => true,
            };
            assert(items.take(i + 1).drop_last() =~= items.take(i as int));
            assert(items.take(i + 1).last() == item@);
            assert(keep == item_matches(item@, term));
            let ghost before = found@.map_values(|s: &str| s@);
            if keep {
                found.push(item);
                assert(found@.map_values(|s: &str| s@) =~= before.push(item@));
            } else {
                assert(found@.map_values(|s: &str| s@) =~= before);
            }
            assert(found@.map_values(|s: &str| s@) =~= matching_items(items.take(i + 1), term));
            i = i + 1;
        }
        assert(items.take(i as int) =~= items);
        let ghost fv = found@.map_values(|s: &str| s@);
        let total = found.len();

        let p = page - 1;
        let start = if p > usize::MAX / limit {
            proof {
                assert(p * limit > usize::MAX) by (nonlinear_arith)
                    requires
                        p > usize::MAX / limit,
                        limit > 0,
                ;
            }
            usize::MAX
        } else {
            proof {
                assert(p * limit <= usize::MAX) by (nonlinear_arith)
                    requires
                        p <= usize::MAX / limit,
                        limit > 0,
                ;
            }
            p * limit
        };
        assert(start == page_start(page, limit));
        let first = if start >= total {
            total
        } else {
            start
        };
        let end = if start >= total {
            total
        } else if limit >= total - start {
            total
        } else {
            start + limit
        };
        let ghost shown = page_of(fv, start as int, limit as int);
        assert(shown =~= fv.subrange(first as int, end as int));

        let mut body = String::new();
        push_str(&mut body, "{\"items\":[");
        let ghost prefix = body@;
        let mut k = first;
        assert(fv.subrange(first as int, first as int) =~= Seq::<Seq<char>>::empty());
        assert(body@ =~= prefix + quoted_list(fv.subrange(first as int, k as int)));
        while k < end
            invariant
                first <= k <= end <= total,
                total == fv.len(),
                fv == found@.map_values(|s: &str| s@),
                shown == fv.subrange(first as int, end as int),
                body@ == prefix + quoted_list(fv.subrange(first as int, k as int)),
            decreases end - k,
        {
            if k > first {
                body.push(',');
            }
            body.push('"');
            let escaped = escape_json(found[k]);
            push_str(&mut body, escaped.as_str());
            body.push('"');
            let ghost part = fv.subrange(first as int, k + 1);
            assert(part.drop_last() =~= fv.subrange(first as int, k as int));
            assert(part.last() == fv[k as int]);
            assert(body@ =~= prefix + quoted_list(part));
            k = k + 1;
        }
        push_str(&mut body, "],\"page\":");
        push_decimal(&mut body, page);
        push_str(&mut body, ",\"limit\":");
        push_decimal(&mut body, limit);
        push_str(&mut body, ",\"total\":");
        push_decimal(&mut body, total);
        push_str(&mut body, "}");
        assert(body@ =~= list_body(self@, request@));
        Response::json(StatusCode::OK, body)
    }

    /// Adds the request body, trimmed, as a new item.
    pub fn add_item(&mut self, request: &Request) -> (r: Response)
        ensures
            (r@, final(self)@) == add_result(old(self)@, request@),
    {
        let text = match request.body_text() {
            None => {
                return Response::new(StatusCode::BadRequest, Some(String::from_str("Missing body")));
            },
            Some(Err(_)) => {
                return Response::new(
                    StatusCode::BadRequest,
                    Some(String::from_str("Invalid UTF-8 body")),
                );
            },
            Some(Ok(text)) => text,
        };
        let v = chars_of(text);
        let (a, b) = trim_range(&v, 0, v.len());
        assert(v@.subrange(0, v@.len() as int) =~= v@);
        if a == b {
            return Response::new(StatusCode::BadRequest, Some(String::from_str("Empty body")));
        }
        let item = text.substring_char(a, b);
        let ghost old_items = self@;
        self.items.push(String::from_str(item));
        assert(self@ =~= old_items.push(item@));
        let mut body = String::new();
        push_str(&mut body, "{\"item\":\"");
        let escaped = escape_json(item);
        push_str(&mut body, escaped.as_str());
        push_str(&mut body, "\",\"total\":");
        push_decimal(&mut body, self.items.len());
        push_str(&mut body, "}");
        Response::json(StatusCode::OK, body)
    }
}

impl Handler for ApiHandler {
    fn handle_request(&mut self, request: &Request) -> (r: Response)
        ensures
            (r@, final(self)@) == api_result(old(self)@, request@),
    {
        match request.method() {
            Method::GET => {
                if str_eq(request.path(), "/") {
                    Response::json(
                        StatusCode::OK,
                        String::from_str(
                            "{\"message\":\"API ready\",\"endpoints\":[\"GET /items?q=&page=1&limit=10\",\"POST /items\"]}",
                        ),
                    )
                } else if str_eq(request.path(), "/items") {
                    self.list_items(request)
                } else {
                    Response::new(StatusCode::NotFound, Some(String::from_str("Not Found")))
                }
            },
            Method::POST => {
                if str_eq(request.path(), "/items") {
                    self.add_item(request)
                } else {
                    Response::new(StatusCode::NotFound, Some(String::from_str("Not Found")))
                }
            },
            _ => Response::new(StatusCode::NotFound, Some(String::from_str("Not Found"))),
        }
    }
}

} // verus!
