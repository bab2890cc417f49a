//! The query string of a request target: `key=value` pairs joined by `&`.
use vstd::prelude::*;
use vstd::string::*;

use crate::text::{
    chars_of, find_char, find_char_from, find_char_in, lemma_find_char_from_bounds, str_eq,
};

verus! {

/// A key and a value, as characters.
pub type PairView = (Seq<char>, Seq<char>);

/// The map that inserting `pairs` in order into an empty map gives: where a
/// key comes more than once, the last value wins.
pub open spec fn pairs_to_map(pairs: Seq<PairView>) -> Map<Seq<char>, Seq<char>>
    decreases pairs.len(),
{
    if pairs.len() == 0 {
        Map::empty()
    } else {
        pairs_to_map(pairs.drop_last()).insert(pairs.last().0, pairs.last().1)
    }
}

/// One `&`-separated piece: the text before the first `=` and the text after
/// it, or the whole piece and an empty value.
pub open spec fn query_pair(piece: Seq<char>) -> PairView {
    match find_char_from(piece, '=', 0) {
        Some(i) => (piece.take(i), piece.skip(i + 1)),
        None => (piece, Seq::empty()),
    }
}

/// The pairs of the non-empty `&`-separated pieces of `s` from position `i` on.
pub open spec fn query_pairs_from(s: Seq<char>, i: int) -> Seq<PairView>
    decreases s.len() - i,
{
    if i < 0 || i > s.len() {
        Seq::empty()
    } else {
        let end = match find_char_from(s, '&', i) {
            Some(e) => e,
            None => s.len() as int,
        };
        let piece = s.subrange(i, end);
        let here = if piece.len() == 0 {
            Seq::empty()
        } else {
            seq![query_pair(piece)]
        };
        match find_char_from(s, '&', i) {
            None => here,
            Some(e) => {
                proof {
                    lemma_find_char_from_bounds(s, '&', i);
                }
                here + query_pairs_from(s, e + 1)
            },
        }
    }
}

/// What `QueryString::from` makes of a query string.
pub open spec fn parse_query(s: Seq<char>) -> Map<Seq<char>, Seq<char>> {
    pairs_to_map(query_pairs_from(s, 0))
}

proof fn lemma_find_char_from_shift(p: Seq<char>, b: Seq<char>, c: char, j: int)
    requires
        0 <= j,
    ensures
        find_char_from(p + b, c, p.len() + j) == (match find_char_from(b, c, j) {
            Some(k) => Some(k + p.len()),
            None => None::<int>,
        }),
    decreases b.len() - j,
{
    if j < b.len() {
        assert((p + b)[p.len() + j] == b[j]);
        if b[j] != c {
            lemma_find_char_from_shift(p, b, c, j + 1);
        }
    }
}

proof fn lemma_query_pairs_from_shift(p: Seq<char>, b: Seq<char>, j: int)
    requires
        0 <= j,
    ensures
        query_pairs_from(p + b, p.len() + j) == query_pairs_from(b, j),
    decreases b.len() - j,
{
    let s = p + b;
    lemma_find_char_from_shift(p, b, '&', j);
    lemma_find_char_from_bounds(b, '&', j);
    if j <= b.len() {
        let end_b = match find_char_from(b, '&', j) {
            Some(e) => e,
            None => b.len() as int,
        };
        assert(s.subrange(p.len() + j, p.len() + end_b) =~= b.subrange(j, end_b));
        if let Some(e) = find_char_from(b, '&', j) {
            lemma_query_pairs_from_shift(p, b, e + 1);
        }
    }
}

proof fn lemma_query_pairs_from_join(a: Seq<char>, b: Seq<char>, i: int)
    requires
        0 <= i <= a.len(),
    ensures
        query_pairs_from(a + seq!['&'] + b, i) == query_pairs_from(a, i) + query_pairs_from(b, 0),
    decreases a.len() - i,
{
    let s = a + seq!['&'] + b;
    let p = a + seq!['&'];
    assert(s =~= p + b);
    lemma_find_char_from_bounds(a, '&', i);
    lemma_find_char_from_bounds(s, '&', i);
    match find_char_from(a, '&', i) {
        Some(e) => {
            lemma_find_char_prefix(a, seq!['&'] + b, '&', i);
            assert(s =~= a + (seq!['&'] + b));
            assert(s.subrange(i, e) =~= a.subrange(i, e));
            lemma_query_pairs_from_join(a, b, e + 1);
            assert(query_pairs_from(a, i) + query_pairs_from(b, 0) =~= (if a.subrange(i, e).len()
                == 0 {
                Seq::<PairView>::empty()
            } else {
                seq![query_pair(a.subrange(i, e))]
            }) + (query_pairs_from(a, e + 1) + query_pairs_from(b, 0)));
        },
        None => {
            lemma_find_char_prefix(a, seq!['&'] + b, '&', i);
            assert(s =~= a + (seq!['&'] + b));
            assert(find_char_from(s, '&', i) == Some(a.len() as int));
            assert(s.subrange(i, a.len() as int) =~= a.subrange(i, a.len() as int));
            lemma_query_pairs_from_shift(p, b, 0);
            assert(p.len() + 0 == a.len() + 1);
        },
    }
}

/// Where `c` occurs in `a` at or after `i`, `a + rest` finds it at the same
/// place; where it does not, the search goes on into `rest`.
proof fn lemma_find_char_prefix(a: Seq<char>, rest: Seq<char>, c: char, i: int)
    requires
        0 <= i <= a.len(),
    ensures
        find_char_from(a, c, i) is Some ==> find_char_from(a + rest, c, i) == find_char_from(a, c, i),
        find_char_from(a, c, i) is None ==> find_char_from(a + rest, c, i) == (match find_char_from(rest, c, 0) {
            Some(k) => Some(k + a.len()),
            None => None::<int>,
        }),
    decreases a.len() - i,
{
    if i < a.len() {
        assert((a + rest)[i] == a[i]);
        if a[i] != c {
            lemma_find_char_prefix(a, rest, c, i + 1);
        }
    } else {
        lemma_find_char_from_shift(a, rest, c, 0);
    }
}

proof fn lemma_pairs_to_map_concat(p1: Seq<PairView>, p2: Seq<PairView>)
    ensures
        pairs_to_map(p1 + p2) == pairs_to_map(p1).union_prefer_right(pairs_to_map(p2)),
    decreases p2.len(),
{
    if p2.len() == 0 {
        assert(p1 + p2 =~= p1);
        assert(pairs_to_map(p1).union_prefer_right(Map::empty()) =~= pairs_to_map(p1));
    } else {
        assert((p1 + p2).drop_last() =~= p1 + p2.drop_last());
        assert((p1 + p2).last() == p2.last());
        lemma_pairs_to_map_concat(p1, p2.drop_last());
        let m1 = pairs_to_map(p1);
        let m2 = pairs_to_map(p2.drop_last());
        assert(m1.union_prefer_right(m2).insert(p2.last().0, p2.last().1) =~= m1.union_prefer_right(
            m2.insert(p2.last().0, p2.last().1),
        ));
    }
}

/// Joining two query strings with `&` joins what they map to, and where both
/// give a key, the second one's value wins: a key given more than once keeps
/// its last value.
pub proof fn lemma_parse_query_join(a: Seq<char>, b: Seq<char>)
    ensures
        parse_query(a + seq!['&'] + b) == parse_query(a).union_prefer_right(parse_query(b)),
{
    lemma_query_pairs_from_join(a, b, 0);
    lemma_pairs_to_map_concat(query_pairs_from(a, 0), query_pairs_from(b, 0));
}

/// The parsed query string; a key that came twice keeps its last value.
#[derive(Debug)]
pub struct QueryString<'buf> {
    data: Vec<(&'buf str, &'buf str)>,
}

impl<'buf> QueryString<'buf> {
    /// The pairs in the order in which they came.
    pub closed spec fn pairs(&self) -> Seq<PairView> {
        self.data@.map_values(|p: (&'buf str, &'buf str)| (p.0@, p.1@))
    }
}

impl<'buf> View for QueryString<'buf> {
    type V = Map<Seq<char>, Seq<char>>;

    closed spec fn view(&self) -> Map<Seq<char>, Seq<char>> {
        pairs_to_map(self.pairs())
    }
}

impl<'buf> QueryString<'buf> {
    /// The value of `key`, if the query string has it.
    pub fn get(&self, key: &str) -> (r: Option<&'buf str>)
        ensures
            match r {
                Some(v) => self@.contains_key(key@) && self@[key@] == v@,
                None => !self@.contains_key(key@),
            },
    {
        let ghost pv = self.pairs();
        let ghost k = key@;
        let mut j = self.data.len();
        assert(pv.take(j as int) =~= pv);
        while j > 0
            invariant
                j <= self.data@.len(),
                pv == self.pairs(),
                pv.len() == self.data@.len(),
                k == key@,
                pairs_to_map(pv).contains_key(k) == pairs_to_map(pv.take(j as int)).contains_key(
                    k,
                ),
                pairs_to_map(pv.take(j as int)).contains_key(k) ==> pairs_to_map(pv)[k]
                    == pairs_to_map(pv.take(j as int))[k],
            decreases j,
        {
            let (name, value) = self.data[j - 1];
            assert(pv.take(j as int).drop_last() =~= pv.take(j - 1));
            assert(pv.take(j as int).last() == pv[j - 1]);
            if str_eq(name, key) {
                return Some(value);
            }
            j = j - 1;
        }
        assert(pv.take(0) =~= Seq::<PairView>::empty());
        None
    }

    /// Parses a query string.
    pub fn from(s: &'buf str) -> (r: QueryString<'buf>)
        ensures
            r.pairs() == query_pairs_from(s@, 0),
            r@ == parse_query(s@),
    {
        let v = chars_of(s);
        let mut data: Vec<(&'buf str, &'buf str)> = Vec::new();
        let mut i: usize = 0;
        loop
            invariant
                v@ == s@,
                i <= v@.len(),
                query_pairs_from(v@, 0) == (QueryString { data }).pairs() + query_pairs_from(
                    v@,
                    i as int,
                ),
            decreases v@.len() - i,
        {
            let ghost before = (QueryString { data }).pairs();
            let amp = find_char(&v, '&', i);
            proof {
                lemma_find_char_from_bounds(v@, '&', i as int);
            }
            let end = match amp {
                Some(e) => e,
                None => v.len(),
            };
            let ghost piece = v@.subrange(i as int, end as int);
            if end > i {
                let (key, value) = match find_char_in(&v, '=', i, end) {
                    Some(eq) => {
                        proof {
                            lemma_find_char_from_bounds(piece, '=', 0);
                        }
                        assert(piece.take(eq - i) =~= v@.subrange(i as int, eq as int));
                        assert(piece.skip(eq - i + 1) =~= v@.subrange(eq + 1, end as int));
                        let key = s.substring_char(i, eq);
                        let value = s.substring_char(eq + 1, end);
                        assert((key@, value@) == query_pair(piece));
                        (key, value)
                    },
                    None => {
                        let key = s.substring_char(i, end);
                        let value = s.substring_char(end, end);
                        assert(value@ =~= Seq::<char>::empty());
                        assert((key@, value@) == query_pair(piece));
                        (key, value)
                    },
                };
                data.push((key, value));
                assert((QueryString { data }).pairs() =~= before.push((key@, value@)));
                assert((QueryString { data }).pairs() =~= before + seq![query_pair(piece)]);
            } else {
                assert((QueryString { data }).pairs() =~= before + Seq::<PairView>::empty());
            }
            let ghost after = (QueryString { data }).pairs();
            match amp {
                None => {
                    assert(before + query_pairs_from(v@, i as int) =~= after);
                    return QueryString { data };
                },
                Some(e) => {
                    assert(before + query_pairs_from(v@, i as int) =~= after + query_pairs_from(
                        v@,
                        e + 1,
                    ));
                    i = e + 1;
                },
            }
        }
    }
}

} // verus!
