//! The query language: a CID, a Stitch, an index (counted back from the
//! latest when negative), or an inclusive index range.
//!
//! ```text
//! <cid>
//! <strand_cid>:<tixel_cid>
//! <strand_cid>:<signed_index>        (-1 is the latest)
//! <strand_cid>:latest
//! <strand_cid>:<signed_index>:<signed_index>
//! ```
use vstd::prelude::*;
use vstd::string::{StrSliceExecFns, StringExecFns};
use crate::errors::ApiError;

verus! {

/// A query for one Twine.
pub enum Query {
    /// The Tixel `tixel` of the chain of `strand`.
    Stitch { strand: String, tixel: String },
    /// The Tixel at an index; a negative index counts back from the latest.
    Index(String, i64),
    /// The latest Tixel of the chain.
    Latest(String),
}

/// An inclusive range of indices in one chain; a negative endpoint counts
/// back from the latest. The order of the endpoints gives the direction.
pub struct RangeQuery {
    pub strand: String,
    pub start: i64,
    pub end: i64,
}

/// Any query of the language.
pub enum GeneralQuery {
    Cid(String),
    Query(Query),
    Range(RangeQuery),
}

/// A range with both endpoints resolved to indices.
pub struct AbsoluteRange {
    pub strand: String,
    pub start: u64,
    pub end: u64,
}

pub open spec fn is_digit(c: char) -> bool {
    '0' <= c <= '9'
}

pub open spec fn all_digits(t: Seq<char>) -> bool {
    forall|i: int| 0 <= i < t.len() ==> is_digit(#[trigger] t[i])
}

/// The value of a string of decimal digits.
pub open spec fn digits_value(t: Seq<char>) -> int
    decreases t.len(),
{
    if t.len() == 0 {
        0
    } else {
        digits_value(t.drop_last()) * 10 + (t.last() as int - '0' as int)
    }
}

pub open spec fn max_index() -> int {
    0x7fff_ffff_ffff_ffff
}

/// A signed decimal index: an optional `-` and one or more digits, of
/// magnitude at most the largest `i64`.
pub open spec fn signed_index(t: Seq<char>) -> Option<int> {
    let neg = t.len() > 0 && t[0] == '-';
    let digits = if neg { t.drop_first() } else { t };
    if digits.len() > 0 && all_digits(digits) && digits_value(digits) <= max_index() {
        Some(if neg { -digits_value(digits) } else { digits_value(digits) })
    } else {
        None
    }
}

/// Text that can only be an index, never a CID.
pub open spec fn index_like(t: Seq<char>) -> bool {
    t.len() > 0 && (t[0] == '-' || is_digit(t[0]))
}

/// The position of the first `:` at or after `from`, or the length where
/// there is none.
pub open spec fn next_colon(s: Seq<char>, from: int) -> int
    decreases s.len() - from,
{
    if from >= s.len() {
        s.len() as int
    } else if s[from] == ':' {
        from
    } else {
        next_colon(s, from + 1)
    }
}

pub open spec fn view_query(q: Query) -> (int, Seq<char>, Seq<char>, int) {
    match q {
        Query::Stitch { strand, tixel } => (0, strand@, tixel@, 0),
        Query::Index(s, i) => (1, s@, Seq::empty(), i as int),
        Query::Latest(s) => (2, s@, Seq::empty(), 0),
    }
}

/// What a query for one Twine means, given its two parts.
pub open spec fn one_query_of(strand: Seq<char>, tail: Seq<char>) -> Option<(int, Seq<char>, Seq<char>, int)> {
    if strand.len() == 0 || tail.len() == 0 {
        None
    } else if tail == "latest"@ {
        Some((2, strand, Seq::empty(), 0))
    } else if index_like(tail) {
        match signed_index(tail) {
            Some(i) => Some((1, strand, Seq::empty(), i)),
            None => None,
        }
    } else {
        Some((0, strand, tail, 0))
    }
}

/// The parse of a query string: `None` where it is outside the grammar; else
/// a kind (0 a CID, 1 a single query, 2 a range) with its parts. The form is
/// chosen by the number of colons.
pub open spec fn parse_spec(s: Seq<char>) -> Option<(int, Seq<char>, Seq<char>, int, int, int)> {
    let n = s.len() as int;
    let p = next_colon(s, 0);
    let q = next_colon(s, p + 1);
    let z = next_colon(s, q + 1);
    if p == n {
        if n == 0 {
            None
        } else {
            Some((0, s, Seq::empty(), 0, 0, 0))
        }
    } else if q == n {
        match one_query_of(s.subrange(0, p), s.subrange(p + 1, n)) {
            Some(o) => Some((1, o.1, o.2, o.0, o.3, 0)),
            None => None,
        }
    } else if z == n {
        let strand = s.subrange(0, p);
        let a = signed_index(s.subrange(p + 1, q));
        let b = signed_index(s.subrange(q + 1, n));
        if strand.len() > 0 && a is Some && b is Some {
            Some((2, strand, Seq::empty(), 0, a->0, b->0))
        } else {
            None
        }
    } else {
        None
    }
}

/// The parse that a query value stands for, in the shape of `parse_spec`.
pub open spec fn view_general(g: GeneralQuery) -> (int, Seq<char>, Seq<char>, int, int, int) {
    match g {
        GeneralQuery::Cid(c) => (0, c@, Seq::empty(), 0, 0, 0),
        GeneralQuery::Query(q) => (1, view_query(q).1, view_query(q).2, view_query(q).0, view_query(q).3, 0),
        GeneralQuery::Range(r) => (2, r.strand@, Seq::empty(), 0, r.start as int, r.end as int),
    }
}

proof fn lemma_digits_value_nonneg(t: Seq<char>)
    requires
        all_digits(t),
    ensures
        digits_value(t) >= 0,
    decreases t.len(),
{
    if t.len() > 0 {
        assert(all_digits(t.drop_last())) by {
            assert forall|i: int| 0 <= i < t.drop_last().len() implies is_digit(#[trigger] t.drop_last()[i]) by {
                assert(t.drop_last()[i] == t[i]);
            }
        }
        lemma_digits_value_nonneg(t.drop_last());
        assert(is_digit(t[t.len() - 1]));
    }
}

/// A longer run of digits is worth at least as much as its prefix.
proof fn lemma_digits_value_prefix(t: Seq<char>, i: int, j: int)
    requires
        all_digits(t),
        0 <= i <= j <= t.len(),
    ensures
        digits_value(t.subrange(0, i)) <= digits_value(t.subrange(0, j)),
    decreases j - i,
{
    if i < j {
        lemma_digits_value_prefix(t, i, j - 1);
        let a = t.subrange(0, j);
        assert(a.drop_last() =~= t.subrange(0, j - 1));
        assert(all_digits(t.subrange(0, j - 1))) by {
            assert forall|k: int| 0 <= k < j - 1 implies is_digit(#[trigger] t.subrange(0, j - 1)[k]) by {
                assert(t.subrange(0, j - 1)[k] == t[k]);
            }
        }
        lemma_digits_value_nonneg(t.subrange(0, j - 1));
        assert(is_digit(t[j - 1]));
    }
}

/// Reads the decimal digits of `t` from position `from`; `None` where
/// there are none, a character is not a digit, or the value passes `limit`.
pub fn parse_digits(t: &str, from: usize, limit: u64) -> (r: Option<u64>)
    requires
        from <= t@.len(),
    ensures
        ({
            let d = t@.subrange(from as int, t@.len() as int);
            match r {
                Some(v) => d.len() > 0 && all_digits(d) && digits_value(d) == v && v <= limit,
                None => !(d.len() > 0 && all_digits(d) && digits_value(d) <= limit),
            }
        }),
{
    let n = t.unicode_len();
    let ghost d = t@.subrange(from as int, n as int);
    if from >= n {
        return None;
    }
    let mut acc: u64 = 0;
    let mut i: usize = from;
    while i < n
        invariant
            n == t@.len(),
            from <= i <= n,
            d == t@.subrange(from as int, n as int),
            all_digits(d.subrange(0, i - from)),
            acc as int == digits_value(d.subrange(0, i - from)),
            acc <= limit,
        decreases n - i,
    {
        let c = t.get_char(i);
        assert(d[i - from] == c);
        if !('0' <= c && c <= '9') {
            assert(!all_digits(d));
            return None;
        }
        let digit = (c as u32 - '0' as u32) as u64;
        let ghost pre = d.subrange(0, i - from);
        let ghost next = d.subrange(0, i - from + 1);
        assert(next.drop_last() =~= pre);
        assert(next.last() == c);
        assert(all_digits(next)) by {
            assert forall|k: int| 0 <= k < next.len() implies is_digit(#[trigger] next[k]) by {
                if k < next.len() - 1 {
                    assert(next[k] == pre[k]);
                }
            }
        }
        if digit > limit || acc > (limit - digit) / 10 {
            assert(digits_value(next) > limit) by (nonlinear_arith)
                requires
                    digits_value(next) == acc * 10 + digit,
                    digit > limit || acc > (limit - digit) / 10,
                    digit <= 9,
                    acc >= 0,
            ;
            proof {
                if all_digits(d) {
                    lemma_digits_value_prefix(d, i - from + 1, d.len() as int);
                    assert(d.subrange(0, d.len() as int) =~= d);
                }
            }
            return None;
        }
        assert(acc * 10 + digit <= limit) by (nonlinear_arith)
            requires
                digit <= limit,
                acc <= (limit - digit) / 10,
                digit <= 9,
        ;
        acc = acc * 10 + digit;
        i += 1;
    }
    assert(d.subrange(0, n - from) =~= d);
    Some(acc)
}

/// Reads a signed decimal index from position `from` of `t`.
fn parse_signed(t: &str, from: usize) -> (r: Option<i64>)
    requires
        from <= t@.len(),
    ensures
        match r {
            Some(v) => signed_index(t@.subrange(from as int, t@.len() as int)) == Some(v as int),
            None => signed_index(t@.subrange(from as int, t@.len() as int)) is None,
        },
{
    let n = t.unicode_len();
    let ghost tail = t@.subrange(from as int, n as int);
    if from < n && t.get_char(from) == '-' {
        assert(tail.drop_first() =~= t@.subrange(from + 1, n as int));
        match parse_digits(t, from + 1, 0x7fff_ffff_ffff_ffff) {
            Some(v) => Some(-(v as i64)),
            None => None,
        }
    } else {
        match parse_digits(t, from, 0x7fff_ffff_ffff_ffff) {
            Some(v) => Some(v as i64),
            None => None,
        }
    }
}

/// The position of the first `:` of `s` at or after `from`, or its length.
fn find_colon(s: &str, from: usize) -> (r: usize)
    requires
        from <= s@.len(),
    ensures
        r == next_colon(s@, from as int),
        from <= r <= s@.len(),
{
    let n = s.unicode_len();
    let mut i: usize = from;
    while i < n
        invariant
            n == s@.len(),
            from <= i <= n,
            next_colon(s@, from as int) == next_colon(s@, i as int),
        decreases n - i,
    {
        if s.get_char(i) == ':' {
            return i;
        }
        i += 1;
    }
    i
}

/// The part of a single query after the strand CID.
fn one_query(strand: String, tail: &str) -> (r: Option<Query>)
    ensures
        match r {
            Some(q) => one_query_of(strand@, tail@) == Some(view_query(q)),
            None => one_query_of(strand@, tail@) is None,
        },
{
    let n = tail.unicode_len();
    if strand.unicode_len() == 0 || n == 0 {
        return None;
    }
    let latest = String::from_str("latest");
    let t = String::from_str(tail);
    if t == latest {
        return Some(Query::Latest(strand));
    }
    let c = tail.get_char(0);
    if c == '-' || ('0' <= c && c <= '9') {
        assert(tail@.subrange(0, n as int) =~= tail@);
        match parse_signed(tail, 0) {
            Some(i) => Some(Query::Index(strand, i)),
            None => None,
        }
    } else {
        Some(Query::Stitch { strand, tixel: t })
    }
}

impl GeneralQuery {
    /// Parses a query string; `InvalidQuery` where it is outside the grammar.
    pub fn from_str(s: &str) -> (r: Result<GeneralQuery, ApiError>)
        ensures
            r is Ok <==> parse_spec(s@) is Some,
            r matches Ok(g) ==> Some(view_general(g)) == parse_spec(s@),
            r matches Err(e) ==> e is InvalidQuery,
    {
        let n = s.unicode_len();
        let p = find_colon(s, 0);
        if p == n {
            if n == 0 {
                return Err(ApiError::InvalidQuery(String::from_str("Empty query")));
            }
            return Ok(GeneralQuery::Cid(String::from_str(s)));
        }
        let q = find_colon(s, p + 1);
        let strand = String::from_str(s.substring_char(0, p));
        if q == n {
            return match one_query(strand, s.substring_char(p + 1, n)) {
                Some(one) => Ok(GeneralQuery::Query(one)),
                None => Err(ApiError::InvalidQuery(String::from_str("Invalid query"))),
            };
        }
        let z = find_colon(s, q + 1);
        if z != n {
            return Err(ApiError::InvalidQuery(String::from_str("Too many parts in query")));
        }
        let first = s.substring_char(p + 1, q);
        let last = s.substring_char(q + 1, n);
        assert(first@.subrange(0, first@.len() as int) =~= first@);
        assert(last@.subrange(0, last@.len() as int) =~= last@);
        let a = parse_signed(first, 0);
        let b = parse_signed(last, 0);
        match (a, b) {
            (Some(start), Some(end)) => {
                if strand.unicode_len() == 0 {
                    return Err(ApiError::InvalidQuery(String::from_str("Missing strand in range query")));
                }
                Ok(GeneralQuery::Range(RangeQuery { strand, start, end }))
            },
            _ => Err(ApiError::InvalidQuery(String::from_str("Invalid range query"))),
        }
    }
}

/// An index resolved against the latest index of its chain: a negative one
/// counts back, `-1` being the latest itself.
pub open spec fn abs_index(rel: int, latest: int) -> int {
    if rel >= 0 {
        rel
    } else {
        latest + 1 + rel
    }
}

/// The `k`-th index of a range walked from `start` to `end`.
pub open spec fn range_at(start: int, end: int, k: int) -> int {
    if start <= end {
        start + k
    } else {
        start - k
    }
}

pub open spec fn range_len(start: int, end: int) -> int {
    if start <= end {
        end - start + 1
    } else {
        start - end + 1
    }
}

/// Resolves an index against the latest index of its chain; `None` where it
/// counts back past the first.
pub fn resolve_index(rel: i64, latest: u64) -> (r: Option<u64>)
    ensures
        match r {
            Some(i) => abs_index(rel as int, latest as int) == i as int,
            None => abs_index(rel as int, latest as int) < 0,
        },
{
    if rel >= 0 {
        Some(rel as u64)
    } else {
        let back = (-(rel as i128)) as u64;
        if back <= latest {
            Some(latest - back + 1)
        } else if back == latest + 1 {
            Some(0)
        } else {
            None
        }
    }
}

impl RangeQuery {
    /// The range with both endpoints resolved against the latest index;
    /// `None` where one counts back past the first.
    pub fn to_absolute(&self, latest: u64) -> (r: Option<AbsoluteRange>)
        ensures
            match r {
                Some(a) => a.strand@ == self.strand@ && a.start as int == abs_index(
                    self.start as int,
                    latest as int,
                ) && a.end as int == abs_index(self.end as int, latest as int),
                None => abs_index(self.start as int, latest as int) < 0 || abs_index(
                    self.end as int,
                    latest as int,
                ) < 0,
            },
    {
        match (resolve_index(self.start, latest), resolve_index(self.end, latest)) {
            (Some(start), Some(end)) => Some(AbsoluteRange { strand: self.strand.clone(), start, end }),
            _ => None,
        }
    }
}

impl AbsoluteRange {
    pub fn lower(&self) -> (r: u64)
        ensures
            r == if self.start <= self.end { self.start } else { self.end },
    {
        if self.start <= self.end { self.start } else { self.end }
    }

    pub fn upper(&self) -> (r: u64)
        ensures
            r == if self.start <= self.end { self.end } else { self.start },
    {
        if self.start <= self.end { self.end } else { self.start }
    }

    /// Whether the range is walked upwards.
    pub fn is_increasing(&self) -> (r: bool)
        ensures
            r == (self.start <= self.end),
    {
        self.start <= self.end
    }

    /// The number of indices in the range, both ends included; saturates at
    /// the largest `u64`.
    pub fn len(&self) -> (r: u64)
        ensures
            range_len(self.start as int, self.end as int) <= u64::MAX ==> r == range_len(
                self.start as int,
                self.end as int,
            ),
            range_len(self.start as int, self.end as int) > u64::MAX ==> r == u64::MAX,
    {
        let d = self.upper() - self.lower();
        if d == u64::MAX { u64::MAX } else { d + 1 }
    }

    /// The `k`-th index of the range in its direction.
    pub fn index_at(&self, k: u64) -> (r: u64)
        requires
            k < range_len(self.start as int, self.end as int),
        ensures
            r == range_at(self.start as int, self.end as int, k as int),
    {
        if self.start <= self.end { self.start + k } else { self.start - k }
    }

    /// Splits the range into consecutive batches of `size` indices (the last
    /// may hold fewer), each walked in the range's direction.
    pub fn batches(&self, size: u64) -> (r: Vec<AbsoluteRange>)
        requires
            size > 0,
            range_len(self.start as int, self.end as int) <= u64::MAX,
        ensures
            ({
                let n = range_len(self.start as int, self.end as int);
                &&& (r@.len() - 1) * size < n <= r@.len() * size
                &&& forall|j: int|
                    0 <= j < r@.len() ==> (#[trigger] r@[j]).strand@ == self.strand@ && r@[j].start as int
                        == range_at(self.start as int, self.end as int, j * size) && r@[j].end as int
                        == range_at(
                        self.start as int,
                        self.end as int,
                        if (j + 1) * size < n {
                            (j + 1) * size
                        } else {
                            n
                        } - 1,
                    )
            }),
    {
        let ghost n_int = range_len(self.start as int, self.end as int);
        let n = self.upper() - self.lower() + 1;
        let mut r: Vec<AbsoluteRange> = Vec::new();
        let mut k: u64 = 0;
        assert(r@.len() * size == 0);
        while k < n
            invariant
                n == n_int,
                n as int == range_len(self.start as int, self.end as int),
                0 < size,
                k <= n,
                k < n ==> k as int == r@.len() * size,
                k == n ==> (r@.len() - 1) * size < n <= r@.len() * size,
                forall|j: int|
                    0 <= j < r@.len() ==> (#[trigger] r@[j]).strand@ == self.strand@ && r@[j].start as int
                        == range_at(self.start as int, self.end as int, j * size) && r@[j].end as int
                        == range_at(
                        self.start as int,
                        self.end as int,
                        if (j + 1) * size < n {
                            (j + 1) * size
                        } else {
                            n as int
                        } - 1,
                    ),
            decreases n - k,
        {
            let m = if n - k <= size { n } else { k + size };
            let ghost j = r@.len() as int;
            assert(m as int == if (j + 1) * size < n { (j + 1) * size } else { n as int }) by (nonlinear_arith)
                requires
                    k as int == j * size,
                    m as int == if n - k <= size { n as int } else { k + size },
            ;
            let batch = AbsoluteRange { strand: self.strand.clone(), start: self.index_at(k), end: self.index_at(m - 1) };
            r.push(batch);
            proof {
                if m < n {
                    assert(m as int == r@.len() * size) by (nonlinear_arith)
                        requires
                            m as int == k + size,
                            k as int == j * size,
                            r@.len() == j + 1,
                    ;
                } else {
                    assert((r@.len() - 1) * size < n <= r@.len() * size) by (nonlinear_arith)
                        requires
                            k as int == j * size,
                            r@.len() == j + 1,
                            k < n,
                            n - k <= size,
                    ;
                }
            }
            k = m;
        }
        r
    }
}

} // verus!
