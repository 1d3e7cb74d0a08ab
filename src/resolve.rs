//! Query evaluation: resolving each form of the query language against the
//! store.
use vstd::prelude::*;
use vstd::string::StringExecFns;
use crate::block::{AnyBlock, Strand, StrandView, Tixel, TixelView, Twine};
use crate::errors::ApiError;
use crate::query::{
    AbsoluteRange, abs_index, parse_spec, view_general, range_at, range_len, view_query, GeneralQuery, Query, RangeQuery,
};
use crate::chain::lemma_reingest_stored;
use crate::store::{
    after_tixel, after_tixels, has_tixels_of, index_stored, is_latest, linked, store_wf, strand_stored, tixel_stored,
    D1Store, StoreView,
};

verus! {

/// What a query returns: a Strand, one Twine, or a list of Twines.
pub enum QueryResult {
    Strand(Strand),
    Twine(Twine),
    List(Vec<Twine>),
}

/// The latest index of a chain that holds Tixels.
pub open spec fn latest_of(tx: Seq<TixelView>, strand: Seq<char>) -> u64 {
    choose|n: u64| is_latest(tx, strand, n)
}

/// An index of a query resolved against the store; `None` where it counts
/// back past the first Tixel or into an empty chain.
pub open spec fn resolved(v: StoreView, strand: Seq<char>, rel: int) -> Option<int> {
    if rel >= 0 {
        Some(rel)
    } else if has_tixels_of(v.tixels, strand) && abs_index(rel, latest_of(v.tixels, strand) as int) >= 0 {
        Some(abs_index(rel, latest_of(v.tixels, strand) as int))
    } else {
        None
    }
}

pub open spec fn stored_strand(v: StoreView, s: StrandView) -> bool {
    exists|i: int| 0 <= i < v.strands.len() && (#[trigger] v.strands[i]).strand == s
}

pub open spec fn stored_tixel(v: StoreView, t: TixelView) -> bool {
    exists|i: int| 0 <= i < v.tixels.len() && (#[trigger] v.tixels[i]) == t
}

/// A single query (in the shape of `view_query`) has an answer in `v`.
pub open spec fn one_ok(v: StoreView, q: (int, Seq<char>, Seq<char>, int)) -> bool {
    &&& strand_stored(v.strands, q.1)
    &&& if q.0 == 0 {
        exists|i: int|
            0 <= i < v.tixels.len() && (#[trigger] v.tixels[i]).cid == q.2 && v.tixels[i].strand_cid
                == q.1
    } else if q.0 == 1 {
        resolved(v, q.1, q.3) matches Some(k) && index_stored(v.tixels, q.1, k)
    } else {
        has_tixels_of(v.tixels, q.1)
    }
}

/// A Stitch query names a stored Strand and a stored Tixel of another chain.
pub open spec fn stitch_mismatch(v: StoreView, q: (int, Seq<char>, Seq<char>, int)) -> bool {
    &&& q.0 == 0
    &&& strand_stored(v.strands, q.1)
    &&& tixel_stored(v.tixels, q.2)
    &&& !one_ok(v, q)
}

/// The pair (`s`, `t`) answers the single query `q` in `v`.
pub open spec fn one_answer(
    v: StoreView,
    q: (int, Seq<char>, Seq<char>, int),
    s: StrandView,
    t: TixelView,
) -> bool {
    &&& stored_strand(v, s)
    &&& stored_tixel(v, t)
    &&& s.cid == q.1
    &&& t.strand_cid == q.1
    &&& if q.0 == 0 {
        t.cid == q.2
    } else if q.0 == 1 {
        resolved(v, q.1, q.3) == Some(t.index as int)
    } else {
        is_latest(v.tixels, q.1, t.index)
    }
}

/// A range query whose chain is empty, or whose endpoints count back past
/// the first Tixel, has the empty answer.
pub open spec fn range_empty(v: StoreView, strand: Seq<char>, start: int, end: int) -> bool {
    resolved(v, strand, start) is None || resolved(v, strand, end) is None || (start >= 0 && end >= 0
        && !has_tixels_of(v.tixels, strand))
}

/// A range larger than the store's batch bound.
pub open spec fn range_too_large(v: StoreView, strand: Seq<char>, start: int, end: int) -> bool {
    !range_empty(v, strand, start, end) && range_len(
        resolved(v, strand, start)->0,
        resolved(v, strand, end)->0,
    ) > v.max_batch_size
}

/// A range that reaches past the latest index.
pub open spec fn range_past_latest(v: StoreView, strand: Seq<char>, start: int, end: int) -> bool {
    !range_empty(v, strand, start, end) && !range_too_large(v, strand, start, end) && !(
    index_stored(v.tixels, strand, resolved(v, strand, start)->0) && index_stored(
        v.tixels,
        strand,
        resolved(v, strand, end)->0,
    ))
}

/// `l` answers the range query in `v`: one Twine per index of the range, in
/// the range's direction, or nothing where the range is empty.
pub open spec fn range_answer(v: StoreView, strand: Seq<char>, start: int, end: int, l: Seq<Twine>) -> bool {
    if range_empty(v, strand, start, end) {
        l.len() == 0
    } else {
        let a = resolved(v, strand, start)->0;
        let b = resolved(v, strand, end)->0;
        &&& l.len() == range_len(a, b)
        &&& forall|k: int|
            0 <= k < l.len() ==> stored_strand(v, (#[trigger] l[k]).strand@) && l[k].strand@.cid
                == strand && stored_tixel(v, l[k].tixel@) && l[k].tixel@.strand_cid == strand
                && l[k].tixel@.index == range_at(a, b, k)
    }
}

/// `r` is the answer to the parsed query `p` (in the shape of `parse_spec`).
pub open spec fn general_result(
    v: StoreView,
    p: (int, Seq<char>, Seq<char>, int, int, int),
    r: Result<QueryResult, ApiError>,
) -> bool {
    if p.0 == 0 {
        cid_result(v, p.1, r)
    } else if p.0 == 1 {
        one_result(v, (p.3, p.1, p.2, p.4), r)
    } else {
        range_result(v, p.1, p.4, p.5, r)
    }
}

/// `r` is the answer of the existence probe for the parsed query `p`.
pub open spec fn has_result(v: StoreView, p: (int, Seq<char>, Seq<char>, int, int, int), r: Result<bool, ApiError>) -> bool {
    if p.0 == 0 {
        r == Ok::<bool, ApiError>(strand_stored(v.strands, p.1) || tixel_stored(v.tixels, p.1))
    } else if p.0 == 1 {
        r == Ok::<bool, ApiError>(one_ok(v, (p.3, p.1, p.2, p.4)))
    } else {
        r matches Err(e) && e is InvalidQuery
    }
}

/// `r` is the answer to a query for the block with CID `cid`: the Strand of
/// that CID, else the Tixel paired with its Strand, else `NotFound`.
pub open spec fn cid_result(v: StoreView, cid: Seq<char>, r: Result<QueryResult, ApiError>) -> bool {
    &&& r is Ok <==> strand_stored(v.strands, cid) || tixel_stored(v.tixels, cid)
    &&& r matches Ok(QueryResult::Strand(s)) ==> s@.cid == cid && stored_strand(v, s@)
    &&& r matches Ok(QueryResult::Twine(tw)) ==> !strand_stored(v.strands, cid) && tw.tixel@.cid
        == cid && stored_tixel(v, tw.tixel@) && stored_strand(v, tw.strand@) && tw.strand@.cid
        == tw.tixel@.strand_cid
    &&& !(r matches Ok(QueryResult::List(_)))
    &&& r matches Err(e) ==> e is NotFound
}

/// `r` is the answer to the single query `q`.
pub open spec fn one_result(
    v: StoreView,
    q: (int, Seq<char>, Seq<char>, int),
    r: Result<QueryResult, ApiError>,
) -> bool {
    &&& r is Ok <==> one_ok(v, q)
    &&& r is Ok ==> (r matches Ok(QueryResult::Twine(tw)) && one_answer(v, q, tw.strand@, tw.tixel@))
    &&& r matches Err(e) ==> if stitch_mismatch(v, q) {
        e is VerificationError
    } else {
        e is NotFound
    }
}

/// `r` is the answer to the range query (`strand`, `start`, `end`).
pub open spec fn range_result(
    v: StoreView,
    strand: Seq<char>,
    start: int,
    end: int,
    r: Result<QueryResult, ApiError>,
) -> bool {
    &&& r is Ok <==> !range_too_large(v, strand, start, end) && !range_past_latest(v, strand, start, end)
    &&& r is Ok ==> (r matches Ok(QueryResult::List(l)) && range_answer(v, strand, start, end, l@))
    &&& r matches Err(e) ==> if range_too_large(v, strand, start, end) {
        e matches ApiError::BadRequestData(m) && m@ == "Range size too large"@
    } else {
        e is NotFound
    }
}

/// The number of indices that one read of a range fetches at most.
pub const BATCH_SIZE: u64 = 1000;

/// The part of a range from its `a`-th to its `c - 1`-th index is itself a
/// range, walked the same way.
proof fn lemma_batch(s: int, e: int, a: int, c: int)
    requires
        0 <= a < c <= range_len(s, e),
        s >= 0,
        e >= 0,
    ensures
        range_len(range_at(s, e, a), range_at(s, e, c - 1)) == c - a,
        forall|t: int| 0 <= t < c - a ==> #[trigger] range_at(range_at(s, e, a), range_at(s, e, c - 1), t) == range_at(s, e, a + t),
{
}

/// Every index of a range lies between its endpoints.
proof fn lemma_range_at_bounds(s: int, e: int, k: int)
    requires
        0 <= k < range_len(s, e),
    ensures
        s <= e ==> s <= range_at(s, e, k) <= e,
        e < s ==> e <= range_at(s, e, k) <= s,
{
}

/// Every index of a chain up to a stored one is stored too.
pub proof fn lemma_dense(v: StoreView, strand: Seq<char>, m: int, k: int)
    requires
        store_wf(v),
        index_stored(v.tixels, strand, m),
        0 <= k <= m,
    ensures
        index_stored(v.tixels, strand, k),
    decreases m - k,
{
    if k < m {
        let i = choose|i: int|
            0 <= i < v.tixels.len() && (#[trigger] v.tixels[i]).strand_cid == strand && v.tixels[i].index == m;
        assert(linked(v.tixels, v.tixels[i]));
        let j = choose|j: int|
            0 <= j < v.tixels.len() && crate::store::is_parent(#[trigger] v.tixels[j], v.tixels[i]);
        assert(v.tixels[j].strand_cid == strand && v.tixels[j].index == m - 1);
        lemma_dense(v, strand, m - 1, k);
    }
}

/// Against a chain whose latest index is `latest`, an index of a query
/// resolves as `abs_index` says, where that is not negative.
proof fn lemma_resolved_at(v: StoreView, strand: Seq<char>, latest: u64, rel: int)
    requires
        is_latest(v.tixels, strand, latest),
    ensures
        has_tixels_of(v.tixels, strand),
        resolved(v, strand, rel) == if abs_index(rel, latest as int) >= 0 {
            Some(abs_index(rel, latest as int))
        } else {
            None::<int>
        },
{
    lemma_latest_unique(v.tixels, strand, latest);
    let i = choose|i: int|
        0 <= i < v.tixels.len() && (#[trigger] v.tixels[i]).strand_cid == strand && v.tixels[i].index == latest;
    assert(v.tixels[i].strand_cid == strand);
}

proof fn lemma_latest_unique(tx: Seq<TixelView>, strand: Seq<char>, n: u64)
    requires
        is_latest(tx, strand, n),
    ensures
        latest_of(tx, strand) == n,
{
    let m = latest_of(tx, strand);
    assert(is_latest(tx, strand, m));
    let i = choose|i: int| 0 <= i < tx.len() && (#[trigger] tx[i]).strand_cid == strand && tx[i].index == n;
    let j = choose|j: int| 0 <= j < tx.len() && (#[trigger] tx[j]).strand_cid == strand && tx[j].index == m;
    assert(tx[i].index <= m && tx[j].index <= n);
}

/// A chain that holds Tixels has a latest index.
pub proof fn lemma_latest_exists(tx: Seq<TixelView>, strand: Seq<char>)
    requires
        has_tixels_of(tx, strand),
    ensures
        is_latest(tx, strand, latest_of(tx, strand)),
    decreases tx.len(),
{
    let pre = tx.drop_last();
    let last = tx[tx.len() - 1];
    let w: u64;
    if has_tixels_of(pre, strand) {
        lemma_latest_exists(pre, strand);
        let n = latest_of(pre, strand);
        let j = choose|j: int| 0 <= j < pre.len() && (#[trigger] pre[j]).strand_cid == strand && pre[j].index == n;
        assert(tx[j] == pre[j]);
        if last.strand_cid == strand && last.index > n {
            w = last.index;
        } else {
            w = n;
        }
        assert forall|i: int| 0 <= i < tx.len() && (#[trigger] tx[i]).strand_cid == strand implies tx[i].index <= w by {
            if i < pre.len() {
                assert(tx[i] == pre[i]);
            }
        }
    } else {
        let i = choose|i: int| 0 <= i < tx.len() && (#[trigger] tx[i]).strand_cid == strand;
        if i < pre.len() {
            assert(pre[i] == tx[i]);
        }
        w = last.index;
        assert forall|k: int| 0 <= k < tx.len() && (#[trigger] tx[k]).strand_cid == strand implies tx[k].index <= w by {
            if k < pre.len() {
                assert(pre[k] == tx[k]);
            }
        }
    }
    assert(is_latest(tx, strand, w));
}

/// Index `-1` names the latest Tixel: a query for it has no answer on an
/// empty chain, and otherwise its answer is the Tixel with the highest index.
pub proof fn lemma_index_minus_one(v: StoreView, strand: Seq<char>, s: StrandView, t: TixelView)
    requires
        strand_stored(v.strands, strand),
    ensures
        one_ok(v, (1, strand, Seq::empty(), -1)) <==> has_tixels_of(v.tixels, strand),
        one_answer(v, (1, strand, Seq::empty(), -1), s, t) ==> is_latest(v.tixels, strand, t.index),
{
    if has_tixels_of(v.tixels, strand) {
        lemma_latest_exists(v.tixels, strand);
        let n = latest_of(v.tixels, strand);
        assert(resolved(v, strand, -1) == Some(n as int));
    }
}

/// Sending back the Tixels of a range answer changes nothing: every one of
/// them is stored.
pub proof fn lemma_reingest_range_answer(v: StoreView, strand: Seq<char>, start: int, end: int, l: Seq<Twine>)
    requires
        range_answer(v, strand, start, end, l),
    ensures
        after_tixels(v, l.map_values(|tw: Twine| tw.tixel@)) == v,
{
    let ts = l.map_values(|tw: Twine| tw.tixel@);
    assert forall|i: int| 0 <= i < ts.len() implies tixel_stored(v.tixels, (#[trigger] ts[i]).cid) by {
        assert(ts[i] == l[i].tixel@);
        assert(stored_tixel(v, l[i].tixel@));
        let k = choose|k: int| 0 <= k < v.tixels.len() && (#[trigger] v.tixels[k]) == l[i].tixel@;
        assert(v.tixels[k].cid == ts[i].cid);
    }
    lemma_reingest_stored(v, ts);
}

/// Sending back the Tixel of a single answer changes nothing.
pub proof fn lemma_reingest_one_answer(v: StoreView, q: (int, Seq<char>, Seq<char>, int), s: StrandView, t: TixelView)
    requires
        one_answer(v, q, s, t),
    ensures
        after_tixel(v, t) == v,
{
    let k = choose|k: int| 0 <= k < v.tixels.len() && (#[trigger] v.tixels[k]) == t;
    assert(v.tixels[k].cid == t.cid);
}

impl D1Store {
    /// Resolves an index of a query; `NotFound` where it counts back past
    /// the first Tixel or into an empty chain.
    fn resolve(&self, strand: &String, rel: i64) -> (r: Result<u64, ApiError>)
        ensures
            r is Ok <==> resolved(self@, strand@, rel as int) is Some,
            r matches Ok(k) ==> resolved(self@, strand@, rel as int) == Some(k as int),
            r matches Err(e) ==> e is NotFound,
    {
        if rel >= 0 {
            return Ok(rel as u64);
        }
        match self.latest_index(strand) {
            Ok(latest) => {
                proof {
                    lemma_latest_unique(self@.tixels, strand@, latest);
                }
                match crate::query::resolve_index(rel, latest) {
                    Some(k) => Ok(k),
                    None => Err(ApiError::NotFound),
                }
            },
            Err(e) => Err(e),
        }
    }

    /// Evaluates a query for one Twine. `NotFound` where the Strand or the
    /// Tixel is absent; `VerificationError` where a Stitch pairs a Strand
    /// with a Tixel of another chain.
    pub fn twine_query(&self, q: &Query) -> (r: Result<Twine, ApiError>)
        requires
            self.wf(),
        ensures
            r is Ok <==> one_ok(self@, view_query(*q)),
            r matches Ok(tw) ==> one_answer(self@, view_query(*q), tw.strand@, tw.tixel@),
            r matches Err(e) ==> if stitch_mismatch(self@, view_query(*q)) {
                e is VerificationError
            } else {
                e is NotFound
            },
    {
        match q {
            Query::Stitch { strand, tixel } => {
                let s = self.get_strand(strand)?;
                let t = self.get_tixel(tixel)?;
                let ghost tv = t@;
                let r = Twine::try_new(s, t);
                proof {
                    let i = choose|i: int| 0 <= i < self@.tixels.len() && (#[trigger] self@.tixels[i]) == tv;
                    if one_ok(self@, view_query(*q)) {
                        let j = choose|j: int|
                            0 <= j < self@.tixels.len() && (#[trigger] self@.tixels[j]).cid == tixel@
                                && self@.tixels[j].strand_cid == strand@;
                        if i != j {
                            assert(self@.tixels[i].cid != self@.tixels[j].cid);
                        }
                    }
                }
                r
            },
            Query::Index(strand, rel) => {
                let s = self.get_strand(strand)?;
                let k = self.resolve(strand, *rel)?;
                let t = self.get_by_index(strand, k)?;
                Twine::try_new(s, t)
            },
            Query::Latest(strand) => {
                let s = self.get_strand(strand)?;
                let t = self.latest(strand)?;
                Twine::try_new(s, t)
            },
        }
    }

    /// One Twine per index of `range`, in its direction, read in batches of
    /// `BATCH_SIZE` indices; every index is at most `latest`, the latest
    /// index of the chain.
    fn range_stream(&self, strand: &Strand, range: &AbsoluteRange, latest: u64) -> (r: Vec<Twine>)
        requires
            self.wf(),
            is_latest(self@.tixels, range.strand@, latest),
            range.start <= latest,
            range.end <= latest,
            strand@.cid == range.strand@,
            stored_strand(self@, strand@),
            range_len(range.start as int, range.end as int) <= self@.max_batch_size,
        ensures
            r@.len() == range_len(range.start as int, range.end as int),
            forall|j: int|
                0 <= j < r@.len() ==> stored_strand(self@, (#[trigger] r@[j]).strand@) && r@[j].strand@.cid
                    == range.strand@ && stored_tixel(self@, r@[j].tixel@) && r@[j].tixel@.strand_cid
                    == range.strand@ && r@[j].tixel@.index == range_at(range.start as int, range.end as int, j),
    {
        let ghost v = self@;
        let ghost s = range.start as int;
        let ghost e = range.end as int;
        let ghost n = range_len(s, e);
        let batches = range.batches(BATCH_SIZE);
        let ghost len = batches@.len() as int;
        let mut out: Vec<Twine> = Vec::new();
        let mut j: usize = 0;
        while j < batches.len()
            invariant
                self@ == v,
                self.wf(),
                is_latest(v.tixels, range.strand@, latest),
                range.start <= latest,
                range.end <= latest,
                s == range.start as int,
                e == range.end as int,
                n == range_len(s, e),
                strand@.cid == range.strand@,
                stored_strand(v, strand@),
                len == batches@.len(),
                (len - 1) * BATCH_SIZE < n <= len * BATCH_SIZE,
                forall|q: int|
                    0 <= q < len ==> (#[trigger] batches@[q]).strand@ == range.strand@ && batches@[q].start as int
                        == range_at(s, e, q * BATCH_SIZE) && batches@[q].end as int == range_at(
                        s,
                        e,
                        if (q + 1) * BATCH_SIZE < n {
                            (q + 1) * BATCH_SIZE
                        } else {
                            n
                        } - 1,
                    ),
                j <= len,
                out@.len() == if j * BATCH_SIZE < n {
                    j * BATCH_SIZE
                } else {
                    n
                },
                forall|q: int|
                    0 <= q < out@.len() ==> stored_strand(v, (#[trigger] out@[q]).strand@) && out@[q].strand@.cid
                        == range.strand@ && stored_tixel(v, out@[q].tixel@) && out@[q].tixel@.strand_cid
                        == range.strand@ && out@[q].tixel@.index == range_at(s, e, q),
            decreases len - j,
        {
            let b = &batches[j];
            let ghost a = j * BATCH_SIZE;
            let ghost c = if (j + 1) * BATCH_SIZE < n { (j + 1) * BATCH_SIZE } else { n };
            assert(a < n && a < c && c <= n && c - a <= BATCH_SIZE) by (nonlinear_arith)
                requires
                    a == j * BATCH_SIZE,
                    c == if (j + 1) * BATCH_SIZE < n { (j + 1) * BATCH_SIZE } else { n },
                    j < len,
                    (len - 1) * BATCH_SIZE < n,
            ;
            proof {
                lemma_batch(s, e, a, c);
            }
            let bn = b.upper() - b.lower() + 1;
            let mut p: u64 = 0;
            while p < bn
                invariant
                    self@ == v,
                    self.wf(),
                    is_latest(v.tixels, range.strand@, latest),
                    range.start <= latest,
                    range.end <= latest,
                    s == range.start as int,
                    e == range.end as int,
                    strand@.cid == range.strand@,
                    stored_strand(v, strand@),
                    b.strand@ == range.strand@,
                    bn as int == c - a,
                    range_len(b.start as int, b.end as int) == c - a,
                    forall|t: int| 0 <= t < c - a ==> #[trigger] range_at(b.start as int, b.end as int, t) == range_at(s, e, a + t),
                    n == range_len(s, e),
                    0 <= a,
                    c <= n,
                    p <= bn,
                    out@.len() == a + p,
                    forall|q: int|
                        0 <= q < out@.len() ==> stored_strand(v, (#[trigger] out@[q]).strand@) && out@[q].strand@.cid
                            == range.strand@ && stored_tixel(v, out@[q].tixel@) && out@[q].tixel@.strand_cid
                            == range.strand@ && out@[q].tixel@.index == range_at(s, e, q),
                decreases bn - p,
            {
                let idx = b.index_at(p);
                assert(idx == range_at(s, e, a + p));
                proof {
                    lemma_range_at_bounds(s, e, a + p);
                    lemma_dense(v, range.strand@, latest as int, idx as int);
                }
                match self.get_by_index(&range.strand, idx) {
                    Ok(t) => match Twine::try_new(strand.duplicate(), t) {
                        Ok(tw) => {
                            out.push(tw);
                        },
                        Err(_) => {},
                    },
                    Err(_) => {},
                }
                p += 1;
            }
            assert(out@.len() == if (j + 1) * BATCH_SIZE < n { (j + 1) * BATCH_SIZE } else { n });
            j += 1;
        }
        assert(out@.len() == n) by (nonlinear_arith)
            requires
                out@.len() == if j * BATCH_SIZE < n { j * BATCH_SIZE } else { n },
                j == len,
                n <= len * BATCH_SIZE,
        ;
        out
    }

    /// Evaluates a range query: one Twine per index of the range, in the
    /// range's direction. Empty where the chain is empty or an endpoint
    /// counts back past the first Tixel; `BadRequestData` where the range
    /// holds more than the batch bound (nothing is returned); `NotFound`
    /// where it reaches past the latest index.
    pub fn range_query(&self, q: &RangeQuery) -> (r: Result<Vec<Twine>, ApiError>)
        requires
            self.wf(),
        ensures
            r is Ok <==> !range_too_large(self@, q.strand@, q.start as int, q.end as int)
                && !range_past_latest(self@, q.strand@, q.start as int, q.end as int),
            r matches Ok(l) ==> range_answer(self@, q.strand@, q.start as int, q.end as int, l@),
            r matches Err(e) ==> if range_too_large(self@, q.strand@, q.start as int, q.end as int) {
                e matches ApiError::BadRequestData(m) && m@ == "Range size too large"@
            } else {
                e is NotFound
            },
    {
        let ghost v = self@;
        let latest = match self.latest_index(&q.strand) {
            Ok(n) => n,
            Err(_) => {
                return Ok(Vec::new());
            },
        };
        proof {
            lemma_resolved_at(v, q.strand@, latest, q.start as int);
            lemma_resolved_at(v, q.strand@, latest, q.end as int);
        }
        let range = match q.to_absolute(latest) {
            Some(a) => a,
            None => {
                return Ok(Vec::new());
            },
        };
        if range.upper() - range.lower() >= self.max_batch_size() {
            return Err(ApiError::BadRequestData(String::from_str("Range size too large")));
        }
        if range.upper() > latest {
            proof {
                if index_stored(v.tixels, q.strand@, range.start as int) && index_stored(
                    v.tixels,
                    q.strand@,
                    range.end as int,
                ) {
                    let m = if range.start <= range.end { range.end } else { range.start };
                    let i = choose|i: int|
                        0 <= i < v.tixels.len() && (#[trigger] v.tixels[i]).strand_cid == q.strand@
                            && v.tixels[i].index == m;
                    assert(v.tixels[i].index <= latest);
                }
            }
            return Err(ApiError::NotFound);
        }
        proof {
            lemma_dense(v, q.strand@, latest as int, range.start as int);
            lemma_dense(v, q.strand@, latest as int, range.end as int);
        }
        let strand = match self.get_strand(&q.strand) {
            Ok(s) => s,
            Err(e) => {
                proof {
                    let i = choose|i: int|
                        0 <= i < v.tixels.len() && (#[trigger] v.tixels[i]).strand_cid == q.strand@
                            && v.tixels[i].index == latest;
                    assert(strand_stored(v.strands, v.tixels[i].strand_cid));
                }
                return Err(e);
            },
        };
        Ok(self.range_stream(&strand, &range, latest))
    }

    /// Evaluates a parsed query. A CID names a Strand, else a Tixel, which
    /// is paired with its Strand.
    pub fn exec_general(&self, g: &GeneralQuery) -> (r: Result<QueryResult, ApiError>)
        requires
            self.wf(),
        ensures
            general_result(self@, view_general(*g), r),
    {
        match g {
            GeneralQuery::Cid(cid) => match self.get_by_cid(&cid) {
                Ok(AnyBlock::Strand(s)) => Ok(QueryResult::Strand(s)),
                Ok(AnyBlock::Tixel(t)) => {
                    let ghost tv = t@;
                    proof {
                        let i = choose|i: int| 0 <= i < self@.tixels.len() && (#[trigger] self@.tixels[i]) == tv;
                        assert(strand_stored(self@.strands, self@.tixels[i].strand_cid));
                    }
                    match self.upcast(t) {
                        Ok(tw) => Ok(QueryResult::Twine(tw)),
                        Err(e) => Err(e),
                    }
                },
                Err(e) => Err(e),
            },
            GeneralQuery::Query(q) => match self.twine_query(&q) {
                Ok(tw) => Ok(QueryResult::Twine(tw)),
                Err(e) => Err(e),
            },
            GeneralQuery::Range(rq) => match self.range_query(&rq) {
                Ok(l) => Ok(QueryResult::List(l)),
                Err(e) => Err(e),
            },
        }
    }

    /// Evaluates any query of the language. `InvalidQuery` where the string
    /// is outside the grammar. A CID names a Strand, else a Tixel, which is
    /// paired with its Strand.
    pub fn exec_query(&self, query: &str) -> (r: Result<QueryResult, ApiError>)
        requires
            self.wf(),
        ensures
            match parse_spec(query@) {
                None => r matches Err(e) && e is InvalidQuery,
                Some(p) => general_result(self@, p, r),
            },
    {
        let g = GeneralQuery::from_str(query)?;
        self.exec_general(&g)
    }

    /// The existence probe of a parsed single-item query: whether it has an
    /// answer. `InvalidQuery` for a range query.
    pub fn has_general(&self, g: &GeneralQuery) -> (r: Result<bool, ApiError>)
        requires
            self.wf(),
        ensures
            has_result(self@, view_general(*g), r),
    {
        match g {
            GeneralQuery::Cid(cid) => Ok(self.has_cid(cid)),
            GeneralQuery::Query(q) => Ok(self.twine_query(q).is_ok()),
            GeneralQuery::Range(_) => Err(
                ApiError::InvalidQuery(String::from_str("May only call HEAD for queries of a single item")),
            ),
        }
    }

    /// The existence probe of a single-item query: whether it has an answer.
    /// `InvalidQuery` for a range query, or a string outside the grammar.
    pub fn has(&self, query: &str) -> (r: Result<bool, ApiError>)
        requires
            self.wf(),
        ensures
            match parse_spec(query@) {
                None => r matches Err(e) && e is InvalidQuery,
                Some(p) => has_result(self@, p, r),
            },
    {
        let g = GeneralQuery::from_str(query)?;
        self.has_general(&g)
    }
}

} // verus!
