//! What appending does to whole chains: a chain sent in order is stored
//! whole, sent in any other order it leaves a contiguous prefix, and sending
//! stored blocks again changes nothing.
use vstd::prelude::*;
use crate::block::{StrandView, TixelView};
use crate::ingest::sorted_by_index;
use crate::store::{
    accepts_tixel, after_strand, after_tixel, after_tixels, has_tixels_of, index_stored, linked,
    strand_stored, strand_writable, tixel_stored, StoreView,
};

verus! {

/// `ts` is a whole chain of `strand` whose CIDs are all different.
pub open spec fn distinct_chain(strand: Seq<char>, ts: Seq<TixelView>) -> bool {
    &&& forall|i: int| 0 <= i < ts.len() ==> (#[trigger] ts[i]).strand_cid == strand && ts[i].index == i
    &&& forall|i: int| 0 < i < ts.len() ==> (#[trigger] ts[i]).back == Some(ts[i - 1].cid)
    &&& forall|i: int, j: int| 0 <= i < ts.len() && 0 <= j < ts.len() && i != j ==> (#[trigger] ts[i]).cid != (#[trigger] ts[j]).cid
}

/// The store holds no Tixel of `strand` and none of the chain's CIDs.
pub open spec fn fresh_for(v: StoreView, strand: Seq<char>, ts: Seq<TixelView>) -> bool {
    &&& !has_tixels_of(v.tixels, strand)
    &&& forall|j: int| 0 <= j < ts.len() ==> !tixel_stored(v.tixels, (#[trigger] ts[j]).cid)
}

/// The Tixels of `strand` in `tx` are exactly the first `k` of the chain.
pub open spec fn holds_prefix(tx: Seq<TixelView>, strand: Seq<char>, ts: Seq<TixelView>, k: int) -> bool {
    &&& 0 <= k <= ts.len()
    &&& forall|i: int|
        0 <= i < tx.len() && (#[trigger] tx[i]).strand_cid == strand ==> exists|j: int| 0 <= j < k && tx[i] == ts[j]
    &&& forall|j: int| 0 <= j < k ==> tx.contains(#[trigger] ts[j])
    &&& forall|i: int, j: int|
        0 <= i < tx.len() && k <= j < ts.len() ==> (#[trigger] tx[i]).cid != (#[trigger] ts[j]).cid
}

/// Appending a stored Tixel changes nothing.
pub proof fn lemma_append_stored_tixel(v: StoreView, t: TixelView)
    requires
        tixel_stored(v.tixels, t.cid),
    ensures
        after_tixel(v, t) == v,
{
}

/// Saving a stored Strand changes nothing.
pub proof fn lemma_save_stored_strand(v: StoreView, s: StrandView)
    requires
        strand_stored(v.strands, s.cid),
    ensures
        after_strand(v, s) == v,
{
}

/// Sending again Tixels that are all stored, such as those of an earlier
/// answer, changes nothing.
pub proof fn lemma_reingest_stored(v: StoreView, ts: Seq<TixelView>)
    requires
        forall|i: int| 0 <= i < ts.len() ==> tixel_stored(v.tixels, (#[trigger] ts[i]).cid),
    ensures
        after_tixels(v, ts) == v,
    decreases ts.len(),
{
    if ts.len() > 0 {
        lemma_reingest_stored(v, ts.drop_last());
        assert(tixel_stored(v.tixels, ts[ts.len() - 1].cid));
    }
}

/// One append of a Tixel of the chain to a store that holds a prefix of it:
/// the next Tixel extends the prefix, any other changes nothing.
proof fn lemma_prefix_step(v: StoreView, strand: Seq<char>, ts: Seq<TixelView>, k: int, m: int)
    requires
        distinct_chain(strand, ts),
        holds_prefix(v.tixels, strand, ts, k),
        strand_writable(v.strands, strand),
        0 <= m < ts.len(),
    ensures
        holds_prefix(after_tixel(v, ts[m]).tixels, strand, ts, if m == k { k + 1 } else { k }),
        after_tixel(v, ts[m]).strands == v.strands,
{
    let t = ts[m];
    let tx = v.tixels;
    if m < k {
        assert(tx.contains(ts[m]));
        let i = choose|i: int| 0 <= i < tx.len() && tx[i] == ts[m];
        assert(tixel_stored(tx, t.cid));
    } else if m == k {
        assert(!tixel_stored(tx, t.cid)) by {
            if tixel_stored(tx, t.cid) {
                let i = choose|i: int| 0 <= i < tx.len() && (#[trigger] tx[i]).cid == t.cid;
                assert(tx[i].cid != ts[m].cid);
            }
        }
        assert(!index_stored(tx, strand, m)) by {
            if index_stored(tx, strand, m) {
                let i = choose|i: int| 0 <= i < tx.len() && (#[trigger] tx[i]).strand_cid == strand && tx[i].index == m;
                let j = choose|j: int| 0 <= j < k && tx[i] == ts[j];
                assert(ts[j].index == j);
            }
        }
        assert(linked(tx, t)) by {
            if t.index != 0 {
                assert(tx.contains(ts[m - 1]));
                let i = choose|i: int| 0 <= i < tx.len() && tx[i] == ts[m - 1];
                assert(crate::store::is_parent(tx[i], t));
            }
        }
        assert(accepts_tixel(v, t));
        let w = tx.push(t);
        assert(after_tixel(v, t).tixels == w);
        assert forall|i: int| 0 <= i < w.len() && (#[trigger] w[i]).strand_cid == strand implies exists|j: int|
            0 <= j < k + 1 && w[i] == ts[j] by {
            if i < tx.len() {
                assert(w[i] == tx[i]);
                let j = choose|j: int| 0 <= j < k && tx[i] == ts[j];
                assert(w[i] == ts[j]);
            } else {
                assert(w[i] == ts[k]);
            }
        }
        assert forall|j: int| 0 <= j < k + 1 implies w.contains(#[trigger] ts[j]) by {
            if j < k {
                assert(tx.contains(ts[j]));
                let i = choose|i: int| 0 <= i < tx.len() && tx[i] == ts[j];
                assert(w[i] == ts[j]);
            } else {
                assert(w[tx.len() as int] == ts[j]);
            }
        }
        assert forall|i: int, j: int| 0 <= i < w.len() && k + 1 <= j < ts.len() implies (#[trigger] w[i]).cid
            != (#[trigger] ts[j]).cid by {
            if i < tx.len() {
                assert(w[i] == tx[i]);
            } else {
                assert(w[i] == ts[k]);
            }
        }
    } else {
        assert(!linked(tx, t)) by {
            if linked(tx, t) {
                let i = choose|i: int| 0 <= i < tx.len() && crate::store::is_parent(#[trigger] tx[i], t);
                let j = choose|j: int| 0 <= j < k && tx[i] == ts[j];
                assert(ts[j].index == j);
            }
        }
    }
}

/// After appending any Tixels drawn from the chain, in any order, the
/// store holds a contiguous prefix of the chain; the returned `k` is its
/// length.
proof fn lemma_chain_prefix_distinct(v: StoreView, strand: Seq<char>, ts: Seq<TixelView>, us: Seq<TixelView>) -> (k: int)
    requires
        strand_writable(v.strands, strand),
        distinct_chain(strand, ts),
        fresh_for(v, strand, ts),
        forall|i: int| 0 <= i < us.len() ==> ts.contains(#[trigger] us[i]),
    ensures
        holds_prefix(after_tixels(v, us).tixels, strand, ts, k),
        after_tixels(v, us).strands == v.strands,
    decreases us.len(),
{
    if us.len() == 0 {
        assert forall|i: int| 0 <= i < v.tixels.len() && (#[trigger] v.tixels[i]).strand_cid == strand implies exists|j: int|
            0 <= j < 0 && v.tixels[i] == ts[j] by {
            assert(has_tixels_of(v.tixels, strand));
        }
        assert forall|i: int, j: int| 0 <= i < v.tixels.len() && 0 <= j < ts.len() implies (#[trigger] v.tixels[i]).cid
            != (#[trigger] ts[j]).cid by {
            assert(!tixel_stored(v.tixels, ts[j].cid));
        }
        0
    } else {
        let pre = us.drop_last();
        assert forall|i: int| 0 <= i < pre.len() implies ts.contains(#[trigger] pre[i]) by {
            assert(pre[i] == us[i]);
        }
        let k0 = lemma_chain_prefix_distinct(v, strand, ts, pre);
        let w = after_tixels(v, pre);
        let u = us.last();
        assert(ts.contains(us[us.len() - 1]));
        let m = choose|m: int| 0 <= m < ts.len() && ts[m] == u;
        lemma_prefix_step(w, strand, ts, k0, m);
        if m == k0 { k0 + 1 } else { k0 }
    }
}

/// A whole chain sent in ascending order is stored whole, in that order.
proof fn lemma_chain_in_order_distinct(v: StoreView, strand: Seq<char>, ts: Seq<TixelView>)
    requires
        strand_writable(v.strands, strand),
        distinct_chain(strand, ts),
        fresh_for(v, strand, ts),
    ensures
        after_tixels(v, ts).tixels == v.tixels + ts,
        after_tixels(v, ts).strands == v.strands,
    decreases ts.len(),
{
    if ts.len() > 0 {
        let pre = ts.drop_last();
        let n = pre.len() as int;
        assert(distinct_chain(strand, pre));
        assert(fresh_for(v, strand, pre));
        lemma_chain_in_order_distinct(v, strand, pre);
        let w = after_tixels(v, pre);
        let t = ts[n];
        assert(w.tixels == v.tixels + pre);
        assert(!tixel_stored(w.tixels, t.cid)) by {
            if tixel_stored(w.tixels, t.cid) {
                let i = choose|i: int| 0 <= i < w.tixels.len() && (#[trigger] w.tixels[i]).cid == t.cid;
                if i < v.tixels.len() {
                    assert(w.tixels[i] == v.tixels[i]);
                    assert(!tixel_stored(v.tixels, ts[n].cid));
                } else {
                    assert(w.tixels[i] == ts[i - v.tixels.len()]);
                }
            }
        }
        assert(!index_stored(w.tixels, strand, n)) by {
            if index_stored(w.tixels, strand, n) {
                let i = choose|i: int| 0 <= i < w.tixels.len() && (#[trigger] w.tixels[i]).strand_cid == strand && w.tixels[i].index == n;
                if i < v.tixels.len() {
                    assert(w.tixels[i] == v.tixels[i]);
                    assert(has_tixels_of(v.tixels, strand));
                } else {
                    assert(w.tixels[i] == ts[i - v.tixels.len()]);
                }
            }
        }
        assert(linked(w.tixels, t)) by {
            if n > 0 {
                let i = v.tixels.len() + n - 1;
                assert(w.tixels[i] == ts[n - 1]);
                assert(crate::store::is_parent(w.tixels[i], t));
            }
        }
        assert(accepts_tixel(w, t));
        assert(after_tixels(v, ts).tixels =~= v.tixels + ts);
    }
}

proof fn lemma_index_at_least(s: Seq<TixelView>, i: int)
    requires
        forall|a: int, b: int| 0 <= a < b < s.len() ==> (#[trigger] s[a]).index < (#[trigger] s[b]).index,
        0 <= i < s.len(),
    ensures
        s[i].index >= i,
    decreases i,
{
    if i > 0 {
        lemma_index_at_least(s, i - 1);
        assert(s[i - 1].index < s[i].index);
    }
}

proof fn lemma_index_at_most(s: Seq<TixelView>, n: int, i: int)
    requires
        forall|a: int, b: int| 0 <= a < b < s.len() ==> (#[trigger] s[a]).index < (#[trigger] s[b]).index,
        forall|a: int| 0 <= a < s.len() ==> (#[trigger] s[a]).index < n,
        s.len() == n,
        0 <= i < s.len(),
    ensures
        s[i].index <= i,
    decreases s.len() - i,
{
    if i < s.len() - 1 {
        lemma_index_at_most(s, n, i + 1);
        assert(s[i].index < s[i + 1].index);
    }
}

/// Two sequences with the same elements, counted with multiplicity, have
/// the same length, and each element of one is in the other.
proof fn lemma_same_members(s: Seq<TixelView>, ts: Seq<TixelView>)
    requires
        s.to_multiset() == ts.to_multiset(),
    ensures
        s.len() == ts.len(),
        forall|i: int| 0 <= i < s.len() ==> ts.contains(#[trigger] s[i]),
{
    broadcast use vstd::seq_lib::group_to_multiset_ensures;

    s.to_multiset_ensures();
    ts.to_multiset_ensures();
    assert(s.to_multiset().len() == ts.to_multiset().len());
    assert forall|i: int| 0 <= i < s.len() implies ts.contains(#[trigger] s[i]) by {
        assert(s.to_multiset().count(s[i]) > 0);
        assert(ts.to_multiset().count(s[i]) > 0);
    }
}

/// A rearrangement of a sequence without repeats has no repeats.
proof fn lemma_same_no_duplicates(s: Seq<TixelView>, ts: Seq<TixelView>)
    requires
        s.to_multiset() == ts.to_multiset(),
        ts.no_duplicates(),
    ensures
        s.no_duplicates(),
{
    ts.lemma_multiset_has_no_duplicates();
    assert forall|x: TixelView| s.to_multiset().contains(x) implies s.to_multiset().count(x) == 1 by {
        assert(ts.to_multiset().contains(x));
    }
    s.lemma_multiset_has_no_duplicates_conv();
}

/// The only arrangement of a whole chain in ascending order of index is the
/// chain itself.
proof fn lemma_sorted_chain_distinct(strand: Seq<char>, ts: Seq<TixelView>, s: Seq<TixelView>)
    requires
        distinct_chain(strand, ts),
        sorted_by_index(s),
        s.to_multiset() == ts.to_multiset(),
    ensures
        s == ts,
{
    let n = ts.len() as int;
    lemma_same_members(s, ts);
    assert(ts.no_duplicates()) by {
        assert forall|a: int, b: int| 0 <= a < ts.len() && 0 <= b < ts.len() && a != b implies ts[a] != ts[b] by {
            assert(ts[a].cid != ts[b].cid);
        }
    }
    lemma_same_no_duplicates(s, ts);
    assert forall|a: int, b: int| 0 <= a < b < s.len() implies (#[trigger] s[a]).index < (#[trigger] s[b]).index by {
        assert(s[a].index <= s[b].index);
        if s[a].index == s[b].index {
            let x = choose|x: int| 0 <= x < n && ts[x] == s[a];
            let y = choose|y: int| 0 <= y < n && ts[y] == s[b];
            assert(ts[x].index == x && ts[y].index == y);
            assert(s[a] != s[b]);
        }
    }
    assert forall|a: int| 0 <= a < s.len() implies (#[trigger] s[a]).index < n by {
        let x = choose|x: int| 0 <= x < n && ts[x] == s[a];
        assert(ts[x].index == x);
    }
    assert forall|i: int| 0 <= i < n implies #[trigger] s[i] == ts[i] by {
        lemma_index_at_least(s, i);
        lemma_index_at_most(s, n, i);
        let x = choose|x: int| 0 <= x < n && ts[x] == s[i];
        assert(ts[x].index == x);
    }
    assert(s =~= ts);
}

/// A whole chain sent as one batch, in any order, is stored whole and in
/// order: ingest appends the batch sorted by index (see `put_tixels`).
proof fn lemma_chain_batch_any_order_distinct(v: StoreView, strand: Seq<char>, ts: Seq<TixelView>, s: Seq<TixelView>)
    requires
        strand_writable(v.strands, strand),
        distinct_chain(strand, ts),
        fresh_for(v, strand, ts),
        sorted_by_index(s),
        s.to_multiset() == ts.to_multiset(),
    ensures
        after_tixels(v, s).tixels == v.tixels + ts,
{
    lemma_sorted_chain_distinct(strand, ts, s);
    lemma_chain_in_order_distinct(v, strand, ts);
}

/// `ts` is a whole chain of `strand` as its producer built it: the `i`-th
/// Tixel has index `i`, and each one past the first names the one before it
/// as its parent.
pub open spec fn valid_chain(strand: Seq<char>, ts: Seq<TixelView>) -> bool {
    &&& forall|i: int| 0 <= i < ts.len() ==> (#[trigger] ts[i]).strand_cid == strand && ts[i].index == i
    &&& forall|i: int| 0 < i < ts.len() ==> (#[trigger] ts[i]).back == Some(ts[i - 1].cid)
}

/// CIDs are content hashes: among the stored Tixels `tx` and the chain
/// `ts`, two blocks under one CID are one block.
pub open spec fn content_addressed(tx: Seq<TixelView>, ts: Seq<TixelView>) -> bool {
    &&& forall|i: int, j: int|
        0 <= i < tx.len() && 0 <= j < ts.len() && (#[trigger] tx[i]).cid == (#[trigger] ts[j]).cid ==> tx[i] == ts[j]
    &&& forall|i: int, j: int|
        0 <= i < ts.len() && 0 <= j < ts.len() && (#[trigger] ts[i]).cid == (#[trigger] ts[j]).cid ==> ts[i] == ts[j]
}

/// A chain whose Strand has no Tixels stored has distinct CIDs, none of them
/// stored.
proof fn lemma_fresh(v: StoreView, strand: Seq<char>, ts: Seq<TixelView>)
    requires
        valid_chain(strand, ts),
        content_addressed(v.tixels, ts),
        !has_tixels_of(v.tixels, strand),
    ensures
        distinct_chain(strand, ts),
        fresh_for(v, strand, ts),
{
    assert forall|i: int, j: int| 0 <= i < ts.len() && 0 <= j < ts.len() && i != j implies (#[trigger] ts[i]).cid
        != (#[trigger] ts[j]).cid by {
        if ts[i].cid == ts[j].cid {
            assert(ts[i] == ts[j]);
        }
    }
    assert forall|j: int| 0 <= j < ts.len() implies !tixel_stored(v.tixels, (#[trigger] ts[j]).cid) by {
        if tixel_stored(v.tixels, ts[j].cid) {
            let k = choose|k: int| 0 <= k < v.tixels.len() && (#[trigger] v.tixels[k]).cid == ts[j].cid;
            assert(v.tixels[k] == ts[j]);
            assert(v.tixels[k].strand_cid == strand);
        }
    }
}

/// A whole chain sent Tixel by Tixel in ascending order, to a writable
/// Strand that holds no Tixels yet, is stored whole, in that order.
pub proof fn lemma_chain_in_order(v: StoreView, strand: Seq<char>, ts: Seq<TixelView>)
    requires
        strand_writable(v.strands, strand),
        valid_chain(strand, ts),
        content_addressed(v.tixels, ts),
        !has_tixels_of(v.tixels, strand),
    ensures
        after_tixels(v, ts).tixels == v.tixels + ts,
        after_tixels(v, ts).strands == v.strands,
{
    lemma_fresh(v, strand, ts);
    lemma_chain_in_order_distinct(v, strand, ts);
}

/// After Tixels of a chain are sent in any order (some possibly twice, some
/// not at all) to a writable Strand that held none, the Strand holds a
/// contiguous prefix of the chain; the returned `k` is its length. So no
/// Tixel is stored without its parent.
pub proof fn lemma_chain_prefix(v: StoreView, strand: Seq<char>, ts: Seq<TixelView>, us: Seq<TixelView>) -> (k: int)
    requires
        strand_writable(v.strands, strand),
        valid_chain(strand, ts),
        content_addressed(v.tixels, ts),
        !has_tixels_of(v.tixels, strand),
        forall|i: int| 0 <= i < us.len() ==> ts.contains(#[trigger] us[i]),
    ensures
        holds_prefix(after_tixels(v, us).tixels, strand, ts, k),
        after_tixels(v, us).strands == v.strands,
{
    lemma_fresh(v, strand, ts);
    lemma_chain_prefix_distinct(v, strand, ts, us)
}

/// The only arrangement of a whole chain in ascending order of index is the
/// chain itself.
pub proof fn lemma_sorted_chain(strand: Seq<char>, ts: Seq<TixelView>, s: Seq<TixelView>)
    requires
        valid_chain(strand, ts),
        content_addressed(Seq::empty(), ts),
        sorted_by_index(s),
        s.to_multiset() == ts.to_multiset(),
    ensures
        s == ts,
{
    lemma_fresh(StoreView { strands: Seq::empty(), tixels: Seq::empty(), max_batch_size: 0 }, strand, ts);
    lemma_sorted_chain_distinct(strand, ts, s);
}

/// A whole chain sent as one batch, in any order, to a writable Strand that
/// holds no Tixels yet, is stored whole and in order: ingest appends the
/// batch sorted by index (see `put_tixels`).
pub proof fn lemma_chain_batch_any_order(v: StoreView, strand: Seq<char>, ts: Seq<TixelView>, s: Seq<TixelView>)
    requires
        strand_writable(v.strands, strand),
        valid_chain(strand, ts),
        content_addressed(v.tixels, ts),
        !has_tixels_of(v.tixels, strand),
        sorted_by_index(s),
        s.to_multiset() == ts.to_multiset(),
    ensures
        after_tixels(v, s).tixels == v.tixels + ts,
{
    lemma_fresh(v, strand, ts);
    lemma_chain_batch_any_order_distinct(v, strand, ts, s);
}

} // verus!
