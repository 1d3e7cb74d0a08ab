//! Ingest: taking a batch of decoded blocks into the store.
use vstd::prelude::*;
use vstd::multiset::Multiset;
use vstd::string::StringExecFns;
use crate::block::{Strand, StrandView, Tixel, TixelView};
use crate::errors::ApiError;
use crate::store::{after_strand, after_tixels, strand_stored, D1Store};

verus! {

broadcast use vstd::seq_lib::group_to_multiset_ensures;

pub open spec fn tixel_views(ts: Seq<Tixel>) -> Seq<TixelView> {
    ts.map_values(|t: Tixel| t@)
}

pub open spec fn strand_views(ss: Seq<Strand>) -> Seq<StrandView> {
    ss.map_values(|s: Strand| s@)
}

pub open spec fn sorted_by_index(ts: Seq<TixelView>) -> bool {
    forall|i: int, j: int| 0 <= i < j < ts.len() ==> (#[trigger] ts[i]).index <= (#[trigger] ts[j]).index
}

/// The store after saving each Strand of `ss` in turn.
pub open spec fn after_strands(v: crate::store::StoreView, ss: Seq<StrandView>) -> crate::store::StoreView
    decreases ss.len(),
{
    if ss.len() == 0 {
        v
    } else {
        after_strand(after_strands(v, ss.drop_last()), ss.last())
    }
}

/// `ts` is a batch for the chain of `strand`: every Tixel belongs to it.
pub open spec fn all_of_strand(ts: Seq<TixelView>, strand: Seq<char>) -> bool {
    forall|i: int| 0 <= i < ts.len() ==> (#[trigger] ts[i]).strand_cid == strand
}

/// The same Tixels, in ascending order of index.
pub fn sort_by_index(v: Vec<Tixel>) -> (r: Vec<Tixel>)
    ensures
        sorted_by_index(tixel_views(r@)),
        tixel_views(r@).to_multiset() == tixel_views(v@).to_multiset(),
{
    let ghost input = tixel_views(v@);
    let mut rest = v;
    let mut out: Vec<Tixel> = Vec::new();
    while rest.len() > 0
        invariant
            sorted_by_index(tixel_views(out@)),
            forall|i: int, j: int|
                0 <= i < out@.len() && 0 <= j < rest@.len() ==> (#[trigger] out@[i]).index
                    <= (#[trigger] rest@[j]).index,
            tixel_views(out@).to_multiset().add(tixel_views(rest@).to_multiset()) == input.to_multiset(),
        decreases rest@.len(),
    {
        let mut m: usize = 0;
        let mut k: usize = 1;
        while k < rest.len()
            invariant
                0 < rest@.len(),
                m < rest@.len(),
                1 <= k <= rest@.len(),
                forall|j: int| 0 <= j < k ==> rest@[m as int].index <= (#[trigger] rest@[j]).index,
            decreases rest@.len() - k,
        {
            if rest[k].index < rest[m].index {
                m = k;
            }
            k += 1;
        }
        let ghost out0 = tixel_views(out@);
        let ghost rest0 = tixel_views(rest@);
        let ghost rest_exec = rest@;
        let t = rest.remove(m);
        assert(tixel_views(rest@) =~= rest0.remove(m as int));
        out.push(t);
        assert(tixel_views(out@) =~= out0.push(t@));
        assert(rest0[m as int] == t@);
        assert forall|i: int, j: int|
            0 <= i < out@.len() && 0 <= j < rest@.len() implies (#[trigger] out@[i]).index
                <= (#[trigger] rest@[j]).index by {
            if j < m {
                assert(rest@[j] == rest_exec[j]);
            } else {
                assert(rest@[j] == rest_exec[j + 1]);
            }
        }
        assert(sorted_by_index(tixel_views(out@))) by {
            assert forall|i: int, j: int| 0 <= i < j < out@.len() implies (#[trigger] tixel_views(out@)[i]).index
                <= (#[trigger] tixel_views(out@)[j]).index by {
                if j == out@.len() - 1 && i < j {
                    assert(out@[i].index <= rest_exec[m as int].index);
                }
            }
        }
    }
    assert(tixel_views(rest@).to_multiset() =~= Multiset::empty());
    out
}

/// Whether every Tixel of the batch belongs to the chain of `strand_cid`.
fn all_belong(ts: &Vec<Tixel>, strand_cid: &String) -> (r: bool)
    ensures
        r == all_of_strand(tixel_views(ts@), strand_cid@),
{
    let mut i: usize = 0;
    while i < ts.len()
        invariant
            i <= ts@.len(),
            forall|j: int| 0 <= j < i ==> (#[trigger] tixel_views(ts@)[j]).strand_cid == strand_cid@,
        decreases ts@.len() - i,
    {
        if ts[i].strand_cid != *strand_cid {
            assert(tixel_views(ts@)[i as int] == ts@[i as int]@);
            return false;
        }
        i += 1;
    }
    true
}

impl D1Store {
    /// Appends a batch for the chain of `strand_cid`, in the order given.
    /// Fails with `BadRequestData`, storing nothing, where a Tixel belongs to
    /// another chain.
    pub fn put_many_twines(&mut self, strand_cid: &String, tixels: Vec<Tixel>) -> (r: Result<(), ApiError>)
        requires
            old(self).wf(),
        ensures
            final(self).wf(),
            r is Ok <==> all_of_strand(tixel_views(tixels@), strand_cid@),
            r is Ok ==> final(self)@ == after_tixels(old(self)@, tixel_views(tixels@)),
            r matches Err(e) ==> (e matches ApiError::BadRequestData(m) && m@ == "Twine does not belong to specified strand"@) && final(self)@ == old(self)@,
    {
        if !all_belong(&tixels, strand_cid) {
            return Err(ApiError::BadRequestData(String::from_str("Twine does not belong to specified strand")));
        }
        self.save_many(tixels);
        Ok(())
    }
}

/// Ingests a batch of Tixels sent for the chain of `strand_cid`: the Strand
/// must be stored (else `Unauthorized`: it is not admitted) and every Tixel
/// must belong to it (else `VerificationError`). The Tixels are then appended
/// in ascending order of index. Nothing is stored where it fails.
pub fn put_tixels(store: &mut D1Store, strand_cid: &String, tixels: Vec<Tixel>) -> (r: Result<(), ApiError>)
    requires
        old(store).wf(),
    ensures
        final(store).wf(),
        r is Ok <==> strand_stored(old(store)@.strands, strand_cid@) && all_of_strand(
            tixel_views(tixels@),
            strand_cid@,
        ),
        r matches Err(e) ==> final(store)@ == old(store)@ && if strand_stored(
            old(store)@.strands,
            strand_cid@,
        ) {
            e is VerificationError
        } else {
            e is Unauthorized
        },
        r is Ok ==> exists|s: Seq<TixelView>|
            sorted_by_index(s) && s.to_multiset() == tixel_views(tixels@).to_multiset()
                && final(store)@ == after_tixels(old(store)@, s),
{
    if !store.has_strand(strand_cid) {
        return Err(ApiError::Unauthorized);
    }
    if !all_belong(&tixels, strand_cid) {
        return Err(ApiError::VerificationError(String::from_str("Tixel does not belong to the strand")));
    }
    let sorted = sort_by_index(tixels);
    store.save_many(sorted);
    Ok(())
}

/// Ingests a batch of Strands, saving each in turn.
pub fn put_strands(store: &mut D1Store, strands: Vec<Strand>)
    requires
        old(store).wf(),
    ensures
        final(store).wf(),
        final(store)@ == after_strands(old(store)@, strand_views(strands@)),
{
    let ghost v0 = store@;
    let ghost ss = strand_views(strands@);
    let n = strands.len();
    let mut rest = strands;
    let mut i: usize = 0;
    while i < n
        invariant
            store.wf(),
            n == ss.len(),
            i <= n,
            rest@.len() == n - i,
            forall|k: int| 0 <= k < n - i ==> (#[trigger] rest@[k])@ == ss[i + k],
            store@ == after_strands(v0, ss.subrange(0, i as int)),
        decreases n - i,
    {
        let ghost rest0 = rest@;
        let s = rest.remove(0);
        assert(s@ == ss[i as int]);
        assert forall|k: int| 0 <= k < n - i - 1 implies (#[trigger] rest@[k])@ == ss[i + 1 + k] by {
            assert(rest@[k] == rest0[k + 1]);
        }
        store.save_strand(s);
        proof {
            let pre = ss.subrange(0, i as int + 1);
            assert(pre.drop_last() =~= ss.subrange(0, i as int));
        }
        i += 1;
    }
    assert(ss.subrange(0, n as int) =~= ss);
}

} // verus!
