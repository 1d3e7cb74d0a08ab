//! The block store: the Strands and Tixels tables, the append rules that
//! guard every write to them, and lookups by CID and by index.
use vstd::prelude::*;
use crate::block::{AnyBlock, Strand, StrandView, Tixel, TixelView, Twine};
use crate::errors::ApiError;

verus! {

/// One row of the Strands table.
pub struct StrandRow {
    pub strand: Strand,
    /// Whether appends to this Strand are accepted.
    pub writable: bool,
}

pub ghost struct StrandRowView {
    pub strand: StrandView,
    pub writable: bool,
}

impl View for StrandRow {
    type V = StrandRowView;

    open spec fn view(&self) -> StrandRowView {
        StrandRowView { strand: self.strand@, writable: self.writable }
    }
}

/// The abstract content of a store: its two tables, in insertion order.
pub ghost struct StoreView {
    pub strands: Seq<StrandRowView>,
    pub tixels: Seq<TixelView>,
    /// The most Tixels that one range read may return.
    pub max_batch_size: u64,
}

pub open spec fn strand_stored(st: Seq<StrandRowView>, cid: Seq<char>) -> bool {
    exists|i: int| 0 <= i < st.len() && (#[trigger] st[i]).strand.cid == cid
}

pub open spec fn strand_writable(st: Seq<StrandRowView>, cid: Seq<char>) -> bool {
    exists|i: int| 0 <= i < st.len() && (#[trigger] st[i]).strand.cid == cid && st[i].writable
}

pub open spec fn tixel_stored(tx: Seq<TixelView>, cid: Seq<char>) -> bool {
    exists|i: int| 0 <= i < tx.len() && (#[trigger] tx[i]).cid == cid
}

pub open spec fn index_stored(tx: Seq<TixelView>, strand: Seq<char>, index: int) -> bool {
    exists|i: int|
        0 <= i < tx.len() && (#[trigger] tx[i]).strand_cid == strand && tx[i].index == index
}

/// `p` is the parent of `t`: the Tixel one step back in the same chain, named
/// by `t`'s back stitch.
pub open spec fn is_parent(p: TixelView, t: TixelView) -> bool {
    &&& p.strand_cid == t.strand_cid
    &&& p.index + 1 == t.index
    &&& t.back == Some(p.cid)
}

/// `t` is the first Tixel of its chain, or its parent is stored.
pub open spec fn linked(tx: Seq<TixelView>, t: TixelView) -> bool {
    t.index == 0 || exists|i: int| 0 <= i < tx.len() && is_parent(#[trigger] tx[i], t)
}

/// The conditional insert of a Tixel goes through: its Strand is stored and
/// writable, it is the first of its chain or its parent is stored, and
/// neither its CID nor its (strand, index) pair is taken.
pub open spec fn accepts_tixel(v: StoreView, t: TixelView) -> bool {
    &&& strand_writable(v.strands, t.strand_cid)
    &&& linked(v.tixels, t)
    &&& !tixel_stored(v.tixels, t.cid)
    &&& !index_stored(v.tixels, t.strand_cid, t.index as int)
}

/// The store after one append of `t`.
pub open spec fn after_tixel(v: StoreView, t: TixelView) -> StoreView {
    if accepts_tixel(v, t) {
        StoreView { tixels: v.tixels.push(t), ..v }
    } else {
        v
    }
}

/// The store after appending each Tixel of `ts` in turn.
pub open spec fn after_tixels(v: StoreView, ts: Seq<TixelView>) -> StoreView
    decreases ts.len(),
{
    if ts.len() == 0 {
        v
    } else {
        after_tixel(after_tixels(v, ts.drop_last()), ts.last())
    }
}

/// The store after one save of `s`: a Strand whose CID is taken is ignored;
/// a new one is stored, open to appends.
pub open spec fn after_strand(v: StoreView, s: StrandView) -> StoreView {
    if strand_stored(v.strands, s.cid) {
        v
    } else {
        StoreView { strands: v.strands.push(StrandRowView { strand: s, writable: true }), ..v }
    }
}

/// The invariants of a store.
pub open spec fn store_wf(v: StoreView) -> bool {
    // every Strand CID names one row
    &&& forall|i: int, j: int|
        0 <= i < v.strands.len() && 0 <= j < v.strands.len() && i != j
            ==> (#[trigger] v.strands[i]).strand.cid != (#[trigger] v.strands[j]).strand.cid
    // every Tixel CID names one row
    &&& forall|i: int, j: int|
        0 <= i < v.tixels.len() && 0 <= j < v.tixels.len() && i != j
            ==> (#[trigger] v.tixels[i]).cid != (#[trigger] v.tixels[j]).cid
    // at most one Tixel per (strand, index)
    &&& forall|i: int, j: int|
        0 <= i < v.tixels.len() && 0 <= j < v.tixels.len() && i != j
            ==> !((#[trigger] v.tixels[i]).strand_cid == (#[trigger] v.tixels[j]).strand_cid
            && v.tixels[i].index == v.tixels[j].index)
    // every Tixel belongs to a stored Strand
    &&& forall|i: int|
        0 <= i < v.tixels.len() ==> strand_stored(v.strands, (#[trigger] v.tixels[i]).strand_cid)
    // every Tixel past the first of its chain has its parent stored
    &&& forall|i: int| 0 <= i < v.tixels.len() ==> linked(v.tixels, #[trigger] v.tixels[i])
}

/// `n` is the highest index stored for `strand`.
pub open spec fn is_latest(tx: Seq<TixelView>, strand: Seq<char>, n: u64) -> bool {
    &&& index_stored(tx, strand, n as int)
    &&& forall|i: int|
        0 <= i < tx.len() && (#[trigger] tx[i]).strand_cid == strand ==> tx[i].index <= n
}

pub open spec fn has_tixels_of(tx: Seq<TixelView>, strand: Seq<char>) -> bool {
    exists|i: int| 0 <= i < tx.len() && (#[trigger] tx[i]).strand_cid == strand
}

/// Appending keeps every invariant of the store: a Tixel past the first of
/// its chain has its parent stored, every Tixel belongs to a stored Strand,
/// and no (strand, index) pair or CID is stored twice.
pub proof fn lemma_after_tixel_wf(v: StoreView, t: TixelView)
    requires
        store_wf(v),
    ensures
        store_wf(after_tixel(v, t)),
{
    if accepts_tixel(v, t) {
        let w = after_tixel(v, t);
        let n = v.tixels.len() as int;
        assert(w.tixels == v.tixels.push(t));
        assert(w.strands == v.strands);
        let k = choose|k: int|
            0 <= k < v.strands.len() && (#[trigger] v.strands[k]).strand.cid == t.strand_cid
                && v.strands[k].writable;
        assert forall|i: int| 0 <= i < w.tixels.len() implies strand_stored(
            w.strands,
            (#[trigger] w.tixels[i]).strand_cid,
        ) by {
            if i < n {
                assert(w.tixels[i] == v.tixels[i]);
            } else {
                assert(w.strands[k].strand.cid == t.strand_cid);
            }
        }
        assert forall|i: int| 0 <= i < w.tixels.len() implies linked(
            w.tixels,
            #[trigger] w.tixels[i],
        ) by {
            let ti = w.tixels[i];
            if ti.index != 0 {
                let j = choose|j: int| 0 <= j < n && is_parent(#[trigger] v.tixels[j], ti);
                assert(w.tixels[j] == v.tixels[j]);
            }
        }
        assert forall|i: int, j: int|
            0 <= i < w.tixels.len() && 0 <= j < w.tixels.len() && i != j implies (
            #[trigger] w.tixels[i]).cid != (#[trigger] w.tixels[j]).cid && !(w.tixels[i].strand_cid
            == w.tixels[j].strand_cid && w.tixels[i].index == w.tixels[j].index) by {
            if i < n && j < n {
                assert(w.tixels[i] == v.tixels[i] && w.tixels[j] == v.tixels[j]);
            } else if i < n {
                assert(w.tixels[i] == v.tixels[i]);
            } else {
                assert(w.tixels[j] == v.tixels[j]);
            }
        }
    }
}

/// Appending a sequence of Tixels keeps every invariant of the store.
pub proof fn lemma_after_tixels_wf(v: StoreView, ts: Seq<TixelView>)
    requires
        store_wf(v),
    ensures
        store_wf(after_tixels(v, ts)),
    decreases ts.len(),
{
    if ts.len() > 0 {
        lemma_after_tixels_wf(v, ts.drop_last());
        lemma_after_tixel_wf(after_tixels(v, ts.drop_last()), ts.last());
    }
}

/// The same Tixels, last first.
fn reversed(v: Vec<Tixel>) -> (r: Vec<Tixel>)
    ensures
        r@.len() == v@.len(),
        forall|k: int| 0 <= k < r@.len() ==> #[trigger] r@[k] == v@[v@.len() - 1 - k],
{
    let ghost orig = v@;
    let mut src = v;
    let mut r: Vec<Tixel> = Vec::new();
    while src.len() > 0
        invariant
            r@.len() + src@.len() == orig.len(),
            src@ == orig.subrange(0, src@.len() as int),
            forall|k: int| 0 <= k < r@.len() ==> #[trigger] r@[k] == orig[orig.len() - 1 - k],
        decreases src@.len(),
    {
        let t = src.pop().unwrap();
        r.push(t);
    }
    r
}

/// The store: the Strands and Tixels tables, and the bound on the size of a
/// range read.
pub struct D1Store {
    strands: Vec<StrandRow>,
    tixels: Vec<Tixel>,
    max_batch_size: u64,
}

impl View for D1Store {
    type V = StoreView;

    closed spec fn view(&self) -> StoreView {
        StoreView {
            strands: self.strands@.map_values(|r: StrandRow| r@),
            tixels: self.tixels@.map_values(|t: Tixel| t@),
            max_batch_size: self.max_batch_size,
        }
    }
}

impl D1Store {
    pub open spec fn wf(&self) -> bool {
        store_wf(self@)
    }

    /// An empty store whose range reads hold at most `max_batch_size` Tixels.
    pub fn new(max_batch_size: u64) -> (r: D1Store)
        ensures
            r.wf(),
            r@.strands.len() == 0,
            r@.tixels.len() == 0,
            r@.max_batch_size == max_batch_size,
    {
        let r = D1Store { strands: Vec::new(), tixels: Vec::new(), max_batch_size };
        assert(r@.strands =~= Seq::<StrandRowView>::empty());
        assert(r@.tixels =~= Seq::<TixelView>::empty());
        r
    }

    /// The most Tixels that one range read may return.
    pub fn max_batch_size(&self) -> (r: u64)
        ensures
            r == self@.max_batch_size,
    {
        self.max_batch_size
    }

    fn find_strand(&self, cid: &String) -> (r: Option<usize>)
        ensures
            match r {
                Some(i) => i < self@.strands.len() && self@.strands[i as int].strand.cid == cid@,
                None => !strand_stored(self@.strands, cid@),
            },
    {
        let mut i: usize = 0;
        while i < self.strands.len()
            invariant
                i <= self.strands@.len(),
                forall|j: int| 0 <= j < i ==> (#[trigger] self@.strands[j]).strand.cid != cid@,
            decreases self.strands@.len() - i,
        {
            if self.strands[i].strand.cid == *cid {
                return Some(i);
            }
            i += 1;
        }
        None
    }

    fn find_tixel(&self, cid: &String) -> (r: Option<usize>)
        ensures
            match r {
                Some(i) => i < self@.tixels.len() && self@.tixels[i as int].cid == cid@,
                None => !tixel_stored(self@.tixels, cid@),
            },
    {
        let mut i: usize = 0;
        while i < self.tixels.len()
            invariant
                i <= self.tixels@.len(),
                forall|j: int| 0 <= j < i ==> (#[trigger] self@.tixels[j]).cid != cid@,
            decreases self.tixels@.len() - i,
        {
            if self.tixels[i].cid == *cid {
                return Some(i);
            }
            i += 1;
        }
        None
    }

    fn find_index(&self, strand_cid: &String, index: u64) -> (r: Option<usize>)
        ensures
            match r {
                Some(i) => i < self@.tixels.len() && self@.tixels[i as int].strand_cid
                    == strand_cid@ && self@.tixels[i as int].index == index,
                None => !index_stored(self@.tixels, strand_cid@, index as int),
            },
    {
        let mut i: usize = 0;
        while i < self.tixels.len()
            invariant
                i <= self.tixels@.len(),
                forall|j: int|
                    0 <= j < i ==> !((#[trigger] self@.tixels[j]).strand_cid == strand_cid@
                        && self@.tixels[j].index == index),
            decreases self.tixels@.len() - i,
        {
            if self.tixels[i].index == index && self.tixels[i].strand_cid == *strand_cid {
                return Some(i);
            }
            i += 1;
        }
        None
    }

    /// Whether a Strand with this CID is stored.
    pub fn has_strand(&self, cid: &String) -> (r: bool)
        ensures
            r == strand_stored(self@.strands, cid@),
    {
        self.find_strand(cid).is_some()
    }

    /// Whether a Tixel with this CID is stored.
    pub fn has_tixel(&self, cid: &String) -> (r: bool)
        ensures
            r == tixel_stored(self@.tixels, cid@),
    {
        self.find_tixel(cid).is_some()
    }

    /// Whether a block of either kind with this CID is stored.
    pub fn has_cid(&self, cid: &String) -> (r: bool)
        ensures
            r == (strand_stored(self@.strands, cid@) || tixel_stored(self@.tixels, cid@)),
    {
        self.has_strand(cid) || self.has_tixel(cid)
    }

    /// Whether the chain of `strand_cid` holds a Tixel at `index`.
    pub fn has_index(&self, strand_cid: &String, index: u64) -> (r: bool)
        ensures
            r == index_stored(self@.tixels, strand_cid@, index as int),
    {
        self.find_index(strand_cid, index).is_some()
    }

    /// The stored Strand with this CID; `NotFound` where there is none.
    pub fn get_strand(&self, cid: &String) -> (r: Result<Strand, ApiError>)
        ensures
            r is Ok <==> strand_stored(self@.strands, cid@),
            r matches Ok(s) ==> s@.cid == cid@ && exists|i: int|
                0 <= i < self@.strands.len() && (#[trigger] self@.strands[i]).strand == s@,
            r matches Err(e) ==> e is NotFound,
    {
        match self.find_strand(cid) {
            Some(i) => {
                let s = self.strands[i].strand.duplicate();
                assert(self@.strands[i as int].strand == s@);
                Ok(s)
            },
            None => Err(ApiError::NotFound),
        }
    }

    /// The stored Tixel with this CID; `NotFound` where there is none.
    pub fn get_tixel(&self, cid: &String) -> (r: Result<Tixel, ApiError>)
        ensures
            r is Ok <==> tixel_stored(self@.tixels, cid@),
            r matches Ok(t) ==> t@.cid == cid@ && exists|i: int|
                0 <= i < self@.tixels.len() && (#[trigger] self@.tixels[i]) == t@,
            r matches Err(e) ==> e is NotFound,
    {
        match self.find_tixel(cid) {
            Some(i) => {
                let t = self.tixels[i].duplicate();
                assert(self@.tixels[i as int] == t@);
                Ok(t)
            },
            None => Err(ApiError::NotFound),
        }
    }

    /// The Tixel at `index` in the chain of `strand_cid`; `NotFound` where
    /// there is none.
    pub fn get_by_index(&self, strand_cid: &String, index: u64) -> (r: Result<Tixel, ApiError>)
        ensures
            r is Ok <==> index_stored(self@.tixels, strand_cid@, index as int),
            r matches Ok(t) ==> t@.strand_cid == strand_cid@ && t@.index == index && exists|i: int|
                0 <= i < self@.tixels.len() && (#[trigger] self@.tixels[i]) == t@,
            r matches Err(e) ==> e is NotFound,
    {
        match self.find_index(strand_cid, index) {
            Some(i) => {
                let t = self.tixels[i].duplicate();
                assert(self@.tixels[i as int] == t@);
                Ok(t)
            },
            None => Err(ApiError::NotFound),
        }
    }

    /// The highest index in the chain of `strand_cid`; `NotFound` where the
    /// chain is empty.
    pub fn latest_index(&self, strand_cid: &String) -> (r: Result<u64, ApiError>)
        ensures
            r is Ok <==> has_tixels_of(self@.tixels, strand_cid@),
            r matches Ok(n) ==> is_latest(self@.tixels, strand_cid@, n),
            r matches Err(e) ==> e is NotFound,
    {
        let mut best: Option<u64> = None;
        let mut i: usize = 0;
        while i < self.tixels.len()
            invariant
                i <= self.tixels@.len(),
                match best {
                    None => forall|j: int|
                        0 <= j < i ==> (#[trigger] self@.tixels[j]).strand_cid != strand_cid@,
                    Some(n) => (exists|j: int|
                        0 <= j < i && (#[trigger] self@.tixels[j]).strand_cid == strand_cid@
                            && self@.tixels[j].index == n) && forall|j: int|
                        0 <= j < i && (#[trigger] self@.tixels[j]).strand_cid == strand_cid@
                            ==> self@.tixels[j].index <= n,
                },
            decreases self.tixels@.len() - i,
        {
            assert(self@.tixels[i as int] == self.tixels@[i as int]@);
            if self.tixels[i].strand_cid == *strand_cid {
                let k = self.tixels[i].index;
                match best {
                    None => {
                        best = Some(k);
                    },
                    Some(n) => {
                        if k > n {
                            best = Some(k);
                        }
                    },
                }
            }
            i += 1;
        }
        match best {
            Some(n) => Ok(n),
            None => Err(ApiError::NotFound),
        }
    }

    /// The Tixel with the highest index in the chain of `strand_cid`;
    /// `NotFound` where the chain is empty.
    pub fn latest(&self, strand_cid: &String) -> (r: Result<Tixel, ApiError>)
        ensures
            r is Ok <==> has_tixels_of(self@.tixels, strand_cid@),
            r matches Ok(t) ==> t@.strand_cid == strand_cid@ && is_latest(
                self@.tixels,
                strand_cid@,
                t@.index,
            ) && exists|i: int| 0 <= i < self@.tixels.len() && (#[trigger] self@.tixels[i]) == t@,
            r matches Err(e) ==> e is NotFound,
    {
        let n = self.latest_index(strand_cid)?;
        self.get_by_index(strand_cid, n)
    }

    /// The block with this CID: a Strand if one is stored under it, else a
    /// Tixel; `NotFound` where there is neither.
    pub fn get_by_cid(&self, cid: &String) -> (r: Result<AnyBlock, ApiError>)
        ensures
            r is Ok <==> strand_stored(self@.strands, cid@) || tixel_stored(self@.tixels, cid@),
            r matches Ok(AnyBlock::Strand(s)) ==> s@.cid == cid@ && exists|i: int|
                0 <= i < self@.strands.len() && (#[trigger] self@.strands[i]).strand == s@,
            r matches Ok(AnyBlock::Tixel(t)) ==> !strand_stored(self@.strands, cid@) && t@.cid
                == cid@ && exists|i: int|
                0 <= i < self@.tixels.len() && (#[trigger] self@.tixels[i]) == t@,
            r matches Err(e) ==> e is NotFound,
    {
        match self.get_strand(cid) {
            Ok(s) => Ok(AnyBlock::Strand(s)),
            Err(_) => match self.get_tixel(cid) {
                Ok(t) => Ok(AnyBlock::Tixel(t)),
                Err(e) => Err(e),
            },
        }
    }

    /// Pairs a Tixel with its stored Strand.
    pub fn upcast(&self, tixel: Tixel) -> (r: Result<Twine, ApiError>)
        ensures
            r is Ok <==> strand_stored(self@.strands, tixel@.strand_cid),
            r matches Ok(tw) ==> tw.tixel@ == tixel@ && tw.strand@.cid == tixel@.strand_cid
                && exists|i: int|
                0 <= i < self@.strands.len() && (#[trigger] self@.strands[i]).strand == tw.strand@,
            r matches Err(e) ==> e is NotFound,
    {
        let strand = self.get_strand(&tixel.strand_cid)?;
        Twine::try_new(strand, tixel)
    }

    /// Every stored Strand, in the order of the table.
    pub fn get_strands(&self) -> (r: Vec<Strand>)
        ensures
            r@.len() == self@.strands.len(),
            forall|i: int| 0 <= i < r@.len() ==> (#[trigger] r@[i])@ == self@.strands[i].strand,
    {
        let mut r: Vec<Strand> = Vec::new();
        let mut i: usize = 0;
        while i < self.strands.len()
            invariant
                i <= self.strands@.len(),
                r@.len() == i,
                forall|j: int| 0 <= j < i ==> (#[trigger] r@[j])@ == self@.strands[j].strand,
            decreases self.strands@.len() - i,
        {
            r.push(self.strands[i].strand.duplicate());
            i += 1;
        }
        r
    }

    /// Stores a Strand, open to appends. A Strand whose CID is already stored
    /// is left as it is.
    pub fn save_strand(&mut self, strand: Strand)
        requires
            old(self).wf(),
        ensures
            final(self).wf(),
            final(self)@ == after_strand(old(self)@, strand@),
    {
        if self.find_strand(&strand.cid).is_none() {
            let ghost v0 = self@;
            self.strands.push(StrandRow { strand, writable: true });
            assert(self@.strands =~= v0.strands.push(StrandRowView { strand: strand@, writable: true }));
            assert(self@.tixels =~= v0.tixels);
            assert forall|i: int| 0 <= i < self@.tixels.len() implies strand_stored(
                self@.strands,
                (#[trigger] self@.tixels[i]).strand_cid,
            ) by {
                let k = choose|k: int|
                    0 <= k < v0.strands.len() && (#[trigger] v0.strands[k]).strand.cid
                        == v0.tixels[i].strand_cid;
                assert(self@.strands[k] == v0.strands[k]);
            }
        }
    }

    /// Opens or closes a stored Strand to appends; does nothing where no
    /// Strand has this CID.
    pub fn set_writable(&mut self, cid: &String, writable: bool)
        requires
            old(self).wf(),
        ensures
            final(self).wf(),
            final(self)@.tixels == old(self)@.tixels,
            final(self)@.max_batch_size == old(self)@.max_batch_size,
            final(self)@.strands.len() == old(self)@.strands.len(),
            forall|i: int|
                0 <= i < old(self)@.strands.len() ==> (#[trigger] final(self)@.strands[i]).strand
                    == old(self)@.strands[i].strand,
            forall|i: int|
                0 <= i < old(self)@.strands.len() ==> (#[trigger] final(self)@.strands[i]).writable
                    == if old(self)@.strands[i].strand.cid == cid@ {
                    writable
                } else {
                    old(self)@.strands[i].writable
                },
    {
        let ghost v0 = self@;
        match self.find_strand(cid) {
            Some(i) => {
                let row = StrandRow { strand: self.strands[i].strand.duplicate(), writable };
                self.strands.set(i, row);
                assert(self@.tixels =~= v0.tixels);
                assert forall|j: int| 0 <= j < v0.strands.len() implies (#[trigger] self@.strands[j]).strand
                    == v0.strands[j].strand by {
                }
                assert forall|j: int|
                    0 <= j < v0.strands.len() && j != i implies v0.strands[j].strand.cid != cid@ by {
                    assert(v0.strands[j].strand.cid != v0.strands[i as int].strand.cid);
                }
                assert forall|k: int| 0 <= k < self@.tixels.len() implies strand_stored(
                    self@.strands,
                    (#[trigger] self@.tixels[k]).strand_cid,
                ) by {
                    let m = choose|m: int|
                        0 <= m < v0.strands.len() && (#[trigger] v0.strands[m]).strand.cid
                            == v0.tixels[k].strand_cid;
                    assert(self@.strands[m].strand == v0.strands[m].strand);
                }
            },
            None => {
                assert forall|j: int| 0 <= j < v0.strands.len() implies v0.strands[j].strand.cid
                    != cid@ by {
                    assert(v0.strands[j] == v0.strands[j]);
                }
            },
        }
    }

    /// Whether the conditional insert of `t` would go through.
    fn accepts(&self, t: &Tixel) -> (r: bool)
        requires
            self.wf(),
        ensures
            r == accepts_tixel(self@, t@),
    {
        let ghost v = self@;
        let writable = match self.find_strand(&t.strand_cid) {
            Some(i) => {
                assert forall|k: int|
                    0 <= k < v.strands.len() && (#[trigger] v.strands[k]).strand.cid
                        == t.strand_cid@ implies k == i by {
                    if k != i {
                        assert(v.strands[k].strand.cid != v.strands[i as int].strand.cid);
                    }
                }
                assert(v.strands[i as int] == self.strands@[i as int]@);
                self.strands[i].writable
            },
            None => false,
        };
        if !writable {
            return false;
        }
        if self.find_tixel(&t.cid).is_some() {
            return false;
        }
        if self.find_index(&t.strand_cid, t.index).is_some() {
            return false;
        }
        if t.index == 0 {
            return true;
        }
        match self.find_index(&t.strand_cid, t.index - 1) {
            Some(j) => {
                assert(v.tixels[j as int] == self.tixels@[j as int]@);
                assert forall|k: int| 0 <= k < v.tixels.len() && is_parent(
                    #[trigger] v.tixels[k],
                    t@,
                ) implies k == j by {
                    if k != j {
                        assert(v.tixels[k].strand_cid != v.tixels[j as int].strand_cid
                            || v.tixels[k].index != v.tixels[j as int].index);
                    }
                }
                match &t.back {
                    Some(b) => *b == self.tixels[j].cid,
                    None => false,
                }
            },
            None => {
                assert forall|k: int| 0 <= k < v.tixels.len() implies !is_parent(
                    #[trigger] v.tixels[k],
                    t@,
                ) by {
                    if is_parent(v.tixels[k], t@) {
                        assert(v.tixels[k].index == t.index - 1);
                    }
                }
                false
            },
        }
    }

    /// Appends a Tixel where the append rules allow it, and otherwise
    /// leaves the store as it is (the append is silently refused; a later
    /// `has_tixel` tells which).
    pub fn save_tixel(&mut self, tixel: Tixel)
        requires
            old(self).wf(),
        ensures
            final(self).wf(),
            final(self)@ == after_tixel(old(self)@, tixel@),
    {
        let ghost v0 = self@;
        proof {
            lemma_after_tixel_wf(v0, tixel@);
        }
        if self.accepts(&tixel) {
            self.tixels.push(tixel);
            assert(self@.tixels =~= v0.tixels.push(tixel@));
            assert(self@.strands =~= v0.strands);
        }
    }

    /// Appends the Tixels one after the other, in the order given.
    pub fn save_many(&mut self, tixels: Vec<Tixel>)
        requires
            old(self).wf(),
        ensures
            final(self).wf(),
            final(self)@ == after_tixels(old(self)@, tixels@.map_values(|t: Tixel| t@)),
    {
        let ghost v0 = self@;
        let ghost ts = tixels@.map_values(|t: Tixel| t@);
        let n = tixels.len();
        let mut i: usize = 0;
        // the next Tixel to append is at the back
        let mut pending = reversed(tixels);
        while i < n
            invariant
                self.wf(),
                n == ts.len(),
                i <= n,
                pending@.len() == n - i,
                forall|k: int| 0 <= k < n - i ==> (#[trigger] pending@[k])@ == ts[n - 1 - k],
                self@ == after_tixels(v0, ts.subrange(0, i as int)),
            decreases n - i,
        {
            let t = pending.pop().unwrap();
            assert(t@ == ts[i as int]);
            self.save_tixel(t);
            proof {
                let pre = ts.subrange(0, i as int + 1);
                assert(pre.drop_last() =~= ts.subrange(0, i as int));
                assert(pre.last() == ts[i as int]);
            }
            i += 1;
        }
        assert(ts.subrange(0, n as int) =~= ts);
    }
}

} // verus!
