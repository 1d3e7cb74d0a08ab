//! Decoded Strand and Tixel blocks, as the storage rules see them.
use vstd::prelude::*;
use vstd::string::StringExecFns;
use crate::errors::ApiError;

verus! {

/// A Strand: the signed genesis block that identifies a chain.
pub struct Strand {
    /// The CID of the block, in canonical text form.
    pub cid: String,
    /// The serialized block.
    pub data: Vec<u8>,
    /// The specification string (protocol name and version) of the chain.
    pub spec: String,
    /// The chain's details, as DAG-JSON text.
    pub details: String,
}

/// A Tixel: one signed, hash-linked record of a chain.
pub struct Tixel {
    /// The CID of the block, in canonical text form.
    pub cid: String,
    /// The serialized block.
    pub data: Vec<u8>,
    /// The CID of the Strand that the Tixel belongs to.
    pub strand_cid: String,
    /// The position of the Tixel in its chain, from 0.
    pub index: u64,
    /// The Tixel CID of the back stitch: the parent within the same chain.
    pub back: Option<String>,
}

pub ghost struct StrandView {
    pub cid: Seq<char>,
    pub data: Seq<u8>,
    pub spec: Seq<char>,
    pub details: Seq<char>,
}

pub ghost struct TixelView {
    pub cid: Seq<char>,
    pub data: Seq<u8>,
    pub strand_cid: Seq<char>,
    pub index: u64,
    pub back: Option<Seq<char>>,
}

pub open spec fn opt_view(o: Option<String>) -> Option<Seq<char>> {
    match o {
        Some(s) => Some(s@),
        None => None,
    }
}

impl View for Strand {
    type V = StrandView;

    open spec fn view(&self) -> StrandView {
        StrandView { cid: self.cid@, data: self.data@, spec: self.spec@, details: self.details@ }
    }
}

impl View for Tixel {
    type V = TixelView;

    open spec fn view(&self) -> TixelView {
        TixelView {
            cid: self.cid@,
            data: self.data@,
            strand_cid: self.strand_cid@,
            index: self.index,
            back: opt_view(self.back),
        }
    }
}

pub fn copy_bytes(b: &Vec<u8>) -> (r: Vec<u8>)
    ensures
        r@ == b@,
{
    let r = b.clone();
    assert(r@ =~= b@);
    r
}

pub fn copy_opt_text(o: &Option<String>) -> (r: Option<String>)
    ensures
        opt_view(r) == opt_view(*o),
{
    match o {
        Some(s) => Some(s.clone()),
        None => None,
    }
}

impl Strand {
    /// A copy of the Strand, equal to it in every field.
    pub fn duplicate(&self) -> (r: Strand)
        ensures
            r@ == self@,
    {
        Strand {
            cid: self.cid.clone(),
            data: copy_bytes(&self.data),
            spec: self.spec.clone(),
            details: self.details.clone(),
        }
    }
}

impl Tixel {
    /// A copy of the Tixel, equal to it in every field.
    pub fn duplicate(&self) -> (r: Tixel)
        ensures
            r@ == self@,
    {
        Tixel {
            cid: self.cid.clone(),
            data: copy_bytes(&self.data),
            strand_cid: self.strand_cid.clone(),
            index: self.index,
            back: copy_opt_text(&self.back),
        }
    }
}

/// A block of either kind.
pub enum AnyBlock {
    Strand(Strand),
    Tixel(Tixel),
}

/// A Tixel together with the Strand of its chain: the unit that a query
/// returns.
pub struct Twine {
    pub strand: Strand,
    pub tixel: Tixel,
}

impl Twine {
    /// Pairs a Tixel with a Strand; fails unless the Tixel belongs to that
    /// Strand.
    pub fn try_new(strand: Strand, tixel: Tixel) -> (r: Result<Twine, ApiError>)
        ensures
            r is Ok <==> tixel.strand_cid@ == strand.cid@,
            r matches Ok(tw) ==> tw.strand@ == strand@ && tw.tixel@ == tixel@,
            r matches Err(e) ==> e is VerificationError,
    {
        if tixel.strand_cid == strand.cid {
            Ok(Twine { strand, tixel })
        } else {
            Err(ApiError::VerificationError(String::from_str("Tixel does not belong to the strand")))
        }
    }

    /// The index of the Tixel.
    pub fn index(&self) -> (r: u64)
        ensures
            r == self.tixel.index,
    {
        self.tixel.index
    }
}

} // verus!
