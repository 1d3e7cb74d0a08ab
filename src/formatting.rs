//! Shaping query answers for the client: the blocks of a CAR answer, or the
//! items of a JSON answer, chosen by the `Accept` header and the `full` flag.
use vstd::prelude::*;
use vstd::string::StringExecFns;
use crate::block::{AnyBlock, Strand, StrandView, Tixel, TixelView, Twine};
use crate::resolve::QueryResult;

verus! {

/// The options of a query request.
pub struct RequestQuery {
    /// Present where the answer should carry the Strand too.
    pub full: Option<String>,
}

impl RequestQuery {
    pub fn is_full(&self) -> (r: bool)
        ensures
            r == self.full is Some,
    {
        self.full.is_some()
    }
}

pub enum AnyBlockView {
    Strand(StrandView),
    Tixel(TixelView),
}

impl View for AnyBlock {
    type V = AnyBlockView;

    open spec fn view(&self) -> AnyBlockView {
        match self {
            AnyBlock::Strand(s) => AnyBlockView::Strand(s@),
            AnyBlock::Tixel(t) => AnyBlockView::Tixel(t@),
        }
    }
}

pub open spec fn block_views(bs: Seq<AnyBlock>) -> Seq<AnyBlockView> {
    bs.map_values(|b: AnyBlock| b@)
}

pub open spec fn tixel_blocks(l: Seq<Twine>) -> Seq<AnyBlockView> {
    l.map_values(|tw: Twine| AnyBlockView::Tixel(tw.tixel@))
}

/// The encoding of an answer.
pub enum ResponseFormat {
    Json,
    Car,
}

/// A CAR answer where the client accepts `application/vnd.ipld.car` or
/// `application/octet-stream`; JSON otherwise.
pub fn response_format(accept: &str) -> (r: ResponseFormat)
    ensures
        r is Car <==> (accept@ == "application/octet-stream"@ || accept@ == "application/vnd.ipld.car"@),
{
    let a = String::from_str(accept);
    if a == String::from_str("application/octet-stream") || a == String::from_str("application/vnd.ipld.car") {
        ResponseFormat::Car
    } else {
        ResponseFormat::Json
    }
}

/// The blocks of a CAR answer: a Strand alone; or the Tixels, led by their
/// Strand when `full` is set and there is at least one Tixel.
pub open spec fn car_spec(result: QueryResult, full: bool) -> Seq<AnyBlockView> {
    match result {
        QueryResult::Strand(s) => seq![AnyBlockView::Strand(s@)],
        QueryResult::Twine(tw) => if full {
            seq![AnyBlockView::Strand(tw.strand@), AnyBlockView::Tixel(tw.tixel@)]
        } else {
            seq![AnyBlockView::Tixel(tw.tixel@)]
        },
        QueryResult::List(l) => if full && l@.len() > 0 {
            seq![AnyBlockView::Strand(l@[0].strand@)] + tixel_blocks(l@)
        } else {
            tixel_blocks(l@)
        },
    }
}

/// The Tixel of each Twine, as blocks.
fn tixels_of(l: &Vec<Twine>) -> (r: Vec<AnyBlock>)
    ensures
        block_views(r@) == tixel_blocks(l@),
{
    let mut r: Vec<AnyBlock> = Vec::new();
    let mut i: usize = 0;
    while i < l.len()
        invariant
            i <= l@.len(),
            block_views(r@) == tixel_blocks(l@.subrange(0, i as int)),
        decreases l@.len() - i,
    {
        let ghost r0 = r@;
        r.push(AnyBlock::Tixel(l[i].tixel.duplicate()));
        assert(tixel_blocks(l@.subrange(0, i as int + 1)) =~= tixel_blocks(l@.subrange(0, i as int)).push(
            AnyBlockView::Tixel(l@[i as int].tixel@),
        ));
        assert(block_views(r@) =~= block_views(r0).push(r@[i as int]@));
        i += 1;
    }
    assert(l@.subrange(0, l@.len() as int) =~= l@);
    r
}

/// The blocks of the CAR answer to `result`.
pub fn car_blocks(result: &QueryResult, full: bool) -> (r: Vec<AnyBlock>)
    ensures
        block_views(r@) == car_spec(*result, full),
{
    match result {
        QueryResult::Strand(s) => {
            let r = vec![AnyBlock::Strand(s.duplicate())];
            assert(block_views(r@) =~= car_spec(*result, full));
            r
        },
        QueryResult::Twine(tw) => {
            let r = if full {
                vec![AnyBlock::Strand(tw.strand.duplicate()), AnyBlock::Tixel(tw.tixel.duplicate())]
            } else {
                vec![AnyBlock::Tixel(tw.tixel.duplicate())]
            };
            assert(block_views(r@) =~= car_spec(*result, full));
            r
        },
        QueryResult::List(l) => {
            let ts = tixels_of(l);
            if full && l.len() > 0 {
                let mut r = vec![AnyBlock::Strand(l[0].strand.duplicate())];
                let mut rest = ts;
                r.append(&mut rest);
                assert(block_views(r@) =~= seq![AnyBlockView::Strand(l@[0].strand@)] + tixel_blocks(l@));
                r
            } else {
                ts
            }
        },
    }
}

/// The body of a JSON answer: the items, and the Strand where asked for.
pub struct ResponseData {
    pub items: Vec<AnyBlock>,
    pub strand: Option<Strand>,
}

pub open spec fn strand_opt_view(o: Option<Strand>) -> Option<StrandView> {
    match o {
        Some(s) => Some(s@),
        None => None,
    }
}

/// The items of a JSON answer: the Strand of a Strand answer, else the
/// Tixels.
pub open spec fn items_spec(result: QueryResult) -> Seq<AnyBlockView> {
    match result {
        QueryResult::Strand(s) => seq![AnyBlockView::Strand(s@)],
        QueryResult::Twine(tw) => seq![AnyBlockView::Tixel(tw.tixel@)],
        QueryResult::List(l) => tixel_blocks(l@),
    }
}

/// The Strand of a JSON answer: that of the Twines, where `full` is set and
/// there is a Twine.
pub open spec fn json_strand_spec(result: QueryResult, full: bool) -> Option<StrandView> {
    match result {
        QueryResult::Strand(_) => None,
        QueryResult::Twine(tw) => if full { Some(tw.strand@) } else { None },
        QueryResult::List(l) => if full && l@.len() > 0 { Some(l@[0].strand@) } else { None },
    }
}

impl ResponseData {
    /// The items of the answer to `result`, without a Strand.
    pub fn from_query_result(result: &QueryResult) -> (r: ResponseData)
        ensures
            block_views(r.items@) == items_spec(*result),
            r.strand is None,
    {
        match result {
            QueryResult::Strand(s) => ResponseData::from_twine(AnyBlock::Strand(s.duplicate())),
            QueryResult::Twine(tw) => ResponseData::from_twine(AnyBlock::Tixel(tw.tixel.duplicate())),
            QueryResult::List(l) => ResponseData::from_collection(tixels_of(l)),
        }
    }

    /// A body whose items are the given blocks.
    pub fn from_collection(items: Vec<AnyBlock>) -> (r: ResponseData)
        ensures
            r.items@ == items@,
            r.strand is None,
    {
        ResponseData { items, strand: None }
    }

    /// A body with the one block.
    pub fn from_twine(block: AnyBlock) -> (r: ResponseData)
        ensures
            block_views(r.items@) == seq![block@],
            r.strand is None,
    {
        let r = ResponseData { items: vec![block], strand: None };
        assert(block_views(r.items@) =~= seq![block@]);
        r
    }

    /// Adds the Strand to the body.
    pub fn with_strand(&mut self, strand: Strand)
        ensures
            final(self).items == old(self).items,
            strand_opt_view(final(self).strand) == Some(strand@),
    {
        self.strand = Some(strand);
    }
}

/// The body of the JSON answer to `result`.
pub fn json_data(result: &QueryResult, full: bool) -> (r: ResponseData)
    ensures
        block_views(r.items@) == items_spec(*result),
        strand_opt_view(r.strand) == json_strand_spec(*result, full),
{
    let mut r = ResponseData::from_query_result(result);
    match result {
        QueryResult::Strand(_) => {},
        QueryResult::Twine(tw) => {
            if full {
                r.with_strand(tw.strand.duplicate());
            }
        },
        QueryResult::List(l) => {
            if full && l.len() > 0 {
                r.with_strand(l[0].strand.duplicate());
            }
        },
    }
    r
}

pub open spec fn strand_blocks_spec(ss: Seq<Strand>) -> Seq<AnyBlockView> {
    ss.map_values(|s: Strand| AnyBlockView::Strand(s@))
}

/// The listing of all Strands, as blocks, in the order given: the items of
/// the JSON answer and the blocks of the CAR answer alike.
pub fn strand_blocks(strands: &Vec<Strand>) -> (r: Vec<AnyBlock>)
    ensures
        block_views(r@) == strand_blocks_spec(strands@),
{
    let mut r: Vec<AnyBlock> = Vec::new();
    let mut i: usize = 0;
    while i < strands.len()
        invariant
            i <= strands@.len(),
            block_views(r@) == strand_blocks_spec(strands@.subrange(0, i as int)),
        decreases strands@.len() - i,
    {
        let ghost r0 = r@;
        r.push(AnyBlock::Strand(strands[i].duplicate()));
        assert(strand_blocks_spec(strands@.subrange(0, i as int + 1)) =~= strand_blocks_spec(
            strands@.subrange(0, i as int),
        ).push(AnyBlockView::Strand(strands@[i as int]@)));
        assert(block_views(r@) =~= block_views(r0).push(r@[i as int]@));
        i += 1;
    }
    assert(strands@.subrange(0, strands@.len() as int) =~= strands@);
    r
}

} // verus!
