use spool::block::{AnyBlock, Strand, Tixel};
use spool::errors::ApiError;
use spool::ingest::{put_strands, put_tixels, sort_by_index};
use spool::query::{AbsoluteRange, GeneralQuery, Query};
use spool::resolve::QueryResult;
use spool::store::D1Store;

fn strand(cid: &str) -> Strand {
    Strand {
        cid: cid.to_string(),
        data: vec![1, 2, 3],
        spec: "twine/2.0.0".to_string(),
        details: "{}".to_string(),
    }
}

fn tixel(cid: &str, strand_cid: &str, index: u64, back: Option<&str>) -> Tixel {
    Tixel {
        cid: cid.to_string(),
        data: vec![index as u8, 7],
        strand_cid: strand_cid.to_string(),
        index,
        back: back.map(|b| b.to_string()),
    }
}

fn chain() -> Vec<Tixel> {
    vec![
        tixel("t0", "s0", 0, None),
        tixel("t1", "s0", 1, Some("t0")),
        tixel("t2", "s0", 2, Some("t1")),
    ]
}

fn store_with_strand(max: u64) -> D1Store {
    let mut store = D1Store::new(max);
    store.save_strand(strand("s0"));
    store
}

fn full_store() -> D1Store {
    let mut store = store_with_strand(1000);
    store.save_many(chain());
    store
}

fn tixel_of(r: Result<QueryResult, ApiError>) -> Tixel {
    match r {
        Ok(QueryResult::Twine(tw)) => tw.tixel,
        _ => panic!("expected a twine"),
    }
}

#[test]
fn chain_in_order_is_stored_whole() {
    let store = full_store();
    for (i, cid) in ["t0", "t1", "t2"].iter().enumerate() {
        assert!(store.has_tixel(&cid.to_string()));
        assert!(store.has_index(&"s0".to_string(), i as u64));
    }
    assert_eq!(store.latest_index(&"s0".to_string()).ok(), Some(2));
}

#[test]
fn linkage_violation_keeps_prefix() {
    let mut store = store_with_strand(1000);
    let c = chain();
    let mut batch = Vec::new();
    for t in c.into_iter() {
        if t.index != 1 {
            batch.push(t);
        }
    }
    store.save_many(batch);
    assert!(store.has_tixel(&"t0".to_string()));
    assert!(!store.has_tixel(&"t2".to_string()));
    let r = store.exec_query("s0:2");
    assert!(matches!(r, Err(ApiError::NotFound)));
    assert_eq!(r.err().unwrap().response_info().1, 404);
}

#[test]
fn other_order_leaves_contiguous_prefix() {
    let mut store = store_with_strand(1000);
    let c = chain();
    let mut batch = Vec::new();
    for i in [1usize, 0, 2] {
        batch.push(c[i].duplicate());
    }
    store.save_many(batch);
    assert!(store.has_tixel(&"t0".to_string()));
    assert!(!store.has_tixel(&"t1".to_string()));
    assert!(!store.has_tixel(&"t2".to_string()));
}

#[test]
fn idempotent_reingest() {
    let mut store = store_with_strand(1000);
    assert!(put_tixels(&mut store, &"s0".to_string(), chain()).is_ok());
    assert!(put_tixels(&mut store, &"s0".to_string(), chain()).is_ok());
    assert!(store.has_index(&"s0".to_string(), 2));
    assert!(!store.has_index(&"s0".to_string(), 3));
    match store.exec_query("s0:0:2") {
        Ok(QueryResult::List(l)) => assert_eq!(l.len(), 3),
        _ => panic!("expected a list"),
    }
}

#[test]
fn ingest_sorts_by_index() {
    let mut store = store_with_strand(1000);
    let c = chain();
    let shuffled = vec![c[2].duplicate(), c[0].duplicate(), c[1].duplicate()];
    assert!(put_tixels(&mut store, &"s0".to_string(), shuffled).is_ok());
    assert_eq!(store.latest_index(&"s0".to_string()).ok(), Some(2));
}

#[test]
fn sort_by_index_orders_ascending() {
    let c = chain();
    let sorted = sort_by_index(vec![c[2].duplicate(), c[1].duplicate(), c[0].duplicate()]);
    let idx: Vec<u64> = sorted.iter().map(|t| t.index).collect();
    assert_eq!(idx, vec![0, 1, 2]);
}

#[test]
fn ingest_to_unregistered_strand_is_unauthorized() {
    let mut store = D1Store::new(1000);
    let r = put_tixels(&mut store, &"s0".to_string(), chain());
    assert!(matches!(r, Err(ApiError::Unauthorized)));
    assert_eq!(r.err().unwrap().response_info().1, 401);
    assert!(!store.has_tixel(&"t0".to_string()));
}

#[test]
fn ingest_of_foreign_tixel_fails_whole() {
    let mut store = store_with_strand(1000);
    let mut c = chain();
    c.push(tixel("x0", "s1", 0, None));
    let r = put_tixels(&mut store, &"s0".to_string(), c);
    assert!(matches!(r, Err(ApiError::VerificationError(_))));
    assert!(!store.has_tixel(&"t0".to_string()));
}

#[test]
fn put_many_twines_refuses_foreign_tixel() {
    let mut store = store_with_strand(1000);
    let mut c = chain();
    c.push(tixel("x0", "s1", 0, None));
    let r = store.put_many_twines(&"s0".to_string(), c);
    match r {
        Err(ApiError::BadRequestData(m)) => assert_eq!(m, "Twine does not belong to specified strand"),
        _ => panic!("expected BadRequestData"),
    }
    assert!(!store.has_tixel(&"t0".to_string()));
    assert!(store.put_many_twines(&"s0".to_string(), chain()).is_ok());
    assert!(store.has_tixel(&"t2".to_string()));
}

#[test]
fn append_of_stored_cid_is_noop() {
    let mut store = full_store();
    store.save_tixel(tixel("t1", "s0", 3, Some("t2")));
    assert!(!store.has_index(&"s0".to_string(), 3));
    store.save_strand(Strand { data: vec![9], ..strand("s0") });
    let strands = store.get_strands();
    assert_eq!(strands.len(), 1);
    assert_eq!(strands[0].data, vec![1, 2, 3]);
}

#[test]
fn wrong_back_stitch_is_refused() {
    let mut store = store_with_strand(1000);
    store.save_tixel(tixel("t0", "s0", 0, None));
    store.save_tixel(tixel("t1", "s0", 1, Some("other")));
    assert!(!store.has_tixel(&"t1".to_string()));
    store.save_tixel(tixel("t1", "s0", 1, None));
    assert!(!store.has_tixel(&"t1".to_string()));
    store.save_tixel(tixel("t1", "s0", 1, Some("t0")));
    assert!(store.has_tixel(&"t1".to_string()));
}

#[test]
fn one_tixel_per_index() {
    let mut store = full_store();
    store.save_tixel(tixel("t1b", "s0", 1, Some("t0")));
    assert!(!store.has_tixel(&"t1b".to_string()));
}

#[test]
fn unwritable_strand_refuses_appends() {
    let mut store = store_with_strand(1000);
    store.set_writable(&"s0".to_string(), false);
    store.save_tixel(tixel("t0", "s0", 0, None));
    assert!(!store.has_tixel(&"t0".to_string()));
    store.set_writable(&"s0".to_string(), true);
    store.save_tixel(tixel("t0", "s0", 0, None));
    assert!(store.has_tixel(&"t0".to_string()));
}

#[test]
fn tixel_without_strand_is_refused() {
    let mut store = D1Store::new(1000);
    store.save_tixel(tixel("t0", "s0", 0, None));
    assert!(!store.has_tixel(&"t0".to_string()));
}

#[test]
fn range_overflow_is_bad_request() {
    let mut store = store_with_strand(10);
    store.save_many(chain());
    let r = store.exec_query("s0:0:100");
    match &r {
        Err(ApiError::BadRequestData(m)) => assert_eq!(m, "Range size too large"),
        _ => panic!("expected BadRequestData"),
    }
    assert_eq!(r.err().unwrap().response_info().1, 400);
}

#[test]
fn range_within_bound_but_past_latest_is_not_found() {
    let store = full_store();
    assert!(matches!(store.exec_query("s0:0:5"), Err(ApiError::NotFound)));
}

#[test]
fn range_ascending_and_descending() {
    let store = full_store();
    match store.exec_query("s0:0:2") {
        Ok(QueryResult::List(l)) => {
            let idx: Vec<u64> = l.iter().map(|tw| tw.tixel.index).collect();
            assert_eq!(idx, vec![0, 1, 2]);
            assert!(l.iter().all(|tw| tw.strand.cid == "s0"));
        },
        _ => panic!("expected a list"),
    }
    match store.exec_query("s0:-1:0") {
        Ok(QueryResult::List(l)) => {
            let idx: Vec<u64> = l.iter().map(|tw| tw.tixel.index).collect();
            assert_eq!(idx, vec![2, 1, 0]);
        },
        _ => panic!("expected a list"),
    }
}

#[test]
fn range_on_empty_strand_is_empty() {
    let store = store_with_strand(1000);
    match store.exec_query("s0:0:3") {
        Ok(QueryResult::List(l)) => assert!(l.is_empty()),
        _ => panic!("expected a list"),
    }
    let full = full_store();
    match full.exec_query("s0:-9:0") {
        Ok(QueryResult::List(l)) => assert!(l.is_empty()),
        _ => panic!("expected a list"),
    }
}

#[test]
fn index_minus_one() {
    let empty = store_with_strand(1000);
    assert!(matches!(empty.exec_query("s0:-1"), Err(ApiError::NotFound)));
    let store = full_store();
    assert_eq!(tixel_of(store.exec_query("s0:-1")).cid, "t2");
    assert_eq!(tixel_of(store.exec_query("s0:-3")).cid, "t0");
    assert!(matches!(store.exec_query("s0:-4"), Err(ApiError::NotFound)));
    assert_eq!(tixel_of(store.exec_query("s0:latest")).cid, "t2");
    assert_eq!(tixel_of(store.exec_query("s0:1")).cid, "t1");
}

#[test]
fn stitch_query() {
    let mut store = full_store();
    assert_eq!(tixel_of(store.exec_query("s0:t1")).index, 1);
    store.save_strand(strand("s1"));
    store.save_tixel(tixel("u0", "s1", 0, None));
    assert!(matches!(store.exec_query("s0:u0"), Err(ApiError::VerificationError(_))));
    assert!(matches!(store.exec_query("s0:zz"), Err(ApiError::NotFound)));
    assert!(matches!(store.exec_query("s9:t1"), Err(ApiError::NotFound)));
}

#[test]
fn cid_query() {
    let store = full_store();
    match store.exec_query("s0") {
        Ok(QueryResult::Strand(s)) => assert_eq!(s.cid, "s0"),
        _ => panic!("expected a strand"),
    }
    match store.exec_query("t2") {
        Ok(QueryResult::Twine(tw)) => {
            assert_eq!(tw.strand.cid, "s0");
            assert_eq!(tw.tixel.index, 2);
        },
        _ => panic!("expected a twine"),
    }
    assert!(matches!(store.exec_query("nothing"), Err(ApiError::NotFound)));
    match store.get_by_cid(&"t0".to_string()) {
        Ok(AnyBlock::Tixel(t)) => assert_eq!(t.index, 0),
        _ => panic!("expected a tixel"),
    }
}

#[test]
fn head_on_range_is_bad_request() {
    let store = full_store();
    let r = store.has("s0:0:1");
    assert!(matches!(r, Err(ApiError::InvalidQuery(_))));
    assert_eq!(r.err().unwrap().response_info().1, 400);
    assert_eq!(store.has("s0:0").ok(), Some(true));
    assert_eq!(store.has("s0:9").ok(), Some(false));
    assert_eq!(store.has("s0").ok(), Some(true));
    assert_eq!(store.has("t1").ok(), Some(true));
    assert_eq!(store.has("s0:latest").ok(), Some(true));
}

#[test]
fn query_grammar() {
    assert!(matches!(GeneralQuery::from_str(""), Err(ApiError::InvalidQuery(_))));
    assert!(matches!(GeneralQuery::from_str("a:b:c:d"), Err(ApiError::InvalidQuery(_))));
    assert!(matches!(GeneralQuery::from_str("s0:-x"), Err(ApiError::InvalidQuery(_))));
    assert!(matches!(GeneralQuery::from_str("s0:99999999999999999999"), Err(ApiError::InvalidQuery(_))));
    assert!(matches!(GeneralQuery::from_str(":1"), Err(ApiError::InvalidQuery(_))));
    assert!(matches!(GeneralQuery::from_str("s0:1:x"), Err(ApiError::InvalidQuery(_))));
    match GeneralQuery::from_str("s0:-12") {
        Ok(GeneralQuery::Query(Query::Index(s, i))) => {
            assert_eq!(s, "s0");
            assert_eq!(i, -12);
        },
        _ => panic!("expected an index query"),
    }
    match GeneralQuery::from_str("s0:9223372036854775807:-3") {
        Ok(GeneralQuery::Range(r)) => {
            assert_eq!(r.start, i64::MAX);
            assert_eq!(r.end, -3);
        },
        _ => panic!("expected a range query"),
    }
    match GeneralQuery::from_str("s0:t1") {
        Ok(GeneralQuery::Query(Query::Stitch { strand, tixel })) => {
            assert_eq!(strand, "s0");
            assert_eq!(tixel, "t1");
        },
        _ => panic!("expected a stitch query"),
    }
    assert!(matches!(GeneralQuery::from_str("s0:latest"), Ok(GeneralQuery::Query(Query::Latest(_)))));
    assert!(matches!(GeneralQuery::from_str("bafy"), Ok(GeneralQuery::Cid(_))));
}

#[test]
fn reingest_of_query_answer_changes_nothing() {
    let mut store = full_store();
    let answer = match store.exec_query("s0:0:2") {
        Ok(QueryResult::List(l)) => l,
        _ => panic!("expected a list"),
    };
    let blocks: Vec<Tixel> = answer.iter().map(|tw| tw.tixel.duplicate()).collect();
    assert!(put_tixels(&mut store, &"s0".to_string(), blocks).is_ok());
    assert_eq!(store.latest_index(&"s0".to_string()).ok(), Some(2));
    put_strands(&mut store, vec![strand("s0"), strand("s1")]);
    assert_eq!(store.get_strands().len(), 2);
}

#[test]
fn ranges_split_into_batches() {
    let up = AbsoluteRange { strand: "s0".to_string(), start: 0, end: 2499 };
    let b: Vec<(u64, u64)> = up.batches(1000).iter().map(|r| (r.start, r.end)).collect();
    assert_eq!(b, vec![(0, 999), (1000, 1999), (2000, 2499)]);
    let down = AbsoluteRange { strand: "s0".to_string(), start: 2499, end: 0 };
    let b: Vec<(u64, u64)> = down.batches(1000).iter().map(|r| (r.start, r.end)).collect();
    assert_eq!(b, vec![(2499, 1500), (1499, 500), (499, 0)]);
    let one = AbsoluteRange { strand: "s0".to_string(), start: 7, end: 7 };
    assert_eq!(one.len(), 1);
    assert_eq!(one.batches(1000).len(), 1);
    assert_eq!(down.len(), 2500);
    assert_eq!(down.index_at(1), 2498);
    assert!(!down.is_increasing());
}

#[test]
fn long_range_read_crosses_batches() {
    let mut store = store_with_strand(5000);
    let mut ts = Vec::new();
    for i in 0..1203u64 {
        let back = if i == 0 { None } else { Some(format!("c{}", i - 1)) };
        ts.push(Tixel {
            cid: format!("c{}", i),
            data: vec![],
            strand_cid: "s0".to_string(),
            index: i,
            back,
        });
    }
    store.save_many(ts);
    match store.exec_query("s0:-1:0") {
        Ok(QueryResult::List(l)) => {
            assert_eq!(l.len(), 1203);
            assert_eq!(l[0].tixel.index, 1202);
            assert_eq!(l[1000].tixel.index, 202);
            assert_eq!(l[1202].tixel.index, 0);
        },
        _ => panic!("expected a list"),
    }
}

#[test]
fn parsed_queries_evaluate_alike() {
    let store = full_store();
    let g = GeneralQuery::from_str("s0:1").ok().unwrap();
    assert_eq!(tixel_of(store.exec_general(&g)).cid, "t1");
    assert_eq!(store.has_general(&g).ok(), Some(true));
    let range = GeneralQuery::from_str("s0:0:1").ok().unwrap();
    assert!(matches!(store.has_general(&range), Err(ApiError::InvalidQuery(_))));
}
