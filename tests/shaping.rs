use spool::block::{AnyBlock, Strand, Tixel, Twine};
use spool::errors::{ApiError, ApiKeyValidationError};
use spool::formatting::{car_blocks, json_data, response_format, strand_blocks, RequestQuery, ResponseData, ResponseFormat};
use spool::resolve::QueryResult;
use spool::settings::{accepts_all_strands, get_max_batch_size, legacy_method_allowed, legacy_path};

fn strand(cid: &str) -> Strand {
    Strand { cid: cid.to_string(), data: vec![1], spec: "twine/2.0.0".to_string(), details: "{}".to_string() }
}

fn tixel(cid: &str, index: u64) -> Tixel {
    Tixel { cid: cid.to_string(), data: vec![2], strand_cid: "s0".to_string(), index, back: None }
}

fn twine(cid: &str, index: u64) -> Twine {
    Twine::try_new(strand("s0"), tixel(cid, index)).ok().unwrap()
}

fn cids(bs: &[AnyBlock]) -> Vec<String> {
    bs.iter()
        .map(|b| match b {
            AnyBlock::Strand(s) => format!("S:{}", s.cid),
            AnyBlock::Tixel(t) => format!("T:{}", t.cid),
        })
        .collect()
}

#[test]
fn car_answer_of_one_twine() {
    let r = QueryResult::Twine(twine("t0", 0));
    assert_eq!(cids(&car_blocks(&r, false)), vec!["T:t0"]);
    assert_eq!(cids(&car_blocks(&r, true)), vec!["S:s0", "T:t0"]);
}

#[test]
fn car_answer_of_strand_and_list() {
    let r = QueryResult::Strand(strand("s0"));
    assert_eq!(cids(&car_blocks(&r, true)), vec!["S:s0"]);
    let l = QueryResult::List(vec![twine("t0", 0), twine("t1", 1)]);
    assert_eq!(cids(&car_blocks(&l, false)), vec!["T:t0", "T:t1"]);
    assert_eq!(cids(&car_blocks(&l, true)), vec!["S:s0", "T:t0", "T:t1"]);
    let empty = QueryResult::List(vec![]);
    assert!(car_blocks(&empty, true).is_empty());
}

#[test]
fn json_answer_carries_strand_only_when_full() {
    let r = QueryResult::Twine(twine("t0", 0));
    let plain = json_data(&r, false);
    assert_eq!(cids(&plain.items), vec!["T:t0"]);
    assert!(plain.strand.is_none());
    let full = json_data(&r, true);
    assert_eq!(cids(&full.items), vec!["T:t0"]);
    assert_eq!(full.strand.map(|s| s.cid), Some("s0".to_string()));
    let l = json_data(&QueryResult::List(vec![twine("t0", 0)]), true);
    assert_eq!(l.strand.map(|s| s.cid), Some("s0".to_string()));
}

#[test]
fn response_data_builders() {
    let mut d = ResponseData::from_query_result(&QueryResult::Strand(strand("s0")));
    assert_eq!(cids(&d.items), vec!["S:s0"]);
    d.with_strand(strand("s1"));
    assert_eq!(d.strand.map(|s| s.cid), Some("s1".to_string()));
    let c = ResponseData::from_collection(strand_blocks(&vec![strand("a"), strand("b")]));
    assert_eq!(cids(&c.items), vec!["S:a", "S:b"]);
    assert!(RequestQuery { full: Some("1".to_string()) }.is_full());
    assert!(!RequestQuery { full: None }.is_full());
}

#[test]
fn format_follows_accept_header() {
    assert!(matches!(response_format("application/vnd.ipld.car"), ResponseFormat::Car));
    assert!(matches!(response_format("application/octet-stream"), ResponseFormat::Car));
    assert!(matches!(response_format("application/json"), ResponseFormat::Json));
    assert!(matches!(response_format(""), ResponseFormat::Json));
}

#[test]
fn twine_needs_matching_strand() {
    assert!(Twine::try_new(strand("s1"), tixel("t0", 0)).is_err());
    assert_eq!(twine("t0", 4).index(), 4);
}

#[test]
fn error_statuses() {
    let cases: Vec<(ApiError, &str, u16)> = vec![
        (ApiError::NotFound, "Not found", 404),
        (ApiError::Unauthorized, "Unauthorized", 401),
        (ApiError::BadRequestData("bad".to_string()), "bad", 400),
        (ApiError::InvalidQuery("q".to_string()), "q", 400),
        (ApiError::Conflict("dup".to_string()), "dup", 409),
        (ApiError::Corrupted("c".to_string()), "c", 500),
        (ApiError::ServerError("s".to_string()), "s", 500),
        (ApiError::VerificationError("v".to_string()), "v", 500),
        (ApiError::ResolutionError("r".to_string()), "r", 500),
        (ApiError::StoreError("w".to_string()), "w", 500),
        (ApiError::ApiKeyError(ApiKeyValidationError::InvalidKey), "Invalid API key", 401),
        (ApiError::ApiKeyError(ApiKeyValidationError::ExpiredKey), "Expired API key", 401),
        (ApiError::ApiKeyError(ApiKeyValidationError::DatabaseError("x".to_string())), "Server error", 500),
    ];
    for (e, text, status) in cases {
        let (t, s) = e.response_info();
        assert_eq!(t, text);
        assert_eq!(s, status);
    }
    assert!(ApiError::NotFound.is_not_found());
    assert!(!ApiError::Unauthorized.is_not_found());
}

#[test]
fn settings() {
    assert_eq!(get_max_batch_size(None), 1000);
    assert_eq!(get_max_batch_size(Some("10")), 10);
    assert_eq!(get_max_batch_size(Some("+25")), 25);
    assert_eq!(get_max_batch_size(Some("ten")), 1000);
    assert_eq!(get_max_batch_size(Some("18446744073709551615")), u64::MAX);
    assert_eq!(get_max_batch_size(Some("18446744073709551616")), 1000);
    assert!(accepts_all_strands(Some("true")));
    assert!(!accepts_all_strands(Some("TRUE")));
    assert!(!accepts_all_strands(None));
}

#[test]
fn legacy_forwarding() {
    assert_eq!(legacy_path("/v1/abc:1"), "abc:1");
    assert_eq!(legacy_path("/v1"), "");
    assert_eq!(legacy_path("/other"), "other");
    assert!(legacy_method_allowed("PUT"));
    assert!(!legacy_method_allowed("DELETE"));
}

#[test]
fn log_line_layout() {
    assert_eq!(
        spool::logging::log_line("2024-01-01T00:00:00.000Z", "INFO", "spool", "saved"),
        "2024-01-01T00:00:00.000Z [INFO] spool: saved"
    );
}
