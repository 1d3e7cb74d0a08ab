use spool::access_control::{authorize, ApiKey, ApiKeyRecord, ApiKeyTable};
use spool::block::{Strand, Tixel};
use spool::errors::{ApiError, ApiKeyValidationError};
use spool::ingest::put_tixels;
use spool::registration::{fetch_registration, register_strand, register_with_receipt, RegistrationRecord, RegistrationRequest, RegistrationStatus, Registrations};
use spool::resolve::QueryResult;
use spool::store::D1Store;

fn strand(cid: &str) -> Strand {
    Strand { cid: cid.to_string(), data: vec![5, 6], spec: "twine/2.0.0".to_string(), details: "{}".to_string() }
}

fn chain() -> Vec<Tixel> {
    let mk = |cid: &str, index: u64, back: Option<&str>| Tixel {
        cid: cid.to_string(),
        data: vec![index as u8],
        strand_cid: "s0".to_string(),
        index,
        back: back.map(|b| b.to_string()),
    };
    vec![mk("t0", 0, None), mk("t1", 1, Some("t0")), mk("t2", 2, Some("t1"))]
}

fn request(cid: &str) -> RegistrationRequest {
    RegistrationRequest { email: "a@b.c".to_string(), strand: strand(cid) }
}

#[test]
fn register_and_append() {
    let mut regs = Registrations::new();
    let mut store = D1Store::new(1000);
    let rec = register_strand(&mut regs, &mut store, request("s0"), true).ok().unwrap();
    assert_eq!(rec.status, RegistrationStatus::Approved);
    assert_eq!(rec.uuid.len(), 36);
    assert_eq!(rec.strand, vec![5, 6]);
    match store.exec_query("s0") {
        Ok(QueryResult::Strand(s)) => assert_eq!(s.cid, "s0"),
        _ => panic!("expected the strand"),
    }
    assert!(put_tixels(&mut store, &"s0".to_string(), chain()).is_ok());
    match store.exec_query("s0:-1") {
        Ok(QueryResult::Twine(tw)) => assert_eq!(tw.tixel.cid, "t2"),
        _ => panic!("expected a twine"),
    }
    assert!(regs.fetch(&rec.uuid).is_some());
}

#[test]
fn second_registration_conflicts() {
    let mut regs = Registrations::new();
    let mut store = D1Store::new(1000);
    assert!(register_strand(&mut regs, &mut store, request("s0"), true).is_ok());
    let r = register_strand(&mut regs, &mut store, request("s0"), true);
    assert!(matches!(r, Err(ApiError::Conflict(_))));
    assert_eq!(r.err().unwrap().response_info().1, 409);
}

#[test]
fn pending_then_approved_registration() {
    let mut regs = Registrations::new();
    let mut store = D1Store::new(1000);
    let rec = register_strand(&mut regs, &mut store, request("s0"), false).ok().unwrap();
    assert_eq!(rec.status, RegistrationStatus::Pending);
    assert!(!store.has_strand(&"s0".to_string()));
    assert!(regs.check_approved(&"s0".to_string()).is_none());
    assert!(regs.set_status(&rec.uuid, RegistrationStatus::Approved).is_ok());
    assert!(matches!(regs.set_status(&rec.uuid, RegistrationStatus::Rejected), Err(ApiError::BadRequestData(_))));
    assert!(matches!(regs.set_status(&"nope".to_string(), RegistrationStatus::Approved), Err(ApiError::NotFound)));
    let again = register_strand(&mut regs, &mut store, request("s0"), false).ok().unwrap();
    assert_eq!(again.uuid, rec.uuid);
    assert_eq!(again.status, RegistrationStatus::Approved);
    assert!(store.has_strand(&"s0".to_string()));
}

#[test]
fn registration_records() {
    let s = strand("s0");
    let r = RegistrationRecord::new("x@y.z".to_string(), &s);
    assert_eq!(r.status, RegistrationStatus::Pending);
    assert_eq!(r.strand_cid, "s0");
    let p = RegistrationRecord::new_preapproved("x@y.z".to_string(), "s0".to_string(), &s);
    assert_eq!(p.status, RegistrationStatus::Approved);
    assert_ne!(r.uuid, p.uuid);
    let mut regs = Registrations::new();
    let copy = r.duplicate();
    assert!(regs.save(r).is_ok());
    assert!(matches!(regs.save(copy), Err(ApiError::ServerError(_))));
}

#[test]
fn api_key_hex() {
    let k = ApiKey::from_str("0a0B").ok().unwrap();
    assert_eq!(k.bytes(), &vec![10u8, 11]);
    assert_eq!(k.to_string(), "0a0b");
    assert!(matches!(ApiKey::from_str("abc"), Err(ApiKeyValidationError::InvalidKey)));
    assert!(matches!(ApiKey::from_str("zz"), Err(ApiKeyValidationError::InvalidKey)));
    assert_eq!(ApiKey::generate().bytes().len(), 32);
    assert_eq!(ApiKey::new(vec![255]).to_string(), "ff");
}

#[test]
fn expired_key_is_refused() {
    let rec = ApiKeyRecord {
        id: 1,
        description: "old".to_string(),
        hashed_key: "not a hash".to_string(),
        created_at: 0,
        last_used_at: 0,
        expires_at: Some(10),
    };
    let key = ApiKey::new(vec![1, 2]);
    let r = rec.validate_at(&key, 11);
    assert!(matches!(r, Err(ApiKeyValidationError::ExpiredKey)));
    assert_eq!(ApiError::ApiKeyError(r.err().unwrap()).response_info(), ("Expired API key".to_string(), 401));
    assert!(matches!(rec.validate_at(&key, 10), Err(ApiKeyValidationError::InvalidKey)));
}

#[test]
fn auth_gate_without_key() {
    let mut table = ApiKeyTable::new();
    assert!(authorize(&mut table, "GET", None, 0).is_ok());
    assert!(authorize(&mut table, "HEAD", None, 0).is_ok());
    let r = authorize(&mut table, "PUT", None, 0);
    assert!(matches!(r, Err(ApiError::Unauthorized)));
    assert_eq!(r.err().unwrap().response_info().1, 401);
    assert!(matches!(authorize(&mut table, "PUT", Some("Bearer 00"), 0), Err(ApiError::Unauthorized)));
    assert!(matches!(
        authorize(&mut table, "POST", Some("ApiKey zz"), 0),
        Err(ApiError::ApiKeyError(ApiKeyValidationError::InvalidKey))
    ));
}

#[test]
fn receipt_lookup_reads_any_uuid_form() {
    let mut regs = Registrations::new();
    let mut store = D1Store::new(1000);
    let rec = register_strand(&mut regs, &mut store, request("s0"), false).ok().unwrap();
    let upper = rec.uuid.to_uppercase();
    let found = fetch_registration(&regs, &upper).ok().unwrap();
    assert_eq!(found.uuid, rec.uuid);
    let simple: String = rec.uuid.chars().filter(|c| *c != '-').collect();
    assert_eq!(fetch_registration(&regs, &simple).ok().unwrap().uuid, rec.uuid);
    assert!(matches!(fetch_registration(&regs, "not-a-uuid"), Err(ApiError::BadRequestData(_))));
    assert!(matches!(
        fetch_registration(&regs, "00000000-0000-4000-8000-000000000000"),
        Err(ApiError::NotFound)
    ));
    assert_eq!(regs.get_all().len(), 1);
}

#[test]
fn logger_installs_once() {
    assert!(spool::logging::WebLogger::init_with_level(log::Level::Info).is_ok());
    assert!(spool::logging::WebLogger::init_with_level(log::Level::Debug).is_err());
}

#[test]
fn receipt_is_v4_text_and_conflict_is_worded() {
    let mut regs = Registrations::new();
    let mut store = D1Store::new(1000);
    let rec = register_strand(&mut regs, &mut store, request("s0"), true).ok().unwrap();
    let chars: Vec<char> = rec.uuid.chars().collect();
    assert_eq!(chars.len(), 36);
    assert_eq!(chars[14], '4');
    assert!(matches!(chars[19], '8' | '9' | 'a' | 'b'));
    assert!(rec.uuid.chars().all(|c| c == '-' || c.is_ascii_digit() || ('a'..='f').contains(&c)));
    match register_strand(&mut regs, &mut store, request("s0"), true) {
        Err(ApiError::Conflict(m)) => assert_eq!(m, "Strand already registered"),
        _ => panic!("expected Conflict"),
    }
}

#[test]
fn registration_with_given_receipt() {
    let mut regs = Registrations::new();
    let mut store = D1Store::new(1000);
    let receipt = "00000000-0000-4000-8000-000000000001".to_string();
    let rec = register_with_receipt(&mut regs, &mut store, request("s0"), false, receipt.clone()).ok().unwrap();
    assert_eq!(rec.uuid, receipt);
    assert_eq!(rec.email, "a@b.c");
    assert_eq!(rec.status, RegistrationStatus::Pending);
    let r = register_with_receipt(&mut regs, &mut store, request("s1"), true, receipt.clone());
    assert!(matches!(r, Err(ApiError::ServerError(_))));
    assert!(!store.has_strand(&"s1".to_string()));
    assert_eq!(regs.get_all().len(), 1);
}
