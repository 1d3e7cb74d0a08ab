//! API keys: 32 random bytes, shown as hex, stored only as an scrypt hash
//! under a fixed deployment salt, so that a key is looked up by its hash.
//! Times are Unix milliseconds.
use vstd::prelude::*;
use vstd::string::StringExecFns;
use crate::errors::{ApiError, ApiKeyValidationError};
use rand::Rng;
use scrypt::password_hash::{PasswordHasher, PasswordVerifier};

verus! {

/// The deployment-wide salt of the key hashes, base64 without padding.
pub const SALT_STR: &'static str = "7IvnC9XW2D9FQrdEA/srAQ";

pub open spec fn is_hex_digit(c: char) -> bool {
    ('0' <= c <= '9') || ('a' <= c <= 'f') || ('A' <= c <= 'F')
}

pub open spec fn hex_value(c: char) -> int {
    if '0' <= c <= '9' {
        c as int - '0' as int
    } else if 'a' <= c <= 'f' {
        c as int - 'a' as int + 10
    } else {
        c as int - 'A' as int + 10
    }
}

pub open spec fn lower_hex_digit(n: int) -> char {
    if n < 10 {
        (n + '0' as int) as char
    } else {
        (n - 10 + 'a' as int) as char
    }
}

/// `s` is the hex text of `b`: two digits per byte, high digit first.
pub open spec fn hex_decodes(s: Seq<char>, b: Seq<u8>) -> bool {
    &&& s.len() == 2 * b.len()
    &&& forall|i: int| 0 <= i < b.len() ==> #[trigger] b[i] == hex_value(s[2 * i]) * 16 + hex_value(s[2 * i + 1])
}

/// `s` is the lower-case hex text of `b`.
pub open spec fn lower_hex_of(b: Seq<u8>, s: Seq<char>) -> bool {
    &&& s.len() == 2 * b.len()
    &&& forall|i: int|
        0 <= i < b.len() ==> s[2 * i] == lower_hex_digit(#[trigger] b[i] as int / 16) && s[2 * i + 1]
            == lower_hex_digit(b[i] as int % 16)
}

/// The scrypt hash of `key` under `salt`, as PHC string text.
pub uninterp spec fn scrypt_hash_of(key: Seq<u8>, salt: Seq<char>) -> Seq<char>;

/// Whether the scrypt verifier accepts `key` against the PHC string `hash`.
pub uninterp spec fn scrypt_accepts(key: Seq<u8>, hash: Seq<char>) -> bool;

/// Relies on `hex::decode`: text of even length made only of hex digits
/// (either case) decodes two digits per byte; anything else is an error.
#[verifier::external_body]
fn decode_hex(s: &str) -> (r: Option<Vec<u8>>)
    ensures
        r is Some <==> (s@.len() % 2 == 0 && forall|i: int| 0 <= i < s@.len() ==> is_hex_digit(#[trigger] s@[i])),
        r matches Some(b) ==> hex_decodes(s@, b@),
{
    hex::decode(s).ok()
}

/// Relies on `hex::encode`: two lower-case hex digits per byte.
#[verifier::external_body]
fn encode_hex(b: &Vec<u8>) -> (r: String)
    ensures
        lower_hex_of(b@, r@),
{
    hex::encode(b)
}

/// Relies on `password_hash::SaltString::from_b64`, `Scrypt::hash_password`
/// (default parameters) and the PHC string form of its result: the hash of
/// the key under the salt, where the salt parses and hashing succeeds. The
/// deployment salt is valid base64 of an accepted length and the default
/// parameters give a 32-byte output, so hashing under it succeeds.
#[verifier::external_body]
fn scrypt_hash(key: &Vec<u8>, salt: &str) -> (r: Option<String>)
    ensures
        r matches Some(h) ==> h@ == scrypt_hash_of(key@, salt@),
        salt@ == SALT_STR@ ==> r is Some,
{
    let salt = scrypt::password_hash::SaltString::from_b64(salt).ok()?;
    scrypt::Scrypt.hash_password(key, &salt).ok().map(|h| h.to_string())
}

/// Relies on `password_hash::PasswordHash::new` and
/// `Scrypt::verify_password`: whether the hash text parses and the key
/// verifies against it.
#[verifier::external_body]
fn scrypt_verify(key: &Vec<u8>, hash: &str) -> (r: bool)
    ensures
        r == scrypt_accepts(key@, hash@),
{
    match scrypt::password_hash::PasswordHash::new(hash) {
        Ok(parsed) => scrypt::Scrypt.verify_password(key, &parsed).is_ok(),
        Err(_) => false,
    }
}

/// Relies on `rand::rng` and `Rng::fill`: 32 random bytes.
#[verifier::external_body]
fn random_key_bytes() -> (r: Vec<u8>)
    ensures
        r@.len() == 32,
{
    let mut bytes = [0u8; 32];
    rand::rng().fill(&mut bytes);
    bytes.to_vec()
}

/// Relies on `chrono::Utc::now`: the current time in Unix milliseconds.
#[verifier::external_body]
fn now_millis() -> (r: i64) {
    chrono::Utc::now().timestamp_millis()
}

/// An API key: the raw bytes that a client presents as hex.
pub struct ApiKey {
    bytes: Vec<u8>,
}

impl View for ApiKey {
    type V = Seq<u8>;

    closed spec fn view(&self) -> Seq<u8> {
        self.bytes@
    }
}

impl ApiKey {
    pub fn new(bytes: Vec<u8>) -> (r: ApiKey)
        ensures
            r@ == bytes@,
    {
        ApiKey { bytes }
    }

    /// A fresh key of 32 random bytes.
    pub fn generate() -> (r: ApiKey)
        ensures
            r@.len() == 32,
    {
        ApiKey { bytes: random_key_bytes() }
    }

    pub fn bytes(&self) -> (r: &Vec<u8>)
        ensures
            r@ == self@,
    {
        &self.bytes
    }

    /// Reads a key from its hex text; `InvalidKey` where the text is not an
    /// even number of hex digits.
    pub fn from_str(s: &str) -> (r: Result<ApiKey, ApiKeyValidationError>)
        ensures
            r is Ok <==> (s@.len() % 2 == 0 && forall|i: int| 0 <= i < s@.len() ==> is_hex_digit(#[trigger] s@[i])),
            r matches Ok(k) ==> hex_decodes(s@, k@),
            r matches Err(e) ==> e is InvalidKey,
    {
        match decode_hex(s) {
            Some(bytes) => Ok(ApiKey { bytes }),
            None => Err(ApiKeyValidationError::InvalidKey),
        }
    }

    /// The key as lower-case hex text.
    pub fn to_string(&self) -> (r: String)
        ensures
            lower_hex_of(self@, r@),
    {
        encode_hex(&self.bytes)
    }
}

/// One row of the API key table.
pub struct ApiKeyRecord {
    pub id: i64,
    pub description: String,
    /// The scrypt hash of the key under the deployment salt.
    pub hashed_key: String,
    pub created_at: i64,
    pub last_used_at: i64,
    /// The time after which the key is refused; never where absent.
    pub expires_at: Option<i64>,
}

pub ghost struct KeyRecordView {
    pub id: i64,
    pub description: Seq<char>,
    pub hashed_key: Seq<char>,
    pub created_at: i64,
    pub last_used_at: i64,
    pub expires_at: Option<i64>,
}

impl View for ApiKeyRecord {
    type V = KeyRecordView;

    open spec fn view(&self) -> KeyRecordView {
        KeyRecordView {
            id: self.id,
            description: self.description@,
            hashed_key: self.hashed_key@,
            created_at: self.created_at,
            last_used_at: self.last_used_at,
            expires_at: self.expires_at,
        }
    }
}

pub open spec fn is_expired(expires_at: Option<i64>, now: i64) -> bool {
    expires_at matches Some(t) && t < now
}

impl ApiKeyRecord {
    /// A record for the key, made at `now`, not yet saved (its id is -1).
    pub fn new(api_key: &ApiKey, description: String, expires_at: Option<i64>, now: i64) -> (r: ApiKeyRecord)
        ensures
            r.id == -1,
            r.description@ == description@,
            r.hashed_key@ == scrypt_hash_of(api_key@, SALT_STR@),
            r.created_at == now,
            r.last_used_at == now,
            r.expires_at == expires_at,
    {
        let hashed_key = match scrypt_hash(&api_key.bytes, SALT_STR) {
            Some(h) => h,
            None => String::new(),
        };
        ApiKeyRecord { id: -1, description, hashed_key, created_at: now, last_used_at: now, expires_at }
    }

    /// Checks a presented key against this record at time `now`: `ExpiredKey`
    /// where the record has expired, else `InvalidKey` unless the key
    /// verifies against the stored hash.
    pub fn validate_at(&self, api_key: &ApiKey, now: i64) -> (r: Result<(), ApiKeyValidationError>)
        ensures
            is_expired(self.expires_at, now) ==> (r matches Err(e) && e is ExpiredKey),
            !is_expired(self.expires_at, now) ==> (r is Ok <==> scrypt_accepts(api_key@, self.hashed_key@)),
            !is_expired(self.expires_at, now) ==> (r matches Err(e) ==> e is InvalidKey),
    {
        if let Some(t) = self.expires_at {
            if t < now {
                return Err(ApiKeyValidationError::ExpiredKey);
            }
        }
        if scrypt_verify(&api_key.bytes, self.hashed_key.as_str()) {
            Ok(())
        } else {
            Err(ApiKeyValidationError::InvalidKey)
        }
    }

    /// Checks a presented key against this record now.
    pub fn validate(&self, api_key: &ApiKey) -> (r: Result<(), ApiKeyValidationError>)
        ensures
            r matches Err(e) ==> e is InvalidKey || e is ExpiredKey,
            r is Ok ==> scrypt_accepts(api_key@, self.hashed_key@),
            self.expires_at is None ==> (r is Ok <==> scrypt_accepts(api_key@, self.hashed_key@)),
    {
        self.validate_at(api_key, now_millis())
    }

    /// A copy of the record, equal to it in every field.
    pub fn duplicate(&self) -> (r: ApiKeyRecord)
        ensures
            r.id == self.id,
            r.description@ == self.description@,
            r.hashed_key@ == self.hashed_key@,
            r.created_at == self.created_at,
            r.last_used_at == self.last_used_at,
            r.expires_at == self.expires_at,
    {
        ApiKeyRecord {
            id: self.id,
            description: self.description.clone(),
            hashed_key: self.hashed_key.clone(),
            created_at: self.created_at,
            last_used_at: self.last_used_at,
            expires_at: self.expires_at,
        }
    }
}

/// Row `i` holds the hash of `key` under the deployment salt.
pub open spec fn key_row(rs: Seq<KeyRecordView>, key: Seq<u8>, i: int) -> bool {
    0 <= i < rs.len() && rs[i].hashed_key == scrypt_hash_of(key, SALT_STR@)
}

/// The key is admitted at `now`: the row of its hash is unexpired and the
/// key verifies against it.
pub open spec fn key_accepted(rs: Seq<KeyRecordView>, key: Seq<u8>, now: i64) -> bool {
    exists|i: int|
        #[trigger] key_row(rs, key, i) && !is_expired(rs[i].expires_at, now) && scrypt_accepts(key, rs[i].hashed_key)
}

/// The row of the key's hash has expired at `now`.
pub open spec fn key_expired(rs: Seq<KeyRecordView>, key: Seq<u8>, now: i64) -> bool {
    exists|i: int| #[trigger] key_row(rs, key, i) && is_expired(rs[i].expires_at, now)
}

pub open spec fn hash_stored(rs: Seq<KeyRecordView>, hashed: Seq<char>) -> bool {
    exists|i: int| 0 <= i < rs.len() && (#[trigger] rs[i]).hashed_key == hashed
}

/// Every hash and every id names one row.
pub open spec fn key_table_wf(rs: Seq<KeyRecordView>) -> bool {
    forall|i: int, j: int|
        0 <= i < rs.len() && 0 <= j < rs.len() && i != j ==> (#[trigger] rs[i]).hashed_key
            != (#[trigger] rs[j]).hashed_key && rs[i].id != rs[j].id
}

/// The API key table.
pub struct ApiKeyTable {
    records: Vec<ApiKeyRecord>,
    next_id: i64,
}

impl View for ApiKeyTable {
    type V = Seq<KeyRecordView>;

    closed spec fn view(&self) -> Seq<KeyRecordView> {
        self.records@.map_values(|r: ApiKeyRecord| r@)
    }
}

impl ApiKeyTable {
    /// The id that the next new key will get; ids run out at the largest
    /// `i64`.
    pub closed spec fn next_id(&self) -> i64 {
        self.next_id
    }

    pub closed spec fn wf(&self) -> bool {
        &&& key_table_wf(self@)
        &&& self.next_id >= 1
        &&& forall|i: int| 0 <= i < self@.len() ==> 1 <= (#[trigger] self@[i]).id < self.next_id
    }

    pub fn new() -> (r: ApiKeyTable)
        ensures
            r.wf(),
            r@.len() == 0,
            r.next_id() == 1,
    {
        let r = ApiKeyTable { records: Vec::new(), next_id: 1 };
        assert(r@ =~= Seq::<KeyRecordView>::empty());
        r
    }

    fn find_hash(&self, hashed: &String) -> (r: Option<usize>)
        ensures
            match r {
                Some(i) => i < self@.len() && self@[i as int].hashed_key == hashed@,
                None => !hash_stored(self@, hashed@),
            },
    {
        let mut i: usize = 0;
        while i < self.records.len()
            invariant
                i <= self@.len(),
                forall|j: int| 0 <= j < i ==> (#[trigger] self@[j]).hashed_key != hashed@,
            decreases self@.len() - i,
        {
            if self.records[i].hashed_key == *hashed {
                return Some(i);
            }
            i += 1;
        }
        None
    }

    fn find_id(&self, id: i64) -> (r: Option<usize>)
        ensures
            match r {
                Some(i) => i < self@.len() && self@[i as int].id == id,
                None => forall|j: int| 0 <= j < self@.len() ==> (#[trigger] self@[j]).id != id,
            },
    {
        let mut i: usize = 0;
        while i < self.records.len()
            invariant
                i <= self@.len(),
                forall|j: int| 0 <= j < i ==> (#[trigger] self@[j]).id != id,
            decreases self@.len() - i,
        {
            if self.records[i].id == id {
                return Some(i);
            }
            i += 1;
        }
        None
    }

    /// Saves a record, upserting on its hash: a new hash gets a new row
    /// under a fresh id; a stored one has its `last_used_at` advanced to the
    /// record's and keeps everything else. Returns the row's id;
    /// `DatabaseError` where a new row is needed and the ids are used up.
    pub fn save(&mut self, record: &ApiKeyRecord) -> (r: Result<i64, ApiKeyValidationError>)
        requires
            old(self).wf(),
        ensures
            final(self).wf(),
            hash_stored(old(self)@, record.hashed_key@) ==> r is Ok && final(self)@.len() == old(self)@.len()
                && forall|i: int|
                0 <= i < old(self)@.len() ==> (#[trigger] final(self)@[i]) == if old(self)@[i].hashed_key
                    == record.hashed_key@ {
                    KeyRecordView { last_used_at: record.last_used_at, ..old(self)@[i] }
                } else {
                    old(self)@[i]
                } && (old(self)@[i].hashed_key == record.hashed_key@ ==> r == Ok::<i64, ApiKeyValidationError>(old(self)@[i].id)),
            hash_stored(old(self)@, record.hashed_key@) ==> final(self).next_id() == old(self).next_id(),
            !hash_stored(old(self)@, record.hashed_key@) ==> (r is Ok <==> old(self).next_id() < i64::MAX),
            !hash_stored(old(self)@, record.hashed_key@) ==> match r {
                Ok(id) => id == old(self).next_id() && final(self).next_id() == old(self).next_id() + 1
                    && final(self)@ == old(self)@.push(KeyRecordView { id, ..record@ }),
                Err(e) => e is DatabaseError && final(self)@ == old(self)@ && final(self).next_id() == old(self).next_id(),
            },
    {
        let ghost v0 = self@;
        match self.find_hash(&record.hashed_key) {
            Some(i) => {
                let mut rec = self.records[i].duplicate();
                rec.last_used_at = record.last_used_at;
                let id = rec.id;
                assert forall|j: int| 0 <= j < v0.len() && (#[trigger] v0[j]).hashed_key == record.hashed_key@ implies j == i by {
                    if j != i {
                        assert(v0[j].hashed_key != v0[i as int].hashed_key);
                    }
                }
                self.records.set(i, rec);
                assert forall|j: int| 0 <= j < v0.len() implies (#[trigger] self@[j]) == if v0[j].hashed_key
                    == record.hashed_key@ {
                    KeyRecordView { last_used_at: record.last_used_at, ..v0[j] }
                } else {
                    v0[j]
                } by {
                    if j == i {
                        assert(self@[j] == rec@);
                    }
                }
                assert forall|a: int, b: int| 0 <= a < self@.len() && 0 <= b < self@.len() && a != b implies (#[trigger] self@[a]).hashed_key
                    != (#[trigger] self@[b]).hashed_key && self@[a].id != self@[b].id by {
                    assert(self@[a].hashed_key == v0[a].hashed_key && self@[b].hashed_key == v0[b].hashed_key);
                    assert(self@[a].id == v0[a].id && self@[b].id == v0[b].id);
                }
                assert forall|j: int| 0 <= j < self@.len() implies 1 <= (#[trigger] self@[j]).id < self.next_id by {
                    assert(self@[j].id == v0[j].id);
                }
                Ok(id)
            },
            None => {
                if self.next_id == i64::MAX {
                    return Err(ApiKeyValidationError::DatabaseError(String::from_str("No ids left")));
                }
                let id = self.next_id;
                let mut rec = record.duplicate();
                rec.id = id;
                self.records.push(rec);
                self.next_id = id + 1;
                assert(self@ =~= v0.push(KeyRecordView { id, ..record@ }));
                Ok(id)
            },
        }
    }

    /// The record with this id.
    pub fn get(&self, id: i64) -> (r: Option<ApiKeyRecord>)
        ensures
            r is Some <==> exists|i: int| 0 <= i < self@.len() && (#[trigger] self@[i]).id == id,
            r matches Some(rec) ==> exists|i: int| 0 <= i < self@.len() && (#[trigger] self@[i]) == rec@,
    {
        match self.find_id(id) {
            Some(i) => {
                let rec = self.records[i].duplicate();
                assert(self@[i as int] == rec@);
                Some(rec)
            },
            None => None,
        }
    }

    /// Every record, in the order of the table.
    pub fn get_all(&self) -> (r: Vec<ApiKeyRecord>)
        ensures
            r@.len() == self@.len(),
            forall|i: int| 0 <= i < r@.len() ==> (#[trigger] r@[i])@ == self@[i],
    {
        let mut r: Vec<ApiKeyRecord> = Vec::new();
        let mut i: usize = 0;
        while i < self.records.len()
            invariant
                i <= self@.len(),
                r@.len() == i,
                forall|j: int| 0 <= j < i ==> (#[trigger] r@[j])@ == self@[j],
            decreases self@.len() - i,
        {
            let rec = self.records[i].duplicate();
            assert(rec@ == self@[i as int]);
            r.push(rec);
            i += 1;
        }
        r
    }

    /// Removes the record with this id, if any.
    pub fn delete(&mut self, id: i64)
        requires
            old(self).wf(),
        ensures
            final(self).wf(),
            (exists|i: int| 0 <= i < old(self)@.len() && (#[trigger] old(self)@[i]).id == id) ==> exists|i: int|
                0 <= i < old(self)@.len() && (#[trigger] old(self)@[i]).id == id && final(self)@ == old(self)@.remove(i),
            (forall|i: int| 0 <= i < old(self)@.len() ==> (#[trigger] old(self)@[i]).id != id) ==> final(self)@
                == old(self)@,
            final(self).next_id() == old(self).next_id(),
    {
        let ghost v0 = self@;
        match self.find_id(id) {
            Some(i) => {
                self.records.remove(i);
                assert(self@ =~= v0.remove(i as int));
                assert forall|a: int, b: int| 0 <= a < self@.len() && 0 <= b < self@.len() && a != b implies (#[trigger] self@[a]).hashed_key
                    != (#[trigger] self@[b]).hashed_key && self@[a].id != self@[b].id by {
                    let a0 = if a < i { a } else { a + 1 };
                    let b0 = if b < i { b } else { b + 1 };
                    assert(self@[a] == v0[a0] && self@[b] == v0[b0]);
                }
                assert forall|j: int| 0 <= j < self@.len() implies 1 <= (#[trigger] self@[j]).id < self.next_id by {
                    let j0 = if j < i { j } else { j + 1 };
                    assert(self@[j] == v0[j0]);
                }
            },
            None => {},
        }
    }

    /// Checks a presented key at time `now`: its hash must name a record,
    /// which must be unexpired and verify the key; the record's
    /// `last_used_at` then advances to `now`. The table changes only on
    /// success.
    pub fn key_is_valid(&mut self, api_key: &ApiKey, now: i64) -> (r: Result<(), ApiKeyValidationError>)
        requires
            old(self).wf(),
        ensures
            final(self).wf(),
            final(self).next_id() == old(self).next_id(),
            r is Ok <==> key_accepted(old(self)@, api_key@, now),
            r is Ok ==> exists|i: int|
                key_row(old(self)@, api_key@, i) && final(self)@ == old(self)@.update(
                    i,
                    KeyRecordView { last_used_at: now, ..old(self)@[i] },
                ),
            r matches Err(e) ==> final(self)@ == old(self)@ && if key_expired(old(self)@, api_key@, now) {
                e is ExpiredKey
            } else {
                e is InvalidKey
            },
    {
        let ghost v0 = self@;
        let hashed = match scrypt_hash(&api_key.bytes, SALT_STR) {
            Some(h) => h,
            None => String::new(),
        };
        let i = match self.find_hash(&hashed) {
            Some(i) => i,
            None => {
                assert forall|j: int| !key_row(v0, api_key@, j) by {
                    if key_row(v0, api_key@, j) {
                        assert(v0[j].hashed_key == hashed@);
                    }
                }
                return Err(ApiKeyValidationError::InvalidKey);
            },
        };
        let mut rec = self.records[i].duplicate();
        assert(self@[i as int] == rec@);
        assert(key_row(v0, api_key@, i as int));
        assert forall|j: int| key_row(v0, api_key@, j) implies j == i by {
            if j != i {
                assert(v0[j].hashed_key != v0[i as int].hashed_key);
            }
        }
        match rec.validate_at(api_key, now) {
            Ok(()) => {},
            Err(e) => {
                return Err(e);
            },
        }
        rec.last_used_at = now;
        let r = self.save(&rec);
        proof {
            assert(hash_stored(v0, rec.hashed_key@));
            assert forall|j: int| 0 <= j < v0.len() && j != i implies v0[j].hashed_key != rec.hashed_key@ by {
                assert(v0[j].hashed_key != v0[i as int].hashed_key);
            }
            assert(self@ =~= v0.update(i as int, KeyRecordView { last_used_at: now, ..v0[i as int] }));
        }
        match r {
            Ok(_) => Ok(()),
            Err(e) => Err(e),
        }
    }
}

/// Only GET and HEAD go through without a key.
pub open spec fn needs_key(method: Seq<char>) -> bool {
    method != "GET"@ && method != "HEAD"@
}

pub open spec fn key_prefix() -> Seq<char> {
    "ApiKey "@
}

/// Whether a request with this method needs an API key: every method but
/// GET and HEAD does.
pub fn requires_key(method: &str) -> (r: bool)
    ensures
        r == needs_key(method@),
{
    let m = String::from_str(method);
    !(m == String::from_str("GET") || m == String::from_str("HEAD"))
}

/// The key text of an `Authorization` header of the form `ApiKey <hex>`.
fn key_text(header: &str) -> (r: Option<&str>)
    ensures
        match r {
            Some(t) => header@.len() >= 7 && header@.subrange(0, 7) == key_prefix() && t@ == header@.subrange(
                7,
                header@.len() as int,
            ),
            None => !(header@.len() >= 7 && header@.subrange(0, 7) == key_prefix()),
        },
{
    let n = header.unicode_len();
    if n < 7 {
        return None;
    }
    let head = String::from_str(header.substring_char(0, 7));
    proof {
        reveal_strlit("ApiKey ");
    }
    if head == String::from_str("ApiKey ") {
        Some(header.substring_char(7, n))
    } else {
        None
    }
}

/// Text made of an even number of hex digits.
pub open spec fn is_hex_text(s: Seq<char>) -> bool {
    s.len() % 2 == 0 && forall|i: int| 0 <= i < s.len() ==> is_hex_digit(#[trigger] s[i])
}

/// The header has the form `ApiKey <text>`.
pub open spec fn has_key_prefix(h: Seq<char>) -> bool {
    h.len() >= 7 && h.subrange(0, 7) == key_prefix()
}

/// Admits a request. GET and HEAD pass with the table unchanged. Any other
/// method needs an `Authorization: ApiKey <hex>` header, else
/// `Unauthorized`. Text that is not hex is refused as `InvalidKey`; a key is
/// then admitted exactly as `key_is_valid` says, which advances its
/// `last_used_at` to `now`; its refusal comes as `ApiKeyError`.
pub fn authorize(table: &mut ApiKeyTable, method: &str, header: Option<&str>, now: i64) -> (r: Result<(), ApiError>)
    requires
        old(table).wf(),
    ensures
        final(table).wf(),
        final(table).next_id() == old(table).next_id(),
        r is Err ==> final(table)@ == old(table)@,
        !needs_key(method@) ==> r is Ok && final(table)@ == old(table)@,
        needs_key(method@) ==> match header {
            None => r matches Err(e) && e is Unauthorized,
            Some(h) => if !has_key_prefix(h@) {
                r matches Err(e) && e is Unauthorized
            } else {
                let text = h@.subrange(7, h@.len() as int);
                if !is_hex_text(text) {
                    r matches Err(ApiError::ApiKeyError(e)) && e is InvalidKey
                } else {
                    forall|b: Seq<u8>| #[trigger] hex_decodes(text, b) ==> {
                        &&& r is Ok <==> key_accepted(old(table)@, b, now)
                        &&& r is Ok ==> exists|i: int|
                            key_row(old(table)@, b, i) && final(table)@ == old(table)@.update(
                                i,
                                KeyRecordView { last_used_at: now, ..old(table)@[i] },
                            )
                        &&& r matches Err(e) ==> if key_expired(old(table)@, b, now) {
                            e matches ApiError::ApiKeyError(k) && k is ExpiredKey
                        } else {
                            e matches ApiError::ApiKeyError(k) && k is InvalidKey
                        }
                    }
                }
            },
        },
{
    if !requires_key(method) {
        return Ok(());
    }
    let h = match header {
        Some(h) => h,
        None => {
            return Err(ApiError::Unauthorized);
        },
    };
    let text = match key_text(h) {
        Some(t) => t,
        None => {
            return Err(ApiError::Unauthorized);
        },
    };
    let key = match ApiKey::from_str(text) {
        Ok(k) => k,
        Err(e) => {
            return Err(ApiError::ApiKeyError(e));
        },
    };
    proof {
        assert forall|b: Seq<u8>| #[trigger] hex_decodes(text@, b) implies b == key@ by {
            assert(b.len() == key@.len());
            assert forall|i: int| 0 <= i < b.len() implies b[i] == key@[i] by {
                assert(b[i] == hex_value(text@[2 * i]) * 16 + hex_value(text@[2 * i + 1]));
                assert(key@[i] == hex_value(text@[2 * i]) * 16 + hex_value(text@[2 * i + 1]));
            }
            assert(b =~= key@);
        }
    }
    match table.key_is_valid(&key, now) {
        Ok(()) => Ok(()),
        Err(e) => Err(ApiError::ApiKeyError(e)),
    }
}

/// Registers a key given as hex text, made at `now`: `BadRequestData`
/// where the text is not hex; `ServerError` where a new row is needed and no
/// id is left. Returns the saved record with its id.
pub fn create_key(
    table: &mut ApiKeyTable,
    key_hex: &str,
    description: String,
    expires_at: Option<i64>,
    now: i64,
) -> (r: Result<ApiKeyRecord, ApiError>)
    requires
        old(table).wf(),
    ensures
        final(table).wf(),
        !is_hex_text(key_hex@) ==> (r matches Err(e) && e is BadRequestData && final(table)@ == old(table)@),
        is_hex_text(key_hex@) && old(table).next_id() < i64::MAX ==> r is Ok,
        r matches Ok(rec) ==> exists|b: Seq<u8>| hex_decodes(key_hex@, b) && rec.hashed_key@ == scrypt_hash_of(b, SALT_STR@)
            && rec.description@ == description@ && rec.expires_at == expires_at && rec.created_at == now
            && (exists|i: int| 0 <= i < final(table)@.len() && (#[trigger] final(table)@[i]).id == rec.id
                && final(table)@[i].hashed_key == rec.hashed_key@),
        r matches Err(e) ==> final(table)@ == old(table)@ && (e is BadRequestData || e is ServerError),
{
    let key = match ApiKey::from_str(key_hex) {
        Ok(k) => k,
        Err(_) => {
            return Err(ApiError::BadRequestData(String::from_str("Invalid key")));
        },
    };
    let mut rec = ApiKeyRecord::new(&key, description, expires_at, now);
    let ghost t0 = table@;
    match table.save(&rec) {
        Ok(id) => {
            proof {
                if hash_stored(t0, rec.hashed_key@) {
                    let i = choose|i: int| 0 <= i < t0.len() && (#[trigger] t0[i]).hashed_key == rec.hashed_key@;
                    assert(table@[i].id == id);
                } else {
                    assert(table@[t0.len() as int].id == id);
                }
            }
            rec.id = id;
            Ok(rec)
        },
        Err(_) => Err(ApiError::ServerError(String::from_str("No ids left"))),
    }
}

} // verus!
