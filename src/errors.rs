//! Error kinds of the engine and how each one is reported to a client.
use vstd::prelude::*;
use vstd::string::StringExecFns;

verus! {

/// Why an API key was refused.
pub enum ApiKeyValidationError {
    /// No key with this hash is on record, or the key does not match it.
    InvalidKey,
    /// The key's expiry time has passed.
    ExpiredKey,
    /// The key table could not be read or written.
    DatabaseError(String),
}

/// Every failure that the engine reports.
pub enum ApiError {
    /// Stored bytes failed to rehydrate into a block.
    Corrupted(String),
    /// Malformed input, or a range larger than the batch limit.
    BadRequestData(String),
    /// The backend failed.
    ServerError(String),
    /// A block failed its signature or structural checks.
    VerificationError(String),
    /// A fetch failed for a reason other than absence.
    ResolutionError(String),
    /// The backend refused a write.
    StoreError(String),
    /// A query string outside the query grammar.
    InvalidQuery(String),
    /// An API key was refused.
    ApiKeyError(ApiKeyValidationError),
    /// The target of a read does not exist.
    NotFound,
    /// The caller is not admitted.
    Unauthorized,
    /// A registration for a Strand that is already stored.
    Conflict(String),
}

pub open spec fn key_error_status(e: ApiKeyValidationError) -> u16 {
    match e {
        ApiKeyValidationError::InvalidKey => 401,
        ApiKeyValidationError::ExpiredKey => 401,
        ApiKeyValidationError::DatabaseError(_) => 500,
    }
}

pub open spec fn key_error_text(e: ApiKeyValidationError) -> Seq<char> {
    match e {
        ApiKeyValidationError::InvalidKey => "Invalid API key"@,
        ApiKeyValidationError::ExpiredKey => "Expired API key"@,
        ApiKeyValidationError::DatabaseError(_) => "Server error"@,
    }
}

/// The HTTP status that reports an error.
pub open spec fn error_status(e: ApiError) -> u16 {
    match e {
        ApiError::Corrupted(_) => 500,
        ApiError::BadRequestData(_) => 400,
        ApiError::ServerError(_) => 500,
        ApiError::VerificationError(_) => 500,
        ApiError::ResolutionError(_) => 500,
        ApiError::StoreError(_) => 500,
        ApiError::InvalidQuery(_) => 400,
        ApiError::ApiKeyError(k) => key_error_status(k),
        ApiError::NotFound => 404,
        ApiError::Unauthorized => 401,
        ApiError::Conflict(_) => 409,
    }
}

/// The text that reports an error.
pub open spec fn error_text(e: ApiError) -> Seq<char> {
    match e {
        ApiError::Corrupted(m) => m@,
        ApiError::BadRequestData(m) => m@,
        ApiError::ServerError(m) => m@,
        ApiError::VerificationError(m) => m@,
        ApiError::ResolutionError(m) => m@,
        ApiError::StoreError(m) => m@,
        ApiError::InvalidQuery(m) => m@,
        ApiError::ApiKeyError(k) => key_error_text(k),
        ApiError::NotFound => "Not found"@,
        ApiError::Unauthorized => "Unauthorized"@,
        ApiError::Conflict(m) => m@,
    }
}

impl ApiKeyValidationError {
    /// The text and HTTP status that report the refusal.
    pub fn response_info(&self) -> (r: (String, u16))
        ensures
            r.0@ == key_error_text(*self),
            r.1 == key_error_status(*self),
    {
        match self {
            ApiKeyValidationError::InvalidKey => (String::from_str("Invalid API key"), 401),
            ApiKeyValidationError::ExpiredKey => (String::from_str("Expired API key"), 401),
            ApiKeyValidationError::DatabaseError(_) => (String::from_str("Server error"), 500),
        }
    }
}

impl ApiError {
    /// The text and HTTP status that report the error.
    pub fn response_info(&self) -> (r: (String, u16))
        ensures
            r.0@ == error_text(*self),
            r.1 == error_status(*self),
    {
        match self {
            ApiError::Corrupted(m) => (m.clone(), 500),
            ApiError::BadRequestData(m) => (m.clone(), 400),
            ApiError::ServerError(m) => (m.clone(), 500),
            ApiError::VerificationError(m) => (m.clone(), 500),
            ApiError::ResolutionError(m) => (m.clone(), 500),
            ApiError::StoreError(m) => (m.clone(), 500),
            ApiError::InvalidQuery(m) => (m.clone(), 400),
            ApiError::ApiKeyError(k) => k.response_info(),
            ApiError::NotFound => (String::from_str("Not found"), 404),
            ApiError::Unauthorized => (String::from_str("Unauthorized"), 401),
            ApiError::Conflict(m) => (m.clone(), 409),
        }
    }

    /// Whether the error is the absence of the target.
    pub fn is_not_found(&self) -> (r: bool)
        ensures
            r == (*self is NotFound),
    {
        match self {
            ApiError::NotFound => true,
            _ => false,
        }
    }
}

} // verus!
