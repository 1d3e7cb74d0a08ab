//! Deployment settings read from text, and the forwarding rules of the
//! legacy endpoint.
use vstd::prelude::*;
use vstd::string::{StrSliceExecFns, StringExecFns};
use crate::query::{all_digits, digits_value};

verus! {

/// The batch bound where `MAX_BATCH_SIZE` is unset or unreadable.
pub const DEFAULT_MAX_BATCH_SIZE: u64 = 1000;

/// The value of a `MAX_BATCH_SIZE` setting: a decimal `u64`, with an
/// optional leading `+`.
pub open spec fn batch_size_of(t: Seq<char>) -> Option<int> {
    let d = if t.len() > 0 && t[0] == '+' { t.drop_first() } else { t };
    if d.len() > 0 && all_digits(d) && digits_value(d) <= u64::MAX {
        Some(digits_value(d))
    } else {
        None
    }
}

/// The batch bound of a deployment: the `MAX_BATCH_SIZE` setting where it
/// is set and reads as a `u64`, else 1000.
pub fn get_max_batch_size(setting: Option<&str>) -> (r: u64)
    ensures
        match setting {
            Some(t) => match batch_size_of(t@) {
                Some(v) => r == v,
                None => r == DEFAULT_MAX_BATCH_SIZE,
            },
            None => r == DEFAULT_MAX_BATCH_SIZE,
        },
{
    match setting {
        Some(t) => {
            let n = t.unicode_len();
            let from: usize = if n > 0 && t.get_char(0) == '+' { 1 } else { 0 };
            proof {
                if from == 1 {
                    assert(t@.drop_first() =~= t@.subrange(1, n as int));
                } else {
                    assert(t@ =~= t@.subrange(0, n as int));
                }
            }
            match crate::query::parse_digits(t, from, u64::MAX) {
                Some(v) => v,
                None => DEFAULT_MAX_BATCH_SIZE,
            }
        },
        None => DEFAULT_MAX_BATCH_SIZE,
    }
}

/// Whether the `ACCEPT_ALL_STRANDS` setting admits every registration: only
/// the exact text `true` does.
pub fn accepts_all_strands(setting: Option<&str>) -> (r: bool)
    ensures
        r == (setting matches Some(t) && t@ == "true"@),
{
    match setting {
        Some(t) => String::from_str(t) == String::from_str("true"),
        None => false,
    }
}

pub open spec fn strip(s: Seq<char>, prefix: Seq<char>) -> Seq<char> {
    if s.len() >= prefix.len() && s.subrange(0, prefix.len() as int) == prefix {
        s.subrange(prefix.len() as int, s.len() as int)
    } else {
        s
    }
}

fn strip_prefix<'a>(s: &'a str, prefix: &str) -> (r: &'a str)
    ensures
        r@ == strip(s@, prefix@),
{
    let n = s.unicode_len();
    let k = prefix.unicode_len();
    if n >= k && String::from_str(s.substring_char(0, k)) == String::from_str(prefix) {
        s.substring_char(k, n)
    } else {
        s
    }
}

/// The path on the legacy endpoint that a request path forwards to: the
/// `/v1` prefix and then one `/` are dropped.
pub fn legacy_path(path: &str) -> (r: String)
    ensures
        r@ == strip(strip(path@, "/v1"@), "/"@),
{
    String::from_str(strip_prefix(strip_prefix(path, "/v1"), "/"))
}

/// Whether a request with this method is forwarded to the legacy endpoint:
/// GET, HEAD, POST and PUT are; any other is refused with 405.
pub fn legacy_method_allowed(method: &str) -> (r: bool)
    ensures
        r == (method@ == "GET"@ || method@ == "HEAD"@ || method@ == "POST"@ || method@ == "PUT"@),
{
    let m = String::from_str(method);
    m == String::from_str("GET") || m == String::from_str("HEAD") || m == String::from_str("POST") || m
        == String::from_str("PUT")
}

} // verus!
