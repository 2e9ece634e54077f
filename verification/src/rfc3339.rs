//! Timestamp text on the wire.  The service speaks RFC 3339 date-and-time
//! strings; this crate models an instant as whole seconds since the Unix
//! epoch and leaves the text format to chrono behind the two trusted
//! functions below.

use vstd::prelude::*;

verus! {

/// The latest instant this crate will format: the last second of year 9999.
pub open spec fn max_format_ts() -> int {
    253402300799
}

/// What chrono's RFC 3339 parser yields for a byte string: the denoted
/// instant in whole seconds since the Unix epoch, or nothing when the bytes
/// are not an RFC 3339 date-and-time.  A function of the bytes alone.
pub uninterp spec fn rfc3339_parse(s: Seq<u8>) -> Option<i64>;

/// Relies on chrono's `DateTime::parse_from_rfc3339` and
/// `DateTime::timestamp`: parsing depends on the input bytes alone.
#[verifier::external_body]
pub fn parse_rfc3339(s: &[u8]) -> (r: Option<i64>)
    ensures
        r == rfc3339_parse(s@),
{
    match core::str::from_utf8(s) {
        Ok(text) => match chrono::DateTime::parse_from_rfc3339(text) {
            Ok(dt) => Some(dt.timestamp()),
            Err(_) => None,
        },
        Err(_) => None,
    }
}

/// Relies on chrono's `DateTime::<Utc>::from_timestamp` and `to_rfc3339`:
/// every second from 1970 through year 9999 is representable and formats to
/// an RFC 3339 string, and `parse_from_rfc3339` of that string denotes the
/// same instant (chrono documents the pair as inverses).
#[verifier::external_body]
pub fn format_rfc3339(t: i64) -> (r: Vec<u8>)
    requires
        0 <= t <= max_format_ts(),
    ensures
        rfc3339_parse(r@) == Some(t),
{
    let dt = chrono::DateTime::<chrono::Utc>::from_timestamp(t, 0)
        .expect("timestamp within the supported range");
    dt.to_rfc3339().into_bytes()
}

} // verus!
