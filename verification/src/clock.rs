//! The time of day and fresh ids.
use crate::models::Timestamp;
use vstd::prelude::*;
use vstd::string::*;

verus! {

/// The time, by `chrono::Utc::now`: seconds since 1970 and nanoseconds. The
/// system clock is taken to stand after the start of 1970, which the call
/// insists on; it is never before that.
#[verifier::external_body]
pub(crate) fn now() -> (r: Timestamp)
    ensures
        r.secs >= 0,
        r.nanos < 1_000_000_000,
{
    let t = chrono::Utc::now();
    Timestamp { secs: t.timestamp(), nanos: t.timestamp_subsec_nanos() }
}

/// The character is a lower-case hexadecimal digit.
pub open spec fn is_hex(c: char) -> bool {
    ('0' <= c && c <= '9') || ('a' <= c && c <= 'f')
}

/// The text has the shape of a random UUID: 36 characters, hyphens after the 8th,
/// 12th, 16th and 20th digit, and the version digit 4.
pub open spec fn is_random_uuid(s: Seq<char>) -> bool {
    &&& s.len() == 36
    &&& s[8] == '-' && s[13] == '-' && s[18] == '-' && s[23] == '-'
    &&& s[14] == '4'
    &&& forall|i: int|
        0 <= i < 36 && i != 8 && i != 13 && i != 18 && i != 23 ==> is_hex(#[trigger] s[i])
}

/// A fresh id, by `uuid::Uuid::new_v4`, as its `Display` writes it. It is random;
/// only its shape is claimed. The machine is taken to have a source of randomness,
/// which the call insists on.
#[verifier::external_body]
pub(crate) fn fresh_id() -> (r: String)
    ensures
        is_random_uuid(r@),
{
    uuid::Uuid::new_v4().to_string()
}

} // verus!
