//! Random identifiers and the wall clock.
use vstd::prelude::*;

verus! {

/// A lowercase hexadecimal digit.
pub open spec fn is_hex_lower(c: char) -> bool {
    ('0' <= c && c <= '9') || ('a' <= c && c <= 'f')
}

/// The hyphenated lowercase text form of a UUID: 32 hex digits in groups of
/// 8, 4, 4, 4 and 12, joined by `'-'`.
pub open spec fn is_uuid_text(s: Seq<char>) -> bool {
    &&& s.len() == 36
    &&& forall|i: int|
        0 <= i < 36 ==> if i == 8 || i == 13 || i == 18 || i == 23 {
            #[trigger] s[i] == '-'
        } else {
            is_hex_lower(s[i])
        }
}

/// A fresh random UUID in its text form (`uuid::Uuid::new_v4().to_string()`).
/// Trusted: the text is in the hyphenated lowercase form, as uuid's
/// `Display` writes it; which UUID comes out is chance and not stated.
#[verifier::external_body]
pub fn new_uuid_text() -> (s: String)
    ensures
        is_uuid_text(s@),
{
    uuid::Uuid::new_v4().to_string()
}

/// A point in time: seconds and nanoseconds since the Unix epoch, in UTC.
#[derive(Debug, Clone, Copy, PartialEq, Eq, Hash, Structural)]
pub struct Timestamp {
    pub secs: i64,
    pub nanos: u32,
}

/// The current time (`chrono::Utc::now()`).  Trusted for nothing: the value
/// depends on the clock and no property of it is stated.
#[verifier::external_body]
pub fn utc_now() -> (t: Timestamp) {
    let now = chrono::Utc::now();
    Timestamp { secs: now.timestamp(), nanos: now.timestamp_subsec_nanos() }
}

} // verus!
