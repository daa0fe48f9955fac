//! Wall-clock timestamps and random identifiers.

use vstd::prelude::*;

verus! {

/// A point in time as seconds since the Unix epoch plus the nanoseconds within that second
/// (the two parts of a chrono `DateTime<Utc>`).
#[derive(Clone, Copy, Debug, PartialEq, Eq, Structural)]
pub struct Timestamp {
    pub secs: i64,
    pub nanos: u32,
}

/// The current wall-clock time: `chrono::Utc::now()`, split into its Unix seconds
/// (`timestamp`) and sub-second nanoseconds (`timestamp_subsec_nanos`).
/// Nothing is promised of the value: it depends on the system clock.
#[verifier::external_body]
pub(crate) fn now() -> (t: Timestamp) {
    let n = chrono::Utc::now();
    Timestamp { secs: n.timestamp(), nanos: n.timestamp_subsec_nanos() }
}

/// A fresh random identifier: `uuid::Uuid::new_v4()` in its hyphenated text form.
/// Nothing is promised of the value: it is drawn at random.
#[verifier::external_body]
pub(crate) fn new_uuid() -> (s: String) {
    uuid::Uuid::new_v4().to_string()
}

} // verus!
