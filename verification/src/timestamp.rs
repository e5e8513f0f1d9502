//! Timestamps, carried and stored in their RFC-3339 text form.

use crate::text::str_to_string;
use vstd::prelude::*;

verus! {

/// A moment in UTC, held as its RFC-3339 text. The core never computes with
/// time; it records it and hands it back.
#[derive(Clone, Debug, PartialEq, Eq)]
pub struct Timestamp {
    pub rfc3339: String,
}

/// Relies on chrono's Utc::now and DateTime::to_rfc3339: the current UTC
/// time written in RFC-3339 form. The result depends on the clock, so
/// nothing is promised of it.
#[verifier::external_body]
fn now_rfc3339() -> (r: String) {
    chrono::Utc::now().to_rfc3339()
}

impl Timestamp {
    /// The current moment, from the system clock.
    pub fn now() -> (r: Timestamp) {
        Timestamp { rfc3339: now_rfc3339() }
    }

    /// A timestamp read back from stored text.
    pub fn from_rfc3339(s: &str) -> (r: Timestamp)
        ensures
            r.rfc3339@ == s@,
    {
        Timestamp { rfc3339: str_to_string(s) }
    }

    /// The RFC-3339 text.
    pub fn to_rfc3339(&self) -> (r: String)
        ensures
            r@ == self.rfc3339@,
    {
        str_to_string(self.rfc3339.as_str())
    }

    /// A field-by-field copy.
    pub fn duplicate(&self) -> (r: Timestamp)
        ensures
            r.rfc3339@ == self.rfc3339@,
    {
        Timestamp { rfc3339: str_to_string(self.rfc3339.as_str()) }
    }
}

} // verus!
