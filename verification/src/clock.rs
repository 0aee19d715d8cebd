//! The one clock-facing call: rendering the current time as text.

use std::fmt::Write;
use vstd::prelude::*;

verus! {

/// Relies on chrono's `Local::now` and `DateTime::format`: renders the
/// current local time under the strftime-style `pattern` (literal characters
/// pass through unchanged; a malformed pattern yields a truncated rendering
/// rather than a panic). The result depends on the clock, so nothing is
/// promised of it; every caller states what holds whatever bytes come back.
#[verifier::external_body]
pub(crate) fn format_now(pattern: &Vec<u8>) -> Vec<u8> {
    let p = String::from_utf8_lossy(pattern).into_owned();
    let mut s = String::new();
    let _ = write!(s, "{}", chrono::Local::now().format(&p));
    s.into_bytes()
}

} // verus!
