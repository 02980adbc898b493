//! The wall clock.
//!
//! Every user-facing broker line starts with a local-time stamp. The time is
//! ambient, so nothing is promised of the value; the routing functions take
//! the rendered stamp as a plain argument and are verified for every value
//! of it.

use vstd::prelude::*;

verus! {

/// Relies on chrono::Local::now: the current local time, rendered the way
/// chrono displays it. The result depends on the wall clock, so no clause
/// pins it down.
#[verifier::external_body]
pub fn local_time_text() -> (r: Vec<u8>) {
    chrono::Local::now().to_string().into_bytes()
}

} // verus!
