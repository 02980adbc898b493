//! Peer identifiers.
//!
//! A peer is keyed by a 128-bit, time-ordered identifier assigned at accept
//! time. Only its text rendering comes from outside.

use vstd::prelude::*;

verus! {

/// The canonical text of a 128-bit peer identifier. The rendering is a pure
/// function of the identifier, so it only carries a name here.
pub uninterp spec fn ulid_text(id: u128) -> Seq<u8>;

/// Relies on ulid::Ulid::to_string: the Crockford base32 text of the
/// identifier, computed from the 128-bit value alone.
#[verifier::external_body]
pub fn ulid_string(id: u128) -> (r: Vec<u8>)
    ensures
        r@ == ulid_text(id),
{
    ulid::Ulid(id).to_string().into_bytes()
}

} // verus!
