//! The source of verifier challenges.

use vstd::prelude::*;

verus! {

/// A Fiat-Shamir transcript: it absorbs the messages of a proof session and
/// gives back challenges that depend on all that was absorbed before.
///
/// The protocol code promises to call `append` and `challenge` once per round
/// and in round order; it assumes nothing about the bytes that come back.
pub trait Transcript {
    /// Absorbs `new_data` into the session.
    fn append(&mut self, new_data: &[u8]);

    /// Draws the next challenge.
    fn challenge(&mut self) -> [u8; 32];
}

} // verus!
