//! Identifiers. Every identifier is a content hash: equal content gives an
//! equal identifier, so identifiers are compared and never interpreted.

use vstd::prelude::*;

verus! {

/// A 256-bit content hash, held as two 128-bit halves.
#[derive(Debug, PartialEq, Eq, Structural, Clone, Copy, Hash)]
pub struct ContentId {
    pub hi: u128,
    pub lo: u128,
}

impl ContentId {
    /// The identifier whose upper half is zero and whose lower half is `lo`.
    pub fn from_low(lo: u128) -> (id: ContentId)
        ensures
            id == (ContentId { hi: 0, lo }),
    {
        ContentId { hi: 0, lo }
    }
}

/// The identifier of a commit.
#[derive(Debug, PartialEq, Eq, Structural, Clone, Copy, Hash)]
pub struct ChangesetId(pub ContentId);

/// The identifier of a commit in the legacy format.
#[derive(Debug, PartialEq, Eq, Structural, Clone, Copy, Hash)]
pub struct HgChangesetId(pub ContentId);

} // verus!
