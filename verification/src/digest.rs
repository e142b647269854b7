//! Content hashing with `ahash`. The hasher is keyed anew in every process,
//! so nothing is claimed of a hash value: every wrapper here only feeds the
//! hasher or reads it.

use std::hash::Hash;
use std::hash::Hasher;
use vstd::prelude::*;

verus! {

/// The hasher of the `ahash` crate, carried through unread.
#[verifier::external_type_specification]
#[verifier::external_body]
pub struct ExAHasher(ahash::AHasher);

/// `AHasher::default()`: a hasher with the keys of this process.
#[verifier::external_body]
pub(crate) fn new_hasher() -> (hasher: ahash::AHasher) {
    ahash::AHasher::default()
}

/// Feeds an optional delimiter to the hasher, through its `Hash` impl.
#[verifier::external_body]
pub(crate) fn feed_delimiter(hasher: &mut ahash::AHasher, delimiter: &Option<u8>) {
    delimiter.hash(hasher)
}

/// Feeds an index to the hasher, through its `Hash` impl.
#[verifier::external_body]
pub(crate) fn feed_index(hasher: &mut ahash::AHasher, index: usize) {
    index.hash(hasher)
}

/// Feeds a text to the hasher, through its `Hash` impl.
#[verifier::external_body]
pub(crate) fn feed_text(hasher: &mut ahash::AHasher, text: &str) {
    text.hash(hasher)
}

/// `Hasher::finish`: the hash of what was fed so far.
#[verifier::external_body]
pub(crate) fn finish_hasher(hasher: &ahash::AHasher) -> (hash: u64) {
    hasher.finish()
}

} // verus!
