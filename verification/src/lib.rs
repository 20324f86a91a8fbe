//! A rolling (ntHash-style) hash over the four-symbol nucleotide alphabet.
//!
//! The hash of a window of `k` encoded bases is the XOR of per-base seed
//! constants, each left-rotated by the distance of its base from the right
//! end of the window.  Sliding the window one base to the right is an O(1)
//! update instead of an O(k) recomputation, and an optional second hash of
//! the window's reverse complement makes the result strand-independent.

mod model;
mod nthash;
mod rotate;

pub use model::canonical_hash;
pub use model::complement;
pub use model::extra_of;
pub use model::fhash;
pub use model::fwd_seed;
pub use model::lemma_canonical_symmetry;
pub use model::lemma_rhash_is_fhash_of_revcomp;
pub use model::lemma_roll_forward;
pub use model::lemma_roll_reverse_complement;
pub use model::next_fwd_hash;
pub use model::next_rc_hash;
pub use model::rc_seed;
pub use model::revcomp;
pub use model::rhash;
pub use model::valid_window;
pub use nthash::NtHashIterator;
pub use nthash::NtHashView;
pub use nthash::current_of;
pub use rotate::rotl;
pub use rotate::rotr;
