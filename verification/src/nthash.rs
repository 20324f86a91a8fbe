//! The rolling hash state machine over windows of encoded bases.
//!
//! A state is created from an explicit window of `k` encoded bases and then
//! advanced one base at a time; every operation is proved against the window
//! hashes of the model: after `new` the stored hashes are exactly `fhash` and
//! (in canonical mode) `rhash` of the window, and `roll_fwd` performs exactly
//! the O(1) update that `lemma_roll_forward` and
//! `lemma_roll_reverse_complement` show equal to rehashing the shifted
//! window.

use crate::model::MULTISEED;
use crate::model::MULTISHIFT;
use crate::model::extra_of;
use crate::model::fhash;
use crate::model::fwd_seed;
use crate::model::next_fwd_hash;
use crate::model::next_rc_hash;
use crate::model::rc_seed;
use crate::model::rhash;
use crate::rotate::lemma_rotl_add;
use crate::rotate::lemma_rotl_xor;
use crate::rotate::lemma_rotl_zero_word;
use crate::rotate::rotl;
use crate::rotate::rotl64;
use crate::rotate::rotr64;
use vstd::prelude::*;

verus! {

/// Ghost image of a hash state: the fixed window length, the forward hash,
/// and the reverse-complement hash when canonical hashing was requested.
pub ghost struct NtHashView {
    pub k: usize,
    pub fh: u64,
    pub rh: Option<u64>,
}

/// The hash a caller reads between rolls: the canonical (smaller-of-the-two)
/// hash when the reverse-complement hash is tracked, the forward hash
/// otherwise.
pub open spec fn current_of(v: NtHashView) -> u64 {
    match v.rh {
        Some(rev) => if v.fh <= rev {
            v.fh
        } else {
            rev
        },
        None => v.fh,
    }
}

/// Seed table lookup for a base read on the forward strand.
fn fwd_seed_at(c: u8) -> (r: u64)
    ensures
        r == fwd_seed(c),
{
    if c == 0 {
        0x3c8b_fbb3_95c6_0474
    } else if c == 1 {
        0x3193_c185_62a0_2b4c
    } else if c == 2 {
        0x2955_49f5_4be2_4456
    } else {
        0x2032_3ed0_8257_2324
    }
}

/// Seed table lookup for a base read on the reverse-complement strand.
fn rc_seed_at(c: u8) -> (r: u64)
    ensures
        r == rc_seed(c),
{
    if c == 0 {
        0x2955_49f5_4be2_4456
    } else if c == 1 {
        0x2032_3ed0_8257_2324
    } else if c == 2 {
        0x3c8b_fbb3_95c6_0474
    } else {
        0x3193_c185_62a0_2b4c
    }
}

/// Stores forward and (optionally) reverse complement hashes of k-mers in a
/// nucleotide sequence.
pub struct NtHashIterator {
    k: usize,
    fh: u64,
    rh: Option<u64>,
}

impl View for NtHashIterator {
    type V = NtHashView;

    closed spec fn view(&self) -> NtHashView {
        NtHashView { k: self.k, fh: self.fh, rh: self.rh }
    }
}

impl NtHashIterator {
    /// Creates a new hash state over the first `k` encoded bases of `seq`,
    /// tracking the reverse-complement hash as well when `rc` is set.
    pub fn new(seq: &[u8], k: usize, rc: bool) -> (result: NtHashIterator)
        requires
            1 <= k <= seq@.len(),
            forall|i: int| 0 <= i < k ==> seq@[i] < 4,
        ensures
            result@.k == k,
            result@.fh == fhash(seq@.subrange(0, k as int)),
            result@.rh == (if rc {
                Some(rhash(seq@.subrange(0, k as int)))
            } else {
                None::<u64>
            }),
    {
        let mut fh: u64 = 0;
        proof {
            assert(seq@.subrange(0, 0) =~= Seq::empty());
            lemma_rotl_zero_word(k as nat);
        }
        for i in 0..k
            invariant
                k <= seq@.len(),
                fh == rotl(fhash(seq@.subrange(0, i as int)), (k - i) as nat),
        {
            let b = seq[i];
            let rot = rotl64(fwd_seed_at(b), (k - i - 1) as u64);
            proof {
                let p = seq@.subrange(0, i as int);
                let p1 = seq@.subrange(0, i + 1);
                assert(p1.drop_last() =~= p);
                assert(p1.last() == seq@[i as int]);
                assert(fhash(p1) == rotl(fhash(p), 1) ^ fwd_seed(b));
                lemma_rotl_xor(rotl(fhash(p), 1), fwd_seed(b), (k - i - 1) as nat);
                lemma_rotl_add(fhash(p), 1, (k - i - 1) as nat);
            }
            fh = fh ^ rot;
        }
        proof {
            assert(rotl(fhash(seq@.subrange(0, k as int)), 0) == fhash(
                seq@.subrange(0, k as int),
            ));
        }
        let rh = if rc {
            let mut h: u64 = 0;
            proof {
                assert(seq@.subrange(k as int, k as int) =~= Seq::empty());
                lemma_rotl_zero_word(k as nat);
            }
            for t in 0..k
                invariant
                    k <= seq@.len(),
                    h == rotl(rhash(seq@.subrange((k - t) as int, k as int)), (k - t) as nat),
            {
                let b = seq[k - t - 1];
                let rot = rotl64(rc_seed_at(b), (k - t - 1) as u64);
                proof {
                    let sfx = seq@.subrange((k - t) as int, k as int);
                    let sfx1 = seq@.subrange((k - t - 1) as int, k as int);
                    assert(sfx1.drop_first() =~= sfx);
                    assert(sfx1.first() == seq@[(k - t - 1) as int]);
                    assert(rhash(sfx1) == rc_seed(b) ^ rotl(rhash(sfx), 1));
                    lemma_rotl_xor(rc_seed(b), rotl(rhash(sfx), 1), (k - t - 1) as nat);
                    lemma_rotl_add(rhash(sfx), 1, (k - t - 1) as nat);
                    let hh = h;
                    let rr = rot;
                    assert(hh ^ rr == rr ^ hh) by (bit_vector);
                }
                h = h ^ rot;
            }
            proof {
                assert(rotl(rhash(seq@.subrange(0, k as int)), 0) == rhash(
                    seq@.subrange(0, k as int),
                ));
            }
            Some(h)
        } else {
            None
        };
        NtHashIterator { k, fh, rh }
    }

    /// Moves to the next window by giving the outgoing leftmost base and the
    /// incoming rightmost base, updating each stored hash in O(1).
    pub fn roll_fwd(&mut self, old_base: u8, new_base: u8)
        requires
            old(self)@.k >= 1,
            old_base < 4,
            new_base < 4,
        ensures
            final(self)@.k == old(self)@.k,
            final(self)@.fh == next_fwd_hash(
                old(self)@.fh,
                old(self)@.k as nat,
                old_base,
                new_base,
            ),
            final(self)@.rh == (match old(self)@.rh {
                Some(rev) => Some(
                    next_rc_hash(rev, old(self)@.k as nat, old_base, new_base),
                ),
                None => None::<u64>,
            }),
    {
        let rotated = rotl64(self.fh, 1);
        let outgoing = rotl64(fwd_seed_at(old_base), self.k as u64);
        let incoming = fwd_seed_at(new_base);
        self.fh = rotated ^ outgoing ^ incoming;
        if let Some(rev) = self.rh {
            let r0 = rotr64(rev, 1);
            let r1 = rotr64(rc_seed_at(old_base), 1);
            let r2 = rotl64(rc_seed_at(new_base), (self.k - 1) as u64);
            self.rh = Some(r0 ^ r1 ^ r2);
        }
    }

    /// Retrieves the current hash: the minimum of the forward and
    /// reverse-complement hashes in canonical mode, the forward hash alone
    /// otherwise.
    pub fn curr_hash(&self) -> (r: u64)
        ensures
            r == current_of(self@),
    {
        if let Some(rev) = self.rh {
            if self.fh <= rev {
                self.fh
            } else {
                rev
            }
        } else {
            self.fh
        }
    }

    /// Generates further hash values from the current hash alone, one per
    /// probe index: a pure function of the current hash, the index and the
    /// window length, using wrapping arithmetic throughout.
    pub fn extra_hash(&self, extra_idx: usize) -> (r: u64)
        ensures
            r == extra_of(current_of(self@), extra_idx, self@.k),
    {
        let h = self.curr_hash();
        let factor = MULTISEED.wrapping_mul((extra_idx ^ self.k) as u64);
        let new_hash = h.wrapping_mul(factor);
        new_hash ^ (new_hash >> MULTISHIFT)
    }
}

} // verus!
