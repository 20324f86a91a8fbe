//! Mathematical model of the rolling nucleotide hash.
//!
//! A window is a sequence of encoded bases, each a code in `{0, 1, 2, 3}`
//! (`A = 0`, `C = 1`, `T = 2`, `G = 3`, so that complementing a code flips
//! its second bit).  The forward hash of a window is the XOR of one seed
//! constant per base, left-rotated by the distance of the base from the
//! right end of the window; the reverse-complement hash is the same
//! construction read from the other strand.  The lemmas below establish the
//! laws the executable state machine is proved against: the O(1) roll update
//! equals rehashing the shifted window, the reverse-complement hash of a
//! window is the forward hash of its reverse complement, and the canonical
//! hash is strand-independent.

use crate::rotate::lemma_rotl_add;
use crate::rotate::lemma_rotl_succ;
use crate::rotate::lemma_rotl_xor;
use crate::rotate::lemma_rotl_zero_word;
use crate::rotate::lemma_rotr_rotl_one;
use crate::rotate::rotl;
use crate::rotate::rotr;
use vstd::prelude::*;

verus! {

/// Multiplier used to derive extra hash values from a computed hash.
pub const MULTISEED: u64 = 0x90b4_5d39_fb6d_a1fa;

/// Shift distance of the final mixing step of the derived hash.
pub const MULTISHIFT: u64 = 27;

/// Seed constant hashed in for one base read on the forward strand.
/// Codes outside the alphabet fall together with code 3; every use in the
/// library guards them out.
pub open spec fn fwd_seed(c: u8) -> u64 {
    if c == 0 {
        0x3c8b_fbb3_95c6_0474u64
    } else if c == 1 {
        0x3193_c185_62a0_2b4cu64
    } else if c == 2 {
        0x2955_49f5_4be2_4456u64
    } else {
        0x2032_3ed0_8257_2324u64
    }
}

/// Seed constant hashed in for one base read on the reverse-complement
/// strand: the forward seed of the complementary base.
pub open spec fn rc_seed(c: u8) -> u64 {
    if c == 0 {
        0x2955_49f5_4be2_4456u64
    } else if c == 1 {
        0x2032_3ed0_8257_2324u64
    } else if c == 2 {
        0x3c8b_fbb3_95c6_0474u64
    } else {
        0x3193_c185_62a0_2b4cu64
    }
}

/// The complementary base: `A` pairs with `T` and `C` with `G`.
pub open spec fn complement(c: u8) -> u8 {
    if c == 0 {
        2
    } else if c == 1 {
        3
    } else if c == 2 {
        0
    } else {
        1
    }
}

/// Every element of the window is an encoded base.
pub open spec fn valid_window(w: Seq<u8>) -> bool {
    forall|i: int| 0 <= i < w.len() ==> #[trigger] w[i] < 4
}

/// Forward hash of a window: the XOR over positions `i` of
/// `fwd_seed(w[i])` left-rotated by `w.len() - 1 - i`, written as a
/// recursion on the last base (appending a base rotates every earlier term
/// one position further left).
pub open spec fn fhash(w: Seq<u8>) -> u64
    decreases w.len(),
{
    if w.len() == 0 {
        0u64
    } else {
        rotl(fhash(w.drop_last()), 1) ^ fwd_seed(w.last())
    }
}

/// Reverse-complement hash of a window: the XOR over positions `i` of
/// `rc_seed(w[i])` left-rotated by `i`, written as a recursion on the first
/// base (the base at the right end of the window is the one farthest from
/// the right end of the reverse-complement strand).
pub open spec fn rhash(w: Seq<u8>) -> u64
    decreases w.len(),
{
    if w.len() == 0 {
        0u64
    } else {
        rc_seed(w.first()) ^ rotl(rhash(w.drop_first()), 1)
    }
}

/// The reverse complement of a window: symbol order reversed and every
/// base replaced by its complement.
pub open spec fn revcomp(w: Seq<u8>) -> Seq<u8>
    decreases w.len(),
{
    if w.len() == 0 {
        Seq::empty()
    } else {
        revcomp(w.drop_first()).push(complement(w.first()))
    }
}

/// Strand-independent hash of a window: the smaller of the forward and
/// reverse-complement hashes.
pub open spec fn canonical_hash(w: Seq<u8>) -> u64 {
    if fhash(w) <= rhash(w) {
        fhash(w)
    } else {
        rhash(w)
    }
}

/// The O(1) update of the forward hash when the window of length `k`
/// slides one base to the right, dropping `old_code` on the left and
/// taking in `new_code` on the right.
pub open spec fn next_fwd_hash(fh: u64, k: nat, old_code: u8, new_code: u8) -> u64 {
    rotl(fh, 1) ^ rotl(fwd_seed(old_code), k) ^ fwd_seed(new_code)
}

/// The O(1) update of the reverse-complement hash for the same slide: the
/// mirror image of `next_fwd_hash`, since the reverse-complement strand
/// shifts in the opposite direction.
pub open spec fn next_rc_hash(rh: u64, k: nat, old_code: u8, new_code: u8) -> u64
    recommends
        k >= 1,
{
    rotr(rh, 1) ^ rotr(rc_seed(old_code), 1) ^ rotl(rc_seed(new_code), (k - 1) as nat)
}

/// Derived hash: a pure function of an already computed hash value `h`,
/// a probe index and the window length, mixing them by wrapping
/// multiplication and a folding shift.
pub open spec fn extra_of(h: u64, idx: usize, k: usize) -> u64 {
    let factor = vstd::wrapping::u64_specs::wrapping_mul(MULTISEED, (idx ^ k) as u64);
    let mixed = vstd::wrapping::u64_specs::wrapping_mul(h, factor);
    mixed ^ (mixed >> MULTISHIFT)
}

/// The forward hash also decomposes at the left end of the window: the
/// first base contributes its seed rotated by the full window length less
/// one, XORed onto the hash of the rest.
pub proof fn lemma_fhash_first(w: Seq<u8>)
    requires
        w.len() >= 1,
    ensures
        fhash(w) == rotl(fwd_seed(w.first()), (w.len() - 1) as nat) ^ fhash(w.drop_first()),
    decreases w.len(),
{
    let n = w.len() as int;
    if n == 1 {
        assert(w.drop_last() =~= Seq::empty());
        assert(w.drop_first() =~= Seq::empty());
        lemma_rotl_zero_word(1);
        let f = fwd_seed(w.first());
        assert(rotl(f, 0) == f);
        assert(w.last() == w.first());
        assert(fhash(w.drop_last()) == 0u64);
        assert(fhash(w.drop_first()) == 0u64);
        assert(fhash(w) == rotl(0u64, 1) ^ f);
        assert(0u64 ^ f == f) by (bit_vector);
        assert(f ^ 0u64 == f) by (bit_vector);
    } else {
        let v = w.drop_last();
        lemma_fhash_first(v);
        // fhash(w) = rotl(fhash(v), 1) ^ fwd_seed(w.last())
        //          = rotl(rotl(fwd_seed(v.first()), n - 2) ^ fhash(v.drop_first()), 1)
        //            ^ fwd_seed(w.last())
        lemma_rotl_xor(
            rotl(fwd_seed(v.first()), (n - 2) as nat),
            fhash(v.drop_first()),
            1,
        );
        lemma_rotl_succ(fwd_seed(v.first()), (n - 2) as nat);
        assert(v.first() == w.first());
        assert(w.drop_first().drop_last() =~= v.drop_first());
        assert(w.drop_first().last() == w.last());
        assert(fhash(w.drop_first()) == rotl(fhash(v.drop_first()), 1) ^ fwd_seed(w.last()));
        let a = rotl(fwd_seed(w.first()), (n - 1) as nat);
        let b = rotl(fhash(v.drop_first()), 1);
        let c = fwd_seed(w.last());
        assert((a ^ b) ^ c == a ^ (b ^ c)) by (bit_vector);
    }
}

/// Appending a base on the right XORs its reverse-complement seed, rotated
/// by the old window length, onto the reverse-complement hash.
pub proof fn lemma_rhash_push(w: Seq<u8>, c: u8)
    ensures
        rhash(w.push(c)) == rhash(w) ^ rotl(rc_seed(c), w.len()),
    decreases w.len(),
{
    let n = w.len() as int;
    if n == 0 {
        assert(w.push(c).drop_first() =~= Seq::empty());
        assert(w.push(c).first() == c);
        lemma_rotl_zero_word(1);
        let s = rc_seed(c);
        assert(s ^ 0u64 == s) by (bit_vector);
        assert(0u64 ^ s == s) by (bit_vector);
        assert(rotl(s, 0) == s);
        assert(rhash(w) == 0u64);
        assert(rhash(w.push(c).drop_first()) == 0u64);
        assert(rhash(w.push(c)) == s ^ rotl(0u64, 1));
    } else {
        let t = w.drop_first();
        lemma_rhash_push(t, c);
        assert(w.push(c).drop_first() =~= t.push(c));
        assert(w.push(c).first() == w.first());
        // rhash(w.push(c)) = rc_seed(w.first()) ^ rotl(rhash(t.push(c)), 1)
        lemma_rotl_xor(rhash(t), rotl(rc_seed(c), t.len()), 1);
        lemma_rotl_succ(rc_seed(c), (n - 1) as nat);
        let a = rc_seed(w.first());
        let b = rotl(rhash(t), 1);
        let d = rotl(rc_seed(c), n as nat);
        assert(a ^ (b ^ d) == (a ^ b) ^ d) by (bit_vector);
    }
}

/// Rolling the forward hash equals rehashing the shifted window: applying
/// the O(1) forward update to the hash of `w`, with `w`'s first base going
/// out and `new_code` coming in, gives exactly the forward hash of the
/// window shifted one base to the right.
pub proof fn lemma_roll_forward(w: Seq<u8>, new_code: u8)
    requires
        w.len() >= 1,
    ensures
        next_fwd_hash(fhash(w), w.len(), w.first(), new_code) == fhash(
            w.drop_first().push(new_code),
        ),
{
    let k = w.len();
    let t = w.drop_first();
    lemma_fhash_first(w);
    // fhash(w) == rotl(fwd_seed(w.first()), k - 1) ^ fhash(t)
    lemma_rotl_xor(rotl(fwd_seed(w.first()), (k - 1) as nat), fhash(t), 1);
    lemma_rotl_succ(fwd_seed(w.first()), (k - 1) as nat);
    // so rotl(fhash(w), 1) == rotl(fwd_seed(w.first()), k) ^ rotl(fhash(t), 1)
    assert(t.push(new_code).drop_last() =~= t);
    assert(fhash(t.push(new_code)) == rotl(fhash(t), 1) ^ fwd_seed(new_code));
    let a = rotl(fwd_seed(w.first()), k);
    let b = rotl(fhash(t), 1);
    let c = fwd_seed(new_code);
    assert(((a ^ b) ^ a) ^ c == b ^ c) by (bit_vector);
}

/// Rolling the reverse-complement hash equals rehashing the shifted
/// window, the mirror image of `lemma_roll_forward`.
pub proof fn lemma_roll_reverse_complement(w: Seq<u8>, new_code: u8)
    requires
        w.len() >= 1,
    ensures
        next_rc_hash(rhash(w), w.len(), w.first(), new_code) == rhash(
            w.drop_first().push(new_code),
        ),
{
    let k = w.len();
    let t = w.drop_first();
    lemma_rhash_push(t, new_code);
    // rhash(t.push(new_code)) == rhash(t) ^ rotl(rc_seed(new_code), k - 1)
    // rhash(w) == rc_seed(w.first()) ^ rotl(rhash(t), 1), so rotating right
    // by one and cancelling the seed term recovers rhash(t).
    let a = rc_seed(w.first());
    let b = rotl(rhash(t), 1);
    lemma_rotl_xor(rhash(t), a, 63);
    assert(rotr(a ^ b, 1) == rotr(a, 1) ^ rotr(b, 1)) by {
        lemma_rotl_xor(a, b, 63);
    };
    lemma_rotr_rotl_one(rhash(t));
    // rotr(rhash(w), 1) == rotr(a, 1) ^ rhash(t)
    let p = rotr(a, 1);
    let q = rhash(t);
    let r = rotl(rc_seed(new_code), (k - 1) as nat);
    assert(((p ^ q) ^ p) ^ r == q ^ r) by (bit_vector);
}

/// The two seed tables mirror each other through base complementation.
pub proof fn lemma_seed_complement(c: u8)
    ensures
        rc_seed(c) == fwd_seed(complement(c)),
{
}

/// The reverse-complement hash of a window is the forward hash of the
/// window's reverse complement.
pub proof fn lemma_rhash_is_fhash_of_revcomp(w: Seq<u8>)
    ensures
        rhash(w) == fhash(revcomp(w)),
    decreases w.len(),
{
    if w.len() == 0 {
    } else {
        let t = w.drop_first();
        lemma_rhash_is_fhash_of_revcomp(t);
        assert(revcomp(w).drop_last() =~= revcomp(t));
        assert(revcomp(w).last() == complement(w.first()));
        lemma_seed_complement(w.first());
        let a = rc_seed(w.first());
        let b = rotl(rhash(t), 1);
        assert(a ^ b == b ^ a) by (bit_vector);
    }
}

/// The reverse complement of a longer window grows at its left end.
proof fn lemma_revcomp_push(w: Seq<u8>, c: u8)
    ensures
        revcomp(w.push(c)) =~= seq![complement(c)] + revcomp(w),
    decreases w.len(),
{
    if w.len() == 0 {
        assert(w.push(c).drop_first() =~= Seq::empty());
        assert(revcomp(w) =~= Seq::empty());
        assert(revcomp(w.push(c)) == revcomp(Seq::empty()).push(complement(c)));
        assert(revcomp(w.push(c)) =~= seq![complement(c)] + revcomp(w));
    } else {
        lemma_revcomp_push(w.drop_first(), c);
        assert(w.push(c).drop_first() =~= w.drop_first().push(c));
        assert(w.push(c).first() == w.first());
        assert(revcomp(w.push(c)) == revcomp(w.drop_first().push(c)).push(
            complement(w.first()),
        ));
        assert(revcomp(w) == revcomp(w.drop_first()).push(complement(w.first())));
        assert((seq![complement(c)] + revcomp(w.drop_first())).push(complement(w.first()))
            =~= seq![complement(c)] + revcomp(w.drop_first()).push(complement(w.first())));
    }
}

/// Reverse complementation is an involution on windows of encoded bases.
pub proof fn lemma_revcomp_involution(w: Seq<u8>)
    requires
        valid_window(w),
    ensures
        revcomp(revcomp(w)) =~= w,
    decreases w.len(),
{
    if w.len() == 0 {
    } else {
        let t = w.drop_first();
        assert(valid_window(t)) by {
            assert(forall|i: int| 0 <= i < t.len() ==> t[i] == w[i + 1]);
        };
        lemma_revcomp_involution(t);
        lemma_revcomp_push(revcomp(t), complement(w.first()));
        assert(complement(complement(w.first())) == w.first());
        assert(revcomp(revcomp(w)) =~= seq![w.first()] + t);
        assert(seq![w.first()] + t =~= w);
    }
}

/// Canonical symmetry: a window and its reverse complement have the same
/// canonical hash, so a scan of a sequence and a scan of its reverse
/// complement yield the same canonical hash at corresponding windows.
pub proof fn lemma_canonical_symmetry(w: Seq<u8>)
    requires
        valid_window(w),
    ensures
        canonical_hash(revcomp(w)) == canonical_hash(w),
{
    lemma_rhash_is_fhash_of_revcomp(w);
    lemma_rhash_is_fhash_of_revcomp(revcomp(w));
    lemma_revcomp_involution(w);
}

} // verus!
