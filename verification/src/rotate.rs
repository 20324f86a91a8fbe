//! Circular rotation of 64-bit words.
//!
//! The rolling update rule of the hash is pure rotate-and-XOR algebra, so the
//! few facts proved here — rotation distributes over XOR, rotations compose by
//! adding their amounts, and left and right rotations cancel — carry the whole
//! correctness argument of the roll operation.

use vstd::arithmetic::div_mod::lemma_add_mod_noop;
use vstd::arithmetic::div_mod::lemma_small_mod;
use vstd::prelude::*;

verus! {

/// Left rotation of `x` by an amount already reduced modulo the word width.
pub open spec fn rotl_amt(x: u64, s: u64) -> u64
    recommends
        s < 64,
{
    if s == 0 {
        x
    } else {
        (x << s) | (x >> ((64 - s) as u64))
    }
}

/// Left circular rotation of a 64-bit word by `n` bit positions.
/// The amount is taken modulo the word width, so rotating by 0 or by 64
/// leaves the word unchanged.
pub open spec fn rotl(x: u64, n: nat) -> u64 {
    rotl_amt(x, (n % 64) as u64)
}

/// Right circular rotation, expressed through `rotl`: rotating right by `n`
/// is rotating left by the complementary amount.
pub open spec fn rotr(x: u64, n: nat) -> u64 {
    rotl(x, ((64 - n % 64) % 64) as nat)
}

proof fn lemma_rotl_amt_xor(x: u64, y: u64, s: u64)
    by (bit_vector)
    requires
        s < 64,
    ensures
        rotl_amt(x ^ y, s) == rotl_amt(x, s) ^ rotl_amt(y, s),
{
}

proof fn lemma_rotl_amt_step(x: u64, s: u64)
    by (bit_vector)
    requires
        s < 64,
    ensures
        rotl_amt(rotl_amt(x, s), 1) == rotl_amt(x, ((s + 1) % 64) as u64),
{
}

/// Rotation distributes over XOR.
pub proof fn lemma_rotl_xor(x: u64, y: u64, n: nat)
    ensures
        rotl(x ^ y, n) == rotl(x, n) ^ rotl(y, n),
{
    lemma_rotl_amt_xor(x, y, (n % 64) as u64);
}

/// One more single-bit rotation advances the total amount by one.
pub proof fn lemma_rotl_succ(x: u64, n: nat)
    ensures
        rotl(rotl(x, n), 1) == rotl(x, n + 1),
{
    let s = (n % 64) as u64;
    lemma_rotl_amt_step(x, s);
    lemma_add_mod_noop(n as int, 1, 64);
    lemma_small_mod(1, 64);
}

/// Successive rotations compose by adding their amounts.
pub proof fn lemma_rotl_add(x: u64, a: nat, b: nat)
    ensures
        rotl(rotl(x, a), b) == rotl(x, a + b),
    decreases b,
{
    if b == 0 {
        lemma_small_mod(0, 64);
    } else {
        lemma_rotl_add(x, a, (b - 1) as nat);
        lemma_rotl_succ(rotl(x, a), (b - 1) as nat);
        lemma_rotl_succ(x, (a + b - 1) as nat);
    }
}

/// Rotating right by one undoes rotating left by one.
pub proof fn lemma_rotr_rotl_one(x: u64)
    ensures
        rotr(rotl(x, 1), 1) == x,
{
    lemma_small_mod(1, 64);
    lemma_rotl_add(x, 1, 63);
    assert(rotl(x, 64) == rotl_amt(x, 0));
}

/// Rotating the zero word gives zero.
pub proof fn lemma_rotl_zero_word(n: nat)
    ensures
        rotl(0u64, n) == 0u64,
{
    let s = (n % 64) as u64;
    assert(rotl_amt(0u64, s) == 0u64) by (bit_vector)
        requires
            s < 64,
    ;
}

/// Executable left rotation, equal to the `rotl` model.
pub fn rotl64(x: u64, n: u64) -> (r: u64)
    ensures
        r == rotl(x, n as nat),
{
    let s: u64 = n % 64;
    if s == 0 {
        x
    } else {
        (x << s) | (x >> (64 - s))
    }
}

/// Executable right rotation, equal to the `rotr` model.
pub fn rotr64(x: u64, n: u64) -> (r: u64)
    ensures
        r == rotr(x, n as nat),
{
    let s: u64 = n % 64;
    if s == 0 {
        x
    } else {
        proof {
            lemma_small_mod((64 - s) as nat, 64);
        }
        (x << (64 - s)) | (x >> s)
    }
}

} // verus!
