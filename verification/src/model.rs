//! Ghost model of a permutation engine: its configuration, the padded
//! domain it works over, and the bit-width arithmetic that relates the two.

use vstd::prelude::*;
use vstd::arithmetic::power2::{pow2, lemma_pow2_adds, lemma_pow2_pos, lemma2_to64};
use vstd::bits::lemma_u64_shr_is_div;

verus! {

/// The mathematical configuration of a permutation engine: the domain size,
/// the derived widths of the Feistel halves, the round count and the key.
pub struct Config {
    /// Exclusive upper bound of the permuted range; at least 1.
    pub size: u64,
    /// Smallest `b` with `2^b >= size`; the network permutes `[0, 2^b)`.
    pub bit_width: u64,
    /// Width of the high Feistel half before the first round.
    pub left_bits: u64,
    /// Width of the low Feistel half before the first round.
    pub right_bits: u64,
    /// Number of Feistel rounds; at least 1.
    pub rounds: u32,
    /// Seed of the round hash; equal keys give equal permutations.
    pub key: u64,
}

/// Number of binary digits of `x`: the smallest `b` with `x < 2^b`.
pub open spec fn bits_len(x: u64) -> nat
    decreases x,
{
    if x == 0 {
        0
    } else {
        1 + bits_len(x / 2)
    }
}

/// `x` lies in the padded domain `[0, 2^bit_width)`, stated over shifts so
/// that it is directly available to bit-vector reasoning.
pub open spec fn in_domain(c: Config, x: u64) -> bool {
    (x >> c.right_bits) >> c.left_bits == 0
}

/// Well-formedness of a configuration: the field invariants every engine
/// established at construction maintains for its whole life.
pub open spec fn wf(c: Config) -> bool {
    &&& c.size >= 1
    &&& c.rounds >= 1
    &&& c.bit_width == bits_len((c.size - 1) as u64)
    &&& c.left_bits == c.bit_width / 2
    &&& c.left_bits + c.right_bits == c.bit_width
    &&& c.left_bits <= 32
    &&& c.right_bits <= 32
    &&& in_domain(c, (c.size - 1) as u64)
}

/// `bits_len` is exact: `x` is below `2^bits_len(x)`.
pub proof fn lemma_bits_len_exceeds(x: u64)
    ensures
        (x as nat) < pow2(bits_len(x)),
    decreases x,
{
    if x == 0 {
        lemma_pow2_pos(0);
    } else {
        lemma_bits_len_exceeds(x / 2);
        lemma_pow2_adds((bits_len(x) - 1) as nat, 1);
        lemma2_to64();
    }
}

/// `bits_len` is minimal: anything below `2^k` has at most `k` digits.
pub proof fn lemma_bits_len_bound(x: u64, k: nat)
    requires
        (x as nat) < pow2(k),
    ensures
        bits_len(x) <= k,
    decreases k,
{
    if x != 0 {
        lemma_pow2_pos(k);
        if k == 0 {
            assert(pow2(0) == 1) by {
                lemma2_to64();
            }
        } else {
            assert(pow2(k) == 2 * pow2((k - 1) as nat)) by {
                lemma_pow2_adds((k - 1) as nat, 1);
                lemma2_to64();
            }
            lemma_bits_len_bound(x / 2, (k - 1) as nat);
        }
    }
}

/// A `u64` has at most 64 binary digits.
pub proof fn lemma_bits_len_le_64(x: u64)
    ensures
        bits_len(x) <= 64,
{
    lemma2_to64();
    lemma_bits_len_bound(x, 64);
}

/// A value below `2^(a + b)` shifted right by `a` and then by `b` is zero.
pub proof fn lemma_shr_shr_zero(x: u64, a: u64, b: u64)
    requires
        a <= 32,
        b <= 32,
        (x as nat) < pow2((a + b) as nat),
    ensures
        (x >> a) >> b == 0,
{
    lemma_u64_shr_is_div(x, a);
    lemma_pow2_adds(a as nat, b as nat);
    lemma_pow2_pos(a as nat);
    lemma_pow2_pos(b as nat);
    assert((x as nat) / pow2(a as nat) < pow2(b as nat)) by {
        vstd::arithmetic::div_mod::lemma_multiply_divide_lt(
            x as int,
            pow2(a as nat) as int,
            pow2(b as nat) as int,
        );
    }
    lemma_u64_shr_is_div(x >> a, b);
    vstd::arithmetic::div_mod::lemma_basic_div((x >> a) as int, pow2(b as nat) as int);
}

/// The padded domain is downward closed.
pub proof fn lemma_in_domain_le(c: Config, x: u64, y: u64)
    requires
        x <= y,
        in_domain(c, y),
        c.left_bits <= 32,
        c.right_bits <= 32,
    ensures
        in_domain(c, x),
{
    let l = c.left_bits;
    let r = c.right_bits;
    assert((x >> r) >> l == 0) by (bit_vector)
        requires
            x <= y,
            (y >> r) >> l == 0,
            l <= 32,
            r <= 32,
    ;
}

/// Every in-range value lies in the padded domain.
pub proof fn lemma_in_range_in_domain(c: Config, i: u64)
    requires
        wf(c),
        i < c.size,
    ensures
        in_domain(c, i),
{
    lemma_in_domain_le(c, i, (c.size - 1) as u64);
}

/// A well-formed configuration's largest in-range value lies in the padded
/// domain; the invariant clause is derivable from the others.
pub proof fn lemma_size_in_domain(c: Config)
    requires
        c.size >= 1,
        c.bit_width == bits_len((c.size - 1) as u64),
        c.left_bits + c.right_bits == c.bit_width,
        c.left_bits <= 32,
        c.right_bits <= 32,
    ensures
        in_domain(c, (c.size - 1) as u64),
{
    lemma_bits_len_exceeds((c.size - 1) as u64);
    lemma_shr_shr_zero((c.size - 1) as u64, c.right_bits, c.left_bits);
}

} // verus!
