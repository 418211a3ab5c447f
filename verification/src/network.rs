//! The Feistel network: a keyed bijection on the padded domain
//! `[0, 2^bit_width)`. Each round splits the value into a high and a low
//! half, mixes a keyed hash of the low half into the high half, and swaps
//! the halves; because every round is invertible, so is the whole network.

use vstd::prelude::*;
use crate::model::{Config, in_domain, wf};

verus! {

/// A 64-bit mixing function of the round index, one Feistel half and the
/// key, in the style of splitmix64's finalizer: deterministic, with good
/// avalanche behaviour; it need not be invertible.
pub open spec fn round_hash(round: u32, half: u64, key: u64) -> u64 {
    let a = (key ^ half).wrapping_add((round as u64).wrapping_mul(0x9E3779B97F4A7C15u64));
    let b = (a ^ (a >> 30)).wrapping_mul(0xBF58476D1CE4E5B9u64);
    let c = (b ^ (b >> 27)).wrapping_mul(0x94D049BB133111EBu64);
    c ^ (c >> 31)
}

/// Mask keeping the low `w` bits.
pub open spec fn low_mask(w: u64) -> u64
    recommends
        w <= 63,
{
    ((1u64 << w) - 1) as u64
}

/// Width of the high half entering round `r`: the halves swap every round.
pub open spec fn width_left(c: Config, r: u32) -> u64 {
    if r % 2 == 0 {
        c.left_bits
    } else {
        c.right_bits
    }
}

/// Width of the low half entering round `r`.
pub open spec fn width_right(c: Config, r: u32) -> u64 {
    if r % 2 == 0 {
        c.right_bits
    } else {
        c.left_bits
    }
}

/// One Feistel step on a value split into a high `wl`-bit half and a low
/// `wr`-bit half: the low half becomes the new high half, and the old high
/// half XORed with the (masked) hash becomes the new low half.
pub open spec fn mix(x: u64, wl: u64, wr: u64, h: u64) -> u64 {
    ((x & low_mask(wr)) << wl) | ((x >> wr) ^ (h & low_mask(wl)))
}

/// The inverse Feistel step: recovers the halves of `mix`'s input from its
/// output, given the same hash value.
pub open spec fn unmix(y: u64, wl: u64, wr: u64, h: u64) -> u64 {
    (((y & low_mask(wl)) ^ (h & low_mask(wl))) << wr) | (y >> wl)
}

/// Round `r` of the network on `x`, hashing the low half with the key.
pub open spec fn round_at(c: Config, r: u32, x: u64) -> u64 {
    mix(
        x,
        width_left(c, r),
        width_right(c, r),
        round_hash(r, x & low_mask(width_right(c, r)), c.key),
    )
}

/// The inverse of round `r`: the low half of `mix`'s output is the old low
/// half, so the hash can be recomputed before undoing the XOR.
pub open spec fn round_back(c: Config, r: u32, y: u64) -> u64 {
    unmix(
        y,
        width_left(c, r),
        width_right(c, r),
        round_hash(r, y >> width_left(c, r), c.key),
    )
}

/// Rounds `r, r + 1, ..., rounds - 1` of the network applied to `x`.
pub open spec fn net_from(c: Config, x: u64, r: u32) -> u64
    decreases c.rounds - r,
{
    if r >= c.rounds {
        x
    } else {
        net_from(c, round_at(c, r, x), (r + 1) as u32)
    }
}

/// The whole network: all rounds applied to `x`.
pub open spec fn net(c: Config, x: u64) -> u64 {
    net_from(c, x, 0)
}

/// Core bit-vector fact: one Feistel step stays inside the padded domain
/// (with the half widths swapped), carries the old low half to the new high
/// half unchanged, and is undone by `unmix` with the same hash.
proof fn lemma_mix_unmix(x: u64, h: u64, wl: u64, wr: u64)
    by (bit_vector)
    requires
        wl <= 32,
        wr <= 32,
        (x >> wr) >> wl == 0,
    ensures
        (mix(x, wl, wr, h) >> wl) >> wr == 0,
        mix(x, wl, wr, h) >> wl == x & low_mask(wr),
        unmix(mix(x, wl, wr, h), wl, wr, h) == x,
{
}

/// Emptiness of the double shift does not depend on the order of the shifts:
/// either way it says the value is below two to the sum of the widths.
proof fn lemma_shr_shr_swap(x: u64, a: u64, b: u64)
    by (bit_vector)
    requires
        a <= 32,
        b <= 32,
    ensures
        ((x >> a) >> b == 0) == ((x >> b) >> a == 0),
{
}

/// Every round keeps the value in the padded domain and is undone exactly
/// by `round_back`.
pub(crate) proof fn lemma_round_at_invert(c: Config, r: u32, x: u64)
    requires
        wf(c),
        in_domain(c, x),
    ensures
        in_domain(c, round_at(c, r, x)),
        round_back(c, r, round_at(c, r, x)) == x,
{
    let wl = width_left(c, r);
    let wr = width_right(c, r);
    let h = round_hash(r, x & low_mask(wr), c.key);
    lemma_shr_shr_swap(x, c.right_bits, c.left_bits);
    lemma_mix_unmix(x, h, wl, wr);
    let y = mix(x, wl, wr, h);
    lemma_shr_shr_swap(y, wl, wr);
    assert(round_back(c, r, y) == unmix(y, wl, wr, round_hash(r, y >> wl, c.key)));
}

/// The tail of the network starting at round `r` keeps the padded domain.
proof fn lemma_net_from_in_domain(c: Config, x: u64, r: u32)
    requires
        wf(c),
        in_domain(c, x),
    ensures
        in_domain(c, net_from(c, x, r)),
    decreases c.rounds - r,
{
    if r < c.rounds {
        lemma_round_at_invert(c, r, x);
        lemma_net_from_in_domain(c, round_at(c, r, x), (r + 1) as u32);
    }
}

/// The tail of the network starting at round `r` is injective on the padded
/// domain: rounds are undone one by one with `round_back`.
proof fn lemma_net_from_injective(c: Config, x1: u64, x2: u64, r: u32)
    requires
        wf(c),
        in_domain(c, x1),
        in_domain(c, x2),
        net_from(c, x1, r) == net_from(c, x2, r),
    ensures
        x1 == x2,
    decreases c.rounds - r,
{
    if r < c.rounds {
        lemma_round_at_invert(c, r, x1);
        lemma_round_at_invert(c, r, x2);
        lemma_net_from_injective(c, round_at(c, r, x1), round_at(c, r, x2), (r + 1) as u32);
    }
}

/// The network maps the padded domain into itself.
pub proof fn lemma_net_in_domain(c: Config, x: u64)
    requires
        wf(c),
        in_domain(c, x),
    ensures
        in_domain(c, net(c, x)),
{
    lemma_net_from_in_domain(c, x, 0);
}

/// The network is injective on the padded domain.
pub proof fn lemma_net_injective(c: Config, x1: u64, x2: u64)
    requires
        wf(c),
        in_domain(c, x1),
        in_domain(c, x2),
        net(c, x1) == net(c, x2),
    ensures
        x1 == x2,
{
    lemma_net_from_injective(c, x1, x2, 0);
}

} // verus!
