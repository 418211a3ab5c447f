//! The executable permutation engine: construction from a size, a round
//! count and a key, and evaluation of the permutation at an index.

use vstd::prelude::*;
use crate::model::{
    Config, bits_len, in_domain, wf, lemma_bits_len_le_64, lemma_in_range_in_domain,
    lemma_size_in_domain,
};
use crate::network::{net, net_from, round_at, round_hash, lemma_round_at_invert};
use crate::cycle::iterate;
use crate::walk::{
    exit_steps, permute_value, walk_exits_at, lemma_exit_exists, lemma_walk_characterizes,
};

verus! {

/// The ways a request to the engine can fail.
#[derive(Clone, Copy, Debug, PartialEq, Eq, Structural)]
pub enum Error {
    /// The requested domain is empty: a permutation needs `size >= 1`.
    InvalidDomain,
    /// The evaluated index lies at or above the domain size.
    OutOfRange,
}

/// Number of Feistel rounds `create` uses. More rounds mix the padded
/// domain more thoroughly (evaluation cost grows linearly with them, and
/// well-mixed networks keep the expected cycle-walk short); correctness —
/// the bijection on `[0, size)` — holds for any count of at least one.
pub const DEFAULT_ROUNDS: u32 = 29;

/// Round-hash key `create` uses; re-supplying the same key to `new`
/// reproduces the same permutation.
pub const DEFAULT_KEY: u64 = 0x5851F42D4C957F2D;

/// A pseudorandom bijection on `[0, size)`, immutable once constructed:
/// a Feistel network over the smallest covering power-of-two domain,
/// restricted to the requested range by cycle-walking.
#[derive(Debug)]
pub struct Permutation {
    size: u64,
    bit_width: u64,
    left_bits: u64,
    right_bits: u64,
    rounds: u32,
    key: u64,
}

impl View for Permutation {
    type V = Config;

    closed spec fn view(&self) -> Config {
        Config {
            size: self.size,
            bit_width: self.bit_width,
            left_bits: self.left_bits,
            right_bits: self.right_bits,
            rounds: self.rounds,
            key: self.key,
        }
    }
}

/// The keyed round hash, exactly the model's `round_hash`.
fn keyed_hash(round: u32, half: u64, key: u64) -> (h: u64)
    ensures
        h == round_hash(round, half, key),
{
    let a: u64 = (key ^ half).wrapping_add((round as u64).wrapping_mul(0x9E3779B97F4A7C15u64));
    let b: u64 = (a ^ (a >> 30)).wrapping_mul(0xBF58476D1CE4E5B9u64);
    let c: u64 = (b ^ (b >> 27)).wrapping_mul(0x94D049BB133111EBu64);
    c ^ (c >> 31)
}

impl Permutation {
    /// Builds an engine for the domain `[0, size)` with the given round
    /// count and key. Rejects an empty domain; otherwise derives the
    /// smallest covering bit width and splits it into the two half widths.
    pub fn new(size: u64, rounds: u32, key: u64) -> (r: Result<Permutation, Error>)
        requires
            rounds >= 1,
        ensures
            size >= 1 <==> r is Ok,
            size == 0 ==> r == Result::<Permutation, Error>::Err(Error::InvalidDomain),
            r matches Ok(p) ==> wf(p@) && p@.size == size && p@.rounds == rounds && p@.key == key,
    {
        if size == 0 {
            return Err(Error::InvalidDomain);
        }
        proof {
            lemma_bits_len_le_64((size - 1) as u64);
        }
        let mut x: u64 = size - 1;
        let mut b: u64 = 0;
        while x != 0
            invariant
                b + bits_len(x) == bits_len((size - 1) as u64),
                bits_len((size - 1) as u64) <= 64,
            decreases x,
        {
            x = x / 2;
            b = b + 1;
        }
        let left: u64 = b / 2;
        let right: u64 = b - left;
        let p = Permutation {
            size,
            bit_width: b,
            left_bits: left,
            right_bits: right,
            rounds,
            key,
        };
        proof {
            lemma_size_in_domain(p@);
        }
        Ok(p)
    }

    /// One Feistel round: mixes the keyed hash of the low half into the
    /// high half and swaps the halves, with the widths of round `r`.
    fn apply_round(&self, r: u32, x: u64) -> (y: u64)
        requires
            wf(self@),
            in_domain(self@, x),
        ensures
            y == round_at(self@, r, x),
            in_domain(self@, y),
    {
        let wl: u64 = if r % 2 == 0 {
            self.left_bits
        } else {
            self.right_bits
        };
        let wr: u64 = if r % 2 == 0 {
            self.right_bits
        } else {
            self.left_bits
        };
        proof {
            assert(1u64 << wl >= 1 && 1u64 << wr >= 1) by (bit_vector)
                requires
                    wl <= 32 && wr <= 32,
            ;
        }
        let mask_l: u64 = (1u64 << wl) - 1;
        let mask_r: u64 = (1u64 << wr) - 1;
        let h: u64 = keyed_hash(r, x & mask_r, self.key);
        let y: u64 = ((x & mask_r) << wl) | ((x >> wr) ^ (h & mask_l));
        proof {
            lemma_round_at_invert(self@, r, x);
        }
        y
    }

    /// All rounds of the network applied to a value of the padded domain.
    fn apply_network(&self, x: u64) -> (y: u64)
        requires
            wf(self@),
            in_domain(self@, x),
        ensures
            y == net(self@, x),
            in_domain(self@, y),
    {
        let mut cur: u64 = x;
        let mut r: u32 = 0;
        while r < self.rounds
            invariant
                wf(self@),
                in_domain(self@, cur),
                r <= self@.rounds,
                net(self@, x) == net_from(self@, cur, r),
            decreases self@.rounds - r,
        {
            cur = self.apply_round(r, cur);
            r = r + 1;
        }
        cur
    }

    /// Evaluates the permutation at `i`: rejects `i >= size`, otherwise
    /// cycle-walks the network from `i` and returns the first value that
    /// falls in `[0, size)`. The walk terminates because the orbit of `i`
    /// under the network returns to `i`, which is in range.
    pub fn evaluate(&self, i: u64) -> (r: Result<u64, Error>)
        requires
            wf(self@),
        ensures
            i < self@.size <==> r is Ok,
            i >= self@.size ==> r == Result::<u64, Error>::Err(Error::OutOfRange),
            r matches Ok(v) ==> v == permute_value(self@, i) && v < self@.size,
    {
        if i >= self.size {
            return Err(Error::OutOfRange);
        }
        proof {
            lemma_exit_exists(self@, i);
            lemma_in_range_in_domain(self@, i);
        }
        let ghost k0: nat = exit_steps(self@, i);
        let mut j: u64 = self.apply_network(i);
        let ghost steps: nat = 1;
        proof {
            assert(iterate(self@, i, 0) == i);
            assert(iterate(self@, i, 1) == net(self@, iterate(self@, i, 0)));
        }
        while j >= self.size
            invariant
                wf(self@),
                i < self@.size,
                in_domain(self@, j),
                walk_exits_at(self@, i, k0),
                1 <= steps <= k0,
                j == iterate(self@, i, steps),
                forall|t: nat| 1 <= t < steps ==> #[trigger] iterate(self@, i, t) >= self@.size,
            decreases k0 - steps,
        {
            proof {
                assert(steps < k0);
            }
            j = self.apply_network(j);
            proof {
                steps = steps + 1;
            }
        }
        proof {
            assert(walk_exits_at(self@, i, steps));
            lemma_walk_characterizes(self@, i, steps);
        }
        Ok(j)
    }
}

/// Builds a permutation of `[0, size)` with the default round count and
/// key; rejects an empty domain.
pub fn create(size: u64) -> (r: Result<Permutation, Error>)
    ensures
        size >= 1 <==> r is Ok,
        size == 0 ==> r == Result::<Permutation, Error>::Err(Error::InvalidDomain),
        r matches Ok(p) ==> wf(p@) && p@.size == size && p@.rounds == DEFAULT_ROUNDS && p@.key
            == DEFAULT_KEY,
{
    Permutation::new(size, DEFAULT_ROUNDS, DEFAULT_KEY)
}

} // verus!
