//! A deterministic, seedable pseudorandom bijection over `[0, size)` for an
//! arbitrary `size >= 1`, computed in O(1) memory.
//!
//! The permutation is a Feistel network over the padded domain
//! `[0, 2^bit_width)` (the smallest power of two covering the requested
//! range), restricted to `[0, size)` by cycle-walking: values that land
//! outside the range are fed back through the network until one lands
//! inside. The library proves that the resulting map is a bijection on
//! `[0, size)`: every result is in range, distinct inputs give distinct
//! results, and every value in range is reached.

pub mod cycle;
mod engine;
pub mod model;
pub mod network;
pub mod walk;

pub use engine::DEFAULT_KEY;
pub use engine::DEFAULT_ROUNDS;
pub use engine::Error;
pub use engine::Permutation;
pub use engine::create;
pub use model::Config;
pub use model::bits_len;
pub use model::in_domain;
pub use model::wf;
pub use walk::exit_steps;
pub use walk::lemma_exit_exists;
pub use walk::lemma_permute_deterministic;
pub use walk::lemma_permute_image;
pub use walk::lemma_permute_in_range;
pub use walk::lemma_permute_injective;
pub use walk::lemma_permute_surjective;
pub use walk::lemma_singleton_identity;
pub use walk::lemma_walk_characterizes;
pub use walk::permute_value;
pub use walk::walk_exits_at;
