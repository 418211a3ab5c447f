//! Cycle-walking: restricting the network's bijection on the padded domain
//! to `[0, size)` by re-applying the network until the value falls in
//! range. This module defines the walked value and proves the laws of the
//! resulting map: it terminates, stays in range, and is a bijection on
//! `[0, size)`.

use vstd::prelude::*;
use crate::model::{Config, bits_len, wf, lemma_in_range_in_domain};
use crate::cycle::{
    iterate, lemma_iterate_add, lemma_iterate_in_domain, lemma_iterate_injective,
    lemma_iterate_returns,
};

verus! {

/// The walk from `i` leaves the out-of-range region after exactly `k`
/// applications of the network: the `k`-th orbit point is in range and all
/// earlier ones (after the first application) are not.
pub open spec fn walk_exits_at(c: Config, i: u64, k: nat) -> bool {
    &&& 1 <= k
    &&& iterate(c, i, k) < c.size
    &&& forall|t: nat| 1 <= t < k ==> #[trigger] iterate(c, i, t) >= c.size
}

/// The number of network applications the walk from `i` makes.
pub open spec fn exit_steps(c: Config, i: u64) -> nat {
    choose|k: nat| walk_exits_at(c, i, k)
}

/// The value the engine returns for `i`: the first orbit point of `i`,
/// after at least one application of the network, that lies in `[0, size)`.
pub open spec fn permute_value(c: Config, i: u64) -> u64 {
    iterate(c, i, exit_steps(c, i))
}

/// If some orbit point is in range, a first such point exists.
proof fn lemma_first_hit(c: Config, i: u64, k: nat)
    requires
        1 <= k,
        iterate(c, i, k) < c.size,
    ensures
        exists|e: nat| walk_exits_at(c, i, e),
    decreases k,
{
    if forall|t: nat| 1 <= t < k ==> #[trigger] iterate(c, i, t) >= c.size {
        assert(walk_exits_at(c, i, k));
    } else {
        let t = choose|t: nat| !(1 <= t < k ==> #[trigger] iterate(c, i, t) >= c.size);
        lemma_first_hit(c, i, t);
    }
}

/// The walk from an in-range starting point exits: the orbit returns to the
/// starting point itself, which is in range.
pub proof fn lemma_exit_exists(c: Config, i: u64)
    requires
        wf(c),
        i < c.size,
    ensures
        walk_exits_at(c, i, exit_steps(c, i)),
{
    lemma_in_range_in_domain(c, i);
    lemma_iterate_returns(c, i);
    let k = choose|k: nat| 1 <= k && iterate(c, i, k) == i;
    assert(1 <= k && iterate(c, i, k) == i);
    lemma_first_hit(c, i, k);
    let e = choose|e: nat| walk_exits_at(c, i, e);
    assert(walk_exits_at(c, i, e));
}

/// There is only one exit step count.
proof fn lemma_exit_unique(c: Config, i: u64, k1: nat, k2: nat)
    requires
        walk_exits_at(c, i, k1),
        walk_exits_at(c, i, k2),
    ensures
        k1 == k2,
{
    if k1 < k2 {
        assert(iterate(c, i, k1) >= c.size);
    }
    if k2 < k1 {
        assert(iterate(c, i, k2) >= c.size);
    }
}

/// Exhibiting any exit step count pins down the walked value.
pub proof fn lemma_walk_characterizes(c: Config, i: u64, k: nat)
    requires
        walk_exits_at(c, i, k),
    ensures
        exit_steps(c, i) == k,
        permute_value(c, i) == iterate(c, i, k),
{
    let e = choose|e: nat| walk_exits_at(c, i, e);
    assert(walk_exits_at(c, i, e));
    lemma_exit_unique(c, i, e, k);
}

/// Range law: the walked value of an in-range input is in range.
pub proof fn lemma_permute_in_range(c: Config, i: u64)
    requires
        wf(c),
        i < c.size,
    ensures
        permute_value(c, i) < c.size,
{
    lemma_exit_exists(c, i);
}

/// Injectivity law: distinct in-range inputs walk to distinct values. Two
/// walks meeting at the same point must have the same length, else the
/// shorter input would appear strictly inside the longer walk, where every
/// point is out of range; equal lengths cancel by injectivity of the
/// network.
pub proof fn lemma_permute_injective(c: Config, i1: u64, i2: u64)
    requires
        wf(c),
        i1 < c.size,
        i2 < c.size,
        permute_value(c, i1) == permute_value(c, i2),
    ensures
        i1 == i2,
{
    lemma_exit_exists(c, i1);
    lemma_exit_exists(c, i2);
    lemma_in_range_in_domain(c, i1);
    lemma_in_range_in_domain(c, i2);
    let k1 = exit_steps(c, i1);
    let k2 = exit_steps(c, i2);
    if k1 <= k2 {
        let d = (k2 - k1) as nat;
        lemma_iterate_add(c, i2, d, k1);
        lemma_iterate_in_domain(c, i2, d);
        lemma_iterate_injective(c, i1, iterate(c, i2, d), k1);
    } else {
        let d = (k1 - k2) as nat;
        lemma_iterate_add(c, i1, d, k2);
        lemma_iterate_in_domain(c, i1, d);
        lemma_iterate_injective(c, i2, iterate(c, i1, d), k2);
    }
}

/// If some orbit point of an in-range `j` is in range before step `k`, a
/// last such point before `k` exists.
proof fn lemma_last_hit(c: Config, j: u64, k: nat)
    requires
        wf(c),
        j < c.size,
        1 <= k,
    ensures
        exists|m: nat|
            m < k && (iterate(c, j, m) < c.size) && (forall|t: nat|
                m < t < k ==> #[trigger] iterate(c, j, t) >= c.size),
    decreases k,
{
    if k == 1 {
        let m: nat = 0;
        assert(m < k && (iterate(c, j, m) < c.size) && (forall|t: nat|
            m < t < k ==> #[trigger] iterate(c, j, t) >= c.size));
    } else if iterate(c, j, (k - 1) as nat) < c.size {
        let m = (k - 1) as nat;
        assert(m < k && (iterate(c, j, m) < c.size) && (forall|t: nat|
            m < t < k ==> #[trigger] iterate(c, j, t) >= c.size));
    } else {
        lemma_last_hit(c, j, (k - 1) as nat);
        let m = choose|m: nat|
            m < (k - 1) as nat && (iterate(c, j, m) < c.size) && (forall|t: nat|
                m < t < (k - 1) as nat ==> #[trigger] iterate(c, j, t) >= c.size);
        assert(m < k && (iterate(c, j, m) < c.size) && (forall|t: nat|
            m < t < k ==> #[trigger] iterate(c, j, t) >= c.size));
    }
}

/// Surjectivity law: every in-range value is walked to by some in-range
/// input. Walking the orbit of `j` around its full cycle, the input is the
/// last in-range point before the orbit closes at `j`.
pub proof fn lemma_permute_surjective(c: Config, j: u64)
    requires
        wf(c),
        j < c.size,
    ensures
        exists|i: u64| i < c.size && permute_value(c, i) == j,
{
    lemma_in_range_in_domain(c, j);
    lemma_iterate_returns(c, j);
    let kp = choose|k: nat| 1 <= k && iterate(c, j, k) == j;
    assert(1 <= kp && iterate(c, j, kp) == j);
    lemma_last_hit(c, j, kp);
    let m = choose|m: nat|
        m < kp && (iterate(c, j, m) < c.size) && (forall|t: nat|
            m < t < kp ==> #[trigger] iterate(c, j, t) >= c.size);
    let i = iterate(c, j, m);
    let k = (kp - m) as nat;
    lemma_iterate_add(c, j, m, k);
    assert(iterate(c, i, k) == j);
    assert forall|t: nat| 1 <= t < k implies #[trigger] iterate(c, i, t) >= c.size by {
        lemma_iterate_add(c, j, m, t);
    }
    assert(walk_exits_at(c, i, k));
    lemma_walk_characterizes(c, i, k);
    assert(i < c.size && permute_value(c, i) == j);
}

/// Bijection law, as one statement: the set of walked values of the
/// in-range inputs is exactly `[0, size)` — no duplicates, no omissions —
/// and so has cardinality `size`.
pub proof fn lemma_permute_image(c: Config)
    requires
        wf(c),
    ensures
        Set::new(|v: u64| exists|i: u64| i < c.size && permute_value(c, i) == v) == Set::new(
            |v: u64| v < c.size,
        ),
        Set::new(|v: u64| exists|i: u64| i < c.size && permute_value(c, i) == v).len() == c.size,
{
    let image = Set::new(|v: u64| exists|i: u64| i < c.size && permute_value(c, i) == v);
    let range = Set::new(|v: u64| v < c.size);
    assert forall|v: u64| image.contains(v) implies range.contains(v) by {
        let i = choose|i: u64| i < c.size && permute_value(c, i) == v;
        lemma_permute_in_range(c, i);
    }
    assert forall|v: u64| range.contains(v) implies image.contains(v) by {
        lemma_permute_surjective(c, v);
    }
    assert(image =~= range);
    <u64 as vstd::set_lib::FiniteRange>::range_properties(0, c.size);
    assert(range =~= Set::new(|v: u64| 0 <= v < c.size));
}

/// Boundary law: on the singleton domain `[0, 1)` the only input maps to
/// itself.
pub proof fn lemma_singleton_identity(c: Config)
    requires
        wf(c),
        c.size == 1,
    ensures
        permute_value(c, 0) == 0,
{
    lemma_permute_in_range(c, 0);
}

/// Determinism law: two well-formed configurations built from the same
/// size, round count and key agree on every derived field, hence on every
/// walked value.
pub proof fn lemma_permute_deterministic(c1: Config, c2: Config, i: u64)
    requires
        wf(c1),
        wf(c2),
        c1.size == c2.size,
        c1.rounds == c2.rounds,
        c1.key == c2.key,
    ensures
        permute_value(c1, i) == permute_value(c2, i),
{
    assert(c1.bit_width == bits_len((c1.size - 1) as u64));
    assert(c1 == c2);
}

} // verus!
