//! Orbits of the network. Iterating an injective map on the finite padded
//! domain must return to its starting point; this is what makes
//! cycle-walking terminate and what makes the walked permutation reach
//! every value in range.

use vstd::prelude::*;
use vstd::set_lib::lemma_len_subset;
use crate::model::{Config, in_domain, wf};
use crate::network::{net, lemma_net_in_domain, lemma_net_injective};

verus! {

/// `t`-fold application of the network to `x`.
pub open spec fn iterate(c: Config, x: u64, t: nat) -> u64
    decreases t,
{
    if t == 0 {
        x
    } else {
        net(c, iterate(c, x, (t - 1) as nat))
    }
}

/// Orbits stay in the padded domain.
pub proof fn lemma_iterate_in_domain(c: Config, x: u64, t: nat)
    requires
        wf(c),
        in_domain(c, x),
    ensures
        in_domain(c, iterate(c, x, t)),
    decreases t,
{
    if t > 0 {
        lemma_iterate_in_domain(c, x, (t - 1) as nat);
        lemma_net_in_domain(c, iterate(c, x, (t - 1) as nat));
    }
}

/// Splitting an orbit: `a + d` steps are `a` steps followed by `d` steps.
pub proof fn lemma_iterate_add(c: Config, x: u64, a: nat, d: nat)
    ensures
        iterate(c, x, a + d) == iterate(c, iterate(c, x, a), d),
    decreases d,
{
    if d > 0 {
        lemma_iterate_add(c, x, a, (d - 1) as nat);
    }
}

/// Each orbit step is injective, so so are `t` of them.
pub proof fn lemma_iterate_injective(c: Config, x1: u64, x2: u64, t: nat)
    requires
        wf(c),
        in_domain(c, x1),
        in_domain(c, x2),
        iterate(c, x1, t) == iterate(c, x2, t),
    ensures
        x1 == x2,
    decreases t,
{
    if t > 0 {
        lemma_iterate_in_domain(c, x1, (t - 1) as nat);
        lemma_iterate_in_domain(c, x2, (t - 1) as nat);
        lemma_net_injective(c, iterate(c, x1, (t - 1) as nat), iterate(c, x2, (t - 1) as nat));
        lemma_iterate_injective(c, x1, x2, (t - 1) as nat);
    }
}

/// The set of the first `t + 1` points of the orbit of `x`.
spec fn seen(c: Config, x: u64, t: nat) -> Set<u64>
    decreases t,
{
    if t == 0 {
        Set::empty().insert(x)
    } else {
        seen(c, x, (t - 1) as nat).insert(iterate(c, x, t))
    }
}

/// What `seen` holds: exactly the orbit points up to step `t`.
proof fn lemma_seen_contains(c: Config, x: u64, t: nat)
    ensures
        seen(c, x, t).finite(),
        forall|s: nat| s <= t ==> seen(c, x, t).contains(#[trigger] iterate(c, x, s)),
        forall|v: u64|
            #[trigger] seen(c, x, t).contains(v) ==> exists|s: nat| s <= t && iterate(c, x, s) == v,
    decreases t,
{
    broadcast use vstd::set::group_set_axioms;

    if t == 0 {
        assert(iterate(c, x, 0) == x);
    } else {
        lemma_seen_contains(c, x, (t - 1) as nat);
    }
}

/// While the orbit has not repeated, `seen` grows by one point per step.
proof fn lemma_seen_len(c: Config, x: u64, t: nat)
    requires
        forall|a: nat, b: nat|
            a < b <= t ==> #[trigger] iterate(c, x, a) != #[trigger] iterate(c, x, b),
    ensures
        seen(c, x, t).len() == t + 1,
    decreases t,
{
    broadcast use vstd::set::group_set_axioms;

    lemma_seen_contains(c, x, t);
    if t == 0 {
        assert(seen(c, x, 0).len() == 1);
    } else {
        lemma_seen_contains(c, x, (t - 1) as nat);
        lemma_seen_len(c, x, (t - 1) as nat);
        assert(!seen(c, x, (t - 1) as nat).contains(iterate(c, x, t)));
    }
}

/// There are exactly `2^64` values of type `u64`.
proof fn lemma_full_u64()
    ensures
        Set::<u64>::full().finite(),
        Set::<u64>::full().len() == 0x1_0000_0000_0000_0000,
{
    broadcast use vstd::set::group_set_axioms;

    let below_max = Set::new(|i: u64| 0 <= i < u64::MAX);
    <u64 as vstd::set_lib::FiniteRange>::range_properties(0, u64::MAX);
    assert(below_max.len() == u64::MAX);
    assert(!below_max.contains(u64::MAX));
    assert(Set::<u64>::full() =~= below_max.insert(u64::MAX));
}

/// Periodicity: iterating the network from any point of the padded domain
/// eventually revisits that point. With more steps than the domain has
/// values, some point repeats; peeling the common prefix off the repeat
/// with injectivity brings the orbit back to `x` itself.
pub proof fn lemma_iterate_returns(c: Config, x: u64)
    requires
        wf(c),
        in_domain(c, x),
    ensures
        exists|k: nat| 1 <= k && iterate(c, x, k) == x,
{
    let n: nat = 0x1_0000_0000_0000_0000;
    if forall|a: nat, b: nat|
        a < b <= n ==> #[trigger] iterate(c, x, a) != #[trigger] iterate(c, x, b) {
        lemma_seen_len(c, x, n);
        lemma_seen_contains(c, x, n);
        lemma_full_u64();
        lemma_len_subset(seen(c, x, n), Set::<u64>::full());
        assert(false);
    }
    let (a, b): (nat, nat) = choose|a: nat, b: nat|
        !(a < b <= n ==> #[trigger] iterate(c, x, a) != #[trigger] iterate(c, x, b));
    let k = (b - a) as nat;
    lemma_iterate_add(c, x, k, a);
    lemma_iterate_in_domain(c, x, k);
    lemma_iterate_injective(c, x, iterate(c, x, k), a);
    assert(1 <= k && iterate(c, x, k) == x);
}

} // verus!
