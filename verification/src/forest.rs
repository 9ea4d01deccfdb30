//! The mathematical theory of parent-pointer forests.
//!
//! A containment relation is modelled as a partial map from child id to
//! parent id.  A node's ancestor chain is obtained by stepping through the
//! map until a node without a parent is reached; the relation is a forest
//! exactly when no chain returns to its starting node.  This module defines
//! the chain ([`pstep`]), reachability along it ([`reaches`]) and acyclicity
//! ([`acyclic`]), and proves the facts the store needs: chains compose,
//! chains in a finite acyclic map are no longer than the map's domain, and
//! acyclicity survives removing an edge, or adding an edge `x -> y` whenever
//! `x` does not lie on `y`'s ancestor chain.

use vstd::prelude::*;
use vstd::set_lib::lemma_len_subset;

verus! {

/// The node reached from `a` after exactly `k` steps along the parent map
/// `m`, or `None` if the chain leaves the map's domain before the `k`-th
/// step.
pub open spec fn pstep(m: Map<u64, u64>, a: u64, k: nat) -> Option<u64>
    decreases k,
{
    if k == 0 {
        Some(a)
    } else {
        match pstep(m, a, (k - 1) as nat) {
            Some(b) => if m.dom().contains(b) {
                Some(m[b])
            } else {
                None
            },
            None => None,
        }
    }
}

/// `b` lies on the ancestor chain of `a` (which starts with `a` itself).
pub open spec fn reaches(m: Map<u64, u64>, a: u64, b: u64) -> bool {
    exists|k: nat| pstep(m, a, k) == Some(b)
}

/// No ancestor chain returns to its starting node.
pub open spec fn acyclic(m: Map<u64, u64>) -> bool {
    forall|a: u64, k: nat| 1 <= k ==> #[trigger] pstep(m, a, k) != Some(a)
}

/// A map without any edge is acyclic.
pub proof fn lemma_acyclic_empty(m: Map<u64, u64>)
    requires
        m.dom() == Set::<u64>::empty(),
    ensures
        acyclic(m),
{
    assert forall|a: u64, k: nat| 1 <= k implies #[trigger] pstep(m, a, k) != Some(a) by {
        assert(!m.dom().contains(a));
    }
}

/// A child reaches its parent in one step.
pub proof fn lemma_edge_reaches(m: Map<u64, u64>, c: u64)
    requires
        m.dom().contains(c),
    ensures
        reaches(m, c, m[c]),
{
    assert(pstep(m, c, 0) == Some(c));
    assert(pstep(m, c, 1) == Some(m[c]));
}

/// Chains compose: `k1` steps to `b`, then `k2` more, is `k1 + k2` steps.
pub proof fn lemma_pstep_add(m: Map<u64, u64>, a: u64, b: u64, k1: nat, k2: nat)
    requires
        pstep(m, a, k1) == Some(b),
    ensures
        pstep(m, a, (k1 + k2) as nat) == pstep(m, b, k2),
    decreases k2,
{
    if k2 == 0 {
    } else {
        lemma_pstep_add(m, a, b, k1, (k2 - 1) as nat);
        assert((k1 + k2 - 1) as nat == k1 + (k2 - 1) as nat);
    }
}

/// Reachability is transitive.
pub proof fn lemma_reaches_trans(m: Map<u64, u64>, a: u64, b: u64, c: u64)
    requires
        reaches(m, a, b),
        reaches(m, b, c),
    ensures
        reaches(m, a, c),
{
    let k1 = choose|k: nat| pstep(m, a, k) == Some(b);
    let k2 = choose|k: nat| pstep(m, b, k) == Some(c);
    lemma_pstep_add(m, a, b, k1, k2);
    assert(pstep(m, a, (k1 + k2) as nat) == Some(c));
}

/// Once a chain has ended, it stays ended.
pub proof fn lemma_pstep_none_extends(m: Map<u64, u64>, a: u64, k1: nat, k2: nat)
    requires
        pstep(m, a, k1) is None,
        k1 <= k2,
    ensures
        pstep(m, a, k2) is None,
    decreases k2,
{
    if k2 > k1 {
        lemma_pstep_none_extends(m, a, k1, (k2 - 1) as nat);
    }
}

/// A chain that is defined at step `k` is defined at every earlier step.
pub proof fn lemma_pstep_prefix_defined(m: Map<u64, u64>, a: u64, i: nat, k: nat)
    requires
        pstep(m, a, k) is Some,
        i <= k,
    ensures
        pstep(m, a, i) is Some,
        i < k ==> m.dom().contains(pstep(m, a, i)->Some_0),
    decreases k - i,
{
    if pstep(m, a, i) is None {
        lemma_pstep_none_extends(m, a, i, k);
    }
    if i < k {
        if !m.dom().contains(pstep(m, a, i)->Some_0) {
            assert(pstep(m, a, (i + 1) as nat) is None);
            lemma_pstep_none_extends(m, a, (i + 1) as nat, k);
        }
    }
}

/// Two maps that agree on every node other than `x` yield the same chain,
/// as long as the chain never steps onward from `x`.
pub proof fn lemma_pstep_agree(m1: Map<u64, u64>, m2: Map<u64, u64>, x: u64, a: u64, k: nat)
    requires
        forall|c: u64| c != x ==> (m1.dom().contains(c) <==> m2.dom().contains(c)),
        forall|c: u64| c != x && m1.dom().contains(c) ==> m1[c] == #[trigger] m2[c],
        forall|i: nat| i < k ==> #[trigger] pstep(m1, a, i) != Some(x),
    ensures
        pstep(m1, a, k) == pstep(m2, a, k),
    decreases k,
{
    if k > 0 {
        lemma_pstep_agree(m1, m2, x, a, (k - 1) as nat);
    }
}

/// In an acyclic map, the nodes a chain visits are pairwise distinct.
pub proof fn lemma_chain_distinct(m: Map<u64, u64>, a: u64, i: nat, j: nat)
    requires
        acyclic(m),
        i < j,
        pstep(m, a, i) is Some,
        pstep(m, a, j) is Some,
    ensures
        pstep(m, a, i) != pstep(m, a, j),
{
    if pstep(m, a, i) == pstep(m, a, j) {
        let b = pstep(m, a, i)->Some_0;
        lemma_pstep_add(m, a, b, i, (j - i) as nat);
        assert(pstep(m, b, (j - i) as nat) == Some(b));
    }
}

/// The set of nodes visited by the first `k` steps of the chain from `a`.
spec fn chain_nodes(m: Map<u64, u64>, a: u64, k: nat) -> Set<u64> {
    Set::new(|c: u64| exists|i: nat| i < k && pstep(m, a, i) == Some(c))
}

proof fn lemma_chain_nodes_card(m: Map<u64, u64>, a: u64, k: nat)
    requires
        acyclic(m),
        pstep(m, a, k) is Some,
    ensures
        chain_nodes(m, a, k).finite(),
        chain_nodes(m, a, k).len() == k,
        k > 0 ==> chain_nodes(m, a, k).subset_of(m.dom()),
    decreases k,
{
    if k == 0 {
        assert(chain_nodes(m, a, 0) =~= Set::<u64>::empty());
    } else {
        lemma_pstep_prefix_defined(m, a, (k - 1) as nat, k);
        let last = pstep(m, a, (k - 1) as nat)->Some_0;
        lemma_chain_nodes_card(m, a, (k - 1) as nat);
        assert forall|c: u64| chain_nodes(m, a, k).contains(c) && c != last implies chain_nodes(
            m,
            a,
            (k - 1) as nat,
        ).contains(c) by {
            let i = choose|i: nat| i < k && pstep(m, a, i) == Some(c);
            assert(i < k - 1 || i == k - 1);
        }
        assert(chain_nodes(m, a, k) =~= chain_nodes(m, a, (k - 1) as nat).insert(last));
        if chain_nodes(m, a, (k - 1) as nat).contains(last) {
            let i = choose|i: nat| i < (k - 1) as nat && pstep(m, a, i) == Some(last);
            lemma_pstep_prefix_defined(m, a, i, k);
            lemma_chain_distinct(m, a, i, (k - 1) as nat);
        }
        assert forall|c: u64| chain_nodes(m, a, k).contains(c) implies m.dom().contains(c) by {
            let i = choose|i: nat| i < k && pstep(m, a, i) == Some(c);
            lemma_pstep_prefix_defined(m, a, i, k);
        }
    }
}

/// Pigeonhole: in a finite acyclic map, a chain that is still defined after
/// `k` steps has visited `k` distinct nodes of the domain, so `k` is at most
/// the domain's size.
pub proof fn lemma_chain_bounded(m: Map<u64, u64>, a: u64, k: nat)
    requires
        acyclic(m),
        m.dom().finite(),
        pstep(m, a, k) is Some,
    ensures
        k <= m.dom().len(),
{
    lemma_chain_nodes_card(m, a, k);
    if k > 0 {
        lemma_len_subset(chain_nodes(m, a, k), m.dom());
    }
}

/// A chain of `m.insert(x, y)` that arrives at `x` shows that `x` was
/// already reachable from the chain's start in `m`.
proof fn lemma_chain_to_x(m: Map<u64, u64>, x: u64, y: u64, a: u64, n: nat)
    requires
        pstep(m.insert(x, y), a, n) == Some(x),
    ensures
        reaches(m, a, x),
    decreases n,
{
    let m2 = m.insert(x, y);
    if exists|i: nat| i < n && pstep(m2, a, i) == Some(x) {
        let i = choose|i: nat| i < n && pstep(m2, a, i) == Some(x);
        lemma_chain_to_x(m, x, y, a, i);
    } else {
        lemma_pstep_agree(m2, m, x, a, n);
        assert(pstep(m, a, n) == Some(x));
    }
}

/// Adding the edge `x -> y` keeps the forest acyclic, provided `x` does not
/// lie on the ancestor chain of `y` — exactly what the store's pre-write
/// cycle check establishes.
pub proof fn lemma_acyclic_insert(m: Map<u64, u64>, x: u64, y: u64)
    requires
        acyclic(m),
        !reaches(m, y, x),
    ensures
        acyclic(m.insert(x, y)),
{
    let m2 = m.insert(x, y);
    assert(pstep(m, y, 0) == Some(y));
    assert(x != y);
    assert forall|a: u64, k: nat| 1 <= k implies #[trigger] pstep(m2, a, k) != Some(a) by {
        if pstep(m2, a, k) == Some(a) {
            if exists|i: nat| i < k && #[trigger] pstep(m2, a, i) == Some(x) {
                // The cycle passes through x; rotate it to start at x, step
                // across the new edge to y, and find x on y's chain in m.
                let i = choose|i: nat| i < k && #[trigger] pstep(m2, a, i) == Some(x);
                lemma_pstep_add(m2, a, x, i, (k - i) as nat);
                lemma_pstep_add(m2, x, a, (k - i) as nat, i);
                assert(pstep(m2, x, k) == Some(x));
                assert(pstep(m2, x, 0) == Some(x));
                assert(pstep(m2, x, 1) == Some(y));
                lemma_pstep_add(m2, x, y, 1, (k - 1) as nat);
                lemma_chain_to_x(m, x, y, y, (k - 1) as nat);
            } else {
                lemma_pstep_agree(m2, m, x, a, k);
                assert(pstep(m, a, k) == Some(a));
            }
        }
    }
}

/// Removing a node's parent edge keeps the forest acyclic.
pub proof fn lemma_acyclic_remove(m: Map<u64, u64>, x: u64)
    requires
        acyclic(m),
    ensures
        acyclic(m.remove(x)),
{
    let m0 = m.remove(x);
    assert forall|a: u64, k: nat| 1 <= k implies #[trigger] pstep(m0, a, k) != Some(a) by {
        if pstep(m0, a, k) == Some(a) {
            assert forall|i: nat| i < k implies #[trigger] pstep(m0, a, i) != Some(x) by {
                if pstep(m0, a, i) == Some(x) {
                    assert(pstep(m0, a, (i + 1) as nat) is None);
                    lemma_pstep_none_extends(m0, a, (i + 1) as nat, k);
                }
            }
            lemma_pstep_agree(m0, m, x, a, k);
            assert(pstep(m, a, k) == Some(a));
        }
    }
}

} // verus!
