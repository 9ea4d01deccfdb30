//! The store's laws: general properties of the containment and association
//! operations, proved once and for all states.

use crate::assoc::link_climb_grade_spec;
use crate::errors::HierarchyError;
use crate::forest::{
    lemma_acyclic_insert, lemma_edge_reaches, lemma_pstep_add, lemma_reaches_trans, pstep, reaches,
};
use crate::hierarchy::{
    parent_of_columns, set_area_parent_spec, set_formation_parent_spec,
};
use crate::deletes::{remove_area_spec, remove_climb_spec, remove_formation_spec};
use crate::models::Parent;
use crate::state::{formation_edges, inv, maps_to, StoreModel};
use vstd::prelude::*;

verus! {

/// No self-parent: asking to make an area its own parent fails with
/// `SelfReference` and changes nothing, whatever the state and whatever the
/// id.
pub proof fn law_area_no_self_parent(m: StoreModel, n: u64)
    ensures
        set_area_parent_spec(m, n, n) == (m, Err::<(), HierarchyError>(
            HierarchyError::SelfReference,
        )),
{
}

/// No self-parent: asking to make a formation its own parent fails with
/// `SelfReference` and changes nothing, whatever the state and whatever the
/// id.
pub proof fn law_formation_no_self_parent(m: StoreModel, n: u64)
    ensures
        set_formation_parent_spec(m, n, Parent::Formation(n)) == (m, Err::<(), HierarchyError>(
            HierarchyError::SelfReference,
        )),
{
}

/// No cycles: whenever the proposed parent already has the child on its
/// ancestor chain — in particular after any chain of earlier
/// `set_area_parent` calls built a path from `anc` up to `child` — the
/// reparenting is rejected with `CycleDetected` and changes nothing.
pub proof fn law_area_no_cycles(m: StoreModel, child: u64, anc: u64)
    requires
        m.areas.dom().contains(child),
        m.areas.dom().contains(anc),
        child != anc,
        reaches(m.area_parent, anc, child),
    ensures
        set_area_parent_spec(m, child, anc) == (m, Err::<(), HierarchyError>(
            HierarchyError::CycleDetected,
        )),
{
}

/// No cycles, two-call form: after `set_area_parent(a, b)` succeeds, the
/// reverse call `set_area_parent(b, a)` fails with `CycleDetected` and
/// leaves the state of the first call untouched.
pub proof fn law_area_no_two_cycle(m: StoreModel, a: u64, b: u64)
    requires
        inv(m),
        set_area_parent_spec(m, a, b).1 is Ok,
    ensures
        set_area_parent_spec(set_area_parent_spec(m, a, b).0, b, a) == (
            set_area_parent_spec(m, a, b).0,
            Err::<(), HierarchyError>(HierarchyError::CycleDetected),
        ),
{
    let m1 = set_area_parent_spec(m, a, b).0;
    lemma_edge_reaches(m1.area_parent, a);
    assert(reaches(m1.area_parent, a, b));
}

/// No cycles, chain form: with edges making `b` the parent of `a` and `c`
/// the parent of `b`, asking to hang `c` under `a` is rejected with
/// `CycleDetected` and changes nothing.
pub proof fn law_area_chain_cycle(m: StoreModel, a: u64, b: u64, c: u64)
    requires
        inv(m),
        m.area_parent.dom().contains(a) && m.area_parent[a] == b,
        m.area_parent.dom().contains(b) && m.area_parent[b] == c,
    ensures
        set_area_parent_spec(m, c, a) == (m, Err::<(), HierarchyError>(
            HierarchyError::CycleDetected,
        )),
{
    lemma_edge_reaches(m.area_parent, a);
    lemma_edge_reaches(m.area_parent, b);
    lemma_reaches_trans(m.area_parent, a, b, c);
    if a == c {
        assert(pstep(m.area_parent, a, 0) == Some(a));
        assert(pstep(m.area_parent, a, 1) == Some(b));
        assert(pstep(m.area_parent, a, 2) == Some(a));
    }
}

/// No cycles: the same rejection for formation-to-formation edges.
pub proof fn law_formation_no_cycles(m: StoreModel, child: u64, anc: u64)
    requires
        m.formations.dom().contains(child),
        m.formations.dom().contains(anc),
        child != anc,
        reaches(formation_edges(m.formation_parent), anc, child),
    ensures
        set_formation_parent_spec(m, child, Parent::Formation(anc)) == (m, Err::<
            (),
            HierarchyError,
        >(HierarchyError::CycleDetected)),
{
}

/// Mutual exclusion: the two-nullable-column form of a parent reference is
/// valid exactly when one id, and only one, is supplied.
pub proof fn law_parent_columns_mutual_exclusion(area_id: Option<u64>, other_id: Option<u64>)
    ensures
        (parent_of_columns(area_id, other_id) is None) == ((area_id is Some && other_id is Some)
            || (area_id is None && other_id is None)),
{
}

/// Idempotence of `set_area_parent`: once a call has succeeded, repeating
/// it with the same arguments succeeds and leaves the state exactly as it
/// was — the relation keeps a single row for the child.
pub proof fn law_set_area_parent_idempotent(m: StoreModel, x: u64, y: u64)
    requires
        inv(m),
        set_area_parent_spec(m, x, y).1 is Ok,
    ensures
        set_area_parent_spec(set_area_parent_spec(m, x, y).0, x, y) == (
            set_area_parent_spec(m, x, y).0,
            Ok::<(), HierarchyError>(()),
        ),
{
    let ap = m.area_parent;
    let m1 = set_area_parent_spec(m, x, y).0;
    let ap1 = m1.area_parent;
    lemma_acyclic_insert(ap, x, y);
    if reaches(ap1, y, x) {
        let k = choose|k: nat| pstep(ap1, y, k) == Some(x);
        assert(pstep(ap1, x, 0) == Some(x));
        assert(pstep(ap1, x, 1) == Some(y));
        lemma_pstep_add(ap1, x, y, 1, k);
        assert(pstep(ap1, x, (1 + k) as nat) == Some(x));
    }
    assert(ap1.insert(x, y) =~= ap1);
    assert(set_area_parent_spec(m1, x, y).0 == m1);
}

/// Idempotence of linking: once a climb-to-grade link exists, linking the
/// same pair again succeeds and adds nothing.
pub proof fn law_add_climb_grade_idempotent(m: StoreModel, climb_id: u64, grade_id: u64)
    requires
        link_climb_grade_spec(m, climb_id, grade_id).1 is Ok,
    ensures
        link_climb_grade_spec(link_climb_grade_spec(m, climb_id, grade_id).0, climb_id, grade_id)
            == (link_climb_grade_spec(m, climb_id, grade_id).0, Ok::<(), HierarchyError>(())),
{
    let m1 = link_climb_grade_spec(m, climb_id, grade_id).0;
    assert(m1.climb_grades.insert((climb_id, grade_id)) =~= m1.climb_grades);
    assert(link_climb_grade_spec(m1, climb_id, grade_id).0 == m1);
}

/// Restrict correctness: deleting an area that some area still points at
/// as its parent fails with `RestrictedDelete` and leaves the store
/// unchanged.  The analogous clauses of `remove_area_spec` and
/// `remove_formation_spec` cover references from formations and climbs.
pub proof fn law_remove_area_restricted(m: StoreModel, id: u64, child: u64)
    requires
        m.areas.dom().contains(id),
        m.area_parent.dom().contains(child),
        m.area_parent[child] == id,
    ensures
        remove_area_spec(m, id) == (m, Err::<u64, HierarchyError>(HierarchyError::RestrictedDelete)),
{
    assert(maps_to(m.area_parent, id));
}

/// Restrict correctness for formations referenced as a super-formation.
pub proof fn law_remove_formation_restricted(m: StoreModel, id: u64, child: u64)
    requires
        m.formations.dom().contains(id),
        m.formation_parent.dom().contains(child),
        m.formation_parent[child] == Parent::Formation(id),
    ensures
        remove_formation_spec(m, id) == (m, Err::<u64, HierarchyError>(
            HierarchyError::RestrictedDelete,
        )),
{
    assert(maps_to(m.formation_parent, Parent::Formation(id)));
}

/// Cascade correctness: a successful delete of an area removes its own
/// containment row along with the entity row.
pub proof fn law_remove_area_cascades(m: StoreModel, id: u64)
    requires
        remove_area_spec(m, id).1 is Ok,
    ensures
        !remove_area_spec(m, id).0.areas.dom().contains(id),
        !remove_area_spec(m, id).0.area_parent.dom().contains(id),
{
}

/// Cascade correctness: deleting a climb removes its containment row
/// entirely — along with its descriptions, grade links, variations and
/// ascents.
pub proof fn law_remove_climb_cascades(m: StoreModel, id: u64)
    requires
        remove_climb_spec(m, id).1 is Ok,
    ensures
        !remove_climb_spec(m, id).0.climbs.dom().contains(id),
        !remove_climb_spec(m, id).0.climb_parent.dom().contains(id),
        forall|t: u64| !(#[trigger] remove_climb_spec(m, id).0.climb_descriptions.dom().contains(
            (id, t),
        )),
        forall|g: u64| !(#[trigger] remove_climb_spec(m, id).0.climb_grades.contains((id, g))),
{
}

} // verus!
