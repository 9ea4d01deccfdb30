//! The hierarchy store: the three containment relations and their
//! invariant-preserving mutations.
//!
//! Every "set parent" operation validates before it writes — self-reference,
//! existence of both ends, and (where the relation can nest) a cycle check
//! that walks the proposed parent's ancestor chain.  The operations' effects
//! are given as spec-level transition functions, so the exact outcome of
//! every call, error or success, is pinned down by one definition that both
//! the implementation and the laws refer to.

use crate::db::Database;
use crate::errors::HierarchyError;
use crate::forest::{
    acyclic, lemma_acyclic_insert, lemma_acyclic_remove, lemma_chain_bounded,
    lemma_pstep_none_extends, pstep, reaches,
};
use crate::models::{AreaBelongsTo, ClimbBelongsTo, FormationBelongsTo, Parent};
use crate::state::{
    area_parent_view, climb_parent_view, formation_edges, formation_parent_view, parent_exists,
    StoreModel,
};
use vstd::prelude::*;

verus! {

/// The outcome of `set_area_parent`: the successor state and the result.
pub open spec fn set_area_parent_spec(m: StoreModel, area_id: u64, super_area_id: u64) -> (
    StoreModel,
    Result<(), HierarchyError>,
) {
    if area_id == super_area_id {
        (m, Err(HierarchyError::SelfReference))
    } else if !m.areas.dom().contains(super_area_id) {
        (m, Err(HierarchyError::ParentNotFound))
    } else if !m.areas.dom().contains(area_id) {
        (m, Err(HierarchyError::ForeignKeyViolation))
    } else if reaches(m.area_parent, super_area_id, area_id) {
        (m, Err(HierarchyError::CycleDetected))
    } else {
        (
            StoreModel { area_parent: m.area_parent.insert(area_id, super_area_id), ..m },
            Ok(()),
        )
    }
}

/// The outcome of `set_formation_parent`.
pub open spec fn set_formation_parent_spec(m: StoreModel, formation_id: u64, parent: Parent) -> (
    StoreModel,
    Result<(), HierarchyError>,
) {
    if parent == Parent::Formation(formation_id) {
        (m, Err(HierarchyError::SelfReference))
    } else if !parent_exists(m, parent) {
        (m, Err(HierarchyError::ParentNotFound))
    } else if !m.formations.dom().contains(formation_id) {
        (m, Err(HierarchyError::ForeignKeyViolation))
    } else if parent is Formation && reaches(
        formation_edges(m.formation_parent),
        parent->Formation_0,
        formation_id,
    ) {
        (m, Err(HierarchyError::CycleDetected))
    } else {
        (
            StoreModel { formation_parent: m.formation_parent.insert(formation_id, parent), ..m },
            Ok(()),
        )
    }
}

/// The outcome of `set_climb_parent`.  Climbs are always leaves, so no cycle
/// check is needed.
pub open spec fn set_climb_parent_spec(m: StoreModel, climb_id: u64, parent: Parent) -> (
    StoreModel,
    Result<(), HierarchyError>,
) {
    if !parent_exists(m, parent) {
        (m, Err(HierarchyError::ParentNotFound))
    } else if !m.climbs.dom().contains(climb_id) {
        (m, Err(HierarchyError::ForeignKeyViolation))
    } else {
        (
            StoreModel { climb_parent: m.climb_parent.insert(climb_id, parent), ..m },
            Ok(()),
        )
    }
}

/// Turns the two-nullable-column form of a parent reference into the tagged
/// form: exactly one of the two ids must be given.
pub open spec fn parent_of_columns(area_id: Option<u64>, other_id: Option<u64>) -> Option<Parent> {
    match (area_id, other_id) {
        (Some(a), None) => Some(Parent::Area(a)),
        (None, Some(f)) => Some(Parent::Formation(f)),
        _ => None,
    }
}

impl Database {
    /// Walks the ancestor chain of `start` in the area containment relation
    /// and reports whether `target` lies on it.
    fn area_chain_contains(&self, start: u64, target: u64) -> (r: bool)
        requires
            self.wf(),
        ensures
            r == reaches(self@.area_parent, start, target),
    {
        let ghost m = self@.area_parent;
        proof {
            self.area_belongs_to.lemma_view();
            assert(m.dom() =~= self.area_belongs_to@.dom());
        }
        let mut cur: u64 = start;
        let ghost mut n: nat = 0nat;
        loop
            invariant
                self.wf(),
                m == self@.area_parent,
                m.dom().finite(),
                pstep(m, start, n) == Some(cur),
                forall|i: nat| i < n ==> #[trigger] pstep(m, start, i) != Some(target),
                n <= m.dom().len(),
            decreases m.dom().len() - n,
        {
            if cur == target {
                proof {
                    assert(pstep(m, start, n) == Some(target));
                }
                return true;
            }
            match self.area_belongs_to.get(&cur) {
                Some(row) => {
                    let next = row.super_area_id;
                    proof {
                        assert(m.dom().contains(cur));
                        assert(m[cur] == next);
                        assert(pstep(m, start, n + 1) == Some(next));
                        lemma_chain_bounded(m, start, n + 1);
                        n = n + 1;
                    }
                    cur = next;
                },
                None => {
                    proof {
                        assert(!m.dom().contains(cur));
                        assert(pstep(m, start, n + 1) is None);
                        assert forall|k: nat| pstep(m, start, k) != Some(target) by {
                            if k < n {
                            } else if k == n {
                            } else {
                                lemma_pstep_none_extends(m, start, n + 1, k);
                            }
                        }
                    }
                    return false;
                },
            }
        }
    }

    /// Walks the formation-to-formation ancestor chain of `start` and
    /// reports whether `target` lies on it.  A chain that crosses into an
    /// area cannot come back to a formation, so only formation edges are
    /// followed.
    fn formation_chain_contains(&self, start: u64, target: u64) -> (r: bool)
        requires
            self.wf(),
        ensures
            r == reaches(formation_edges(self@.formation_parent), start, target),
    {
        let ghost m = formation_edges(self@.formation_parent);
        proof {
            self.formation_belongs_to.lemma_view();
            assert(m.dom().subset_of(self.formation_belongs_to@.dom()));
            vstd::set_lib::lemma_len_subset(m.dom(), self.formation_belongs_to@.dom());
        }
        let mut cur: u64 = start;
        let ghost mut n: nat = 0nat;
        loop
            invariant
                self.wf(),
                m == formation_edges(self@.formation_parent),
                m.dom().finite(),
                pstep(m, start, n) == Some(cur),
                forall|i: nat| i < n ==> #[trigger] pstep(m, start, i) != Some(target),
                n <= m.dom().len(),
            decreases m.dom().len() - n,
        {
            if cur == target {
                proof {
                    assert(pstep(m, start, n) == Some(target));
                }
                return true;
            }
            let step: Option<u64> = match self.formation_belongs_to.get(&cur) {
                Some(row) => match row.parent {
                    Parent::Formation(f) => Some(f),
                    Parent::Area(_) => None,
                },
                None => None,
            };
            match step {
                Some(next) => {
                    proof {
                        assert(m.dom().contains(cur));
                        assert(m[cur] == next);
                        assert(pstep(m, start, n + 1) == Some(next));
                        lemma_chain_bounded(m, start, n + 1);
                        n = n + 1;
                    }
                    cur = next;
                },
                None => {
                    proof {
                        assert(!m.dom().contains(cur));
                        assert(pstep(m, start, n + 1) is None);
                        assert forall|k: nat| pstep(m, start, k) != Some(target) by {
                            if k < n {
                            } else if k == n {
                            } else {
                                lemma_pstep_none_extends(m, start, n + 1, k);
                            }
                        }
                    }
                    return false;
                },
            }
        }
    }

    /// Sets (or replaces) an area's parent area, after checking
    /// self-reference, existence of both areas and acyclicity.  Idempotent:
    /// the relation keeps one row per area.
    pub fn set_area_parent(&mut self, area_id: u64, super_area_id: u64) -> (r: Result<
        (),
        HierarchyError,
    >)
        requires
            old(self).wf(),
        ensures
            final (self).wf(),
            (final (self)@, r) == set_area_parent_spec(old(self)@, area_id, super_area_id),
    {
        if area_id == super_area_id {
            return Err(HierarchyError::SelfReference);
        }
        if !self.areas.contains_key(&super_area_id) {
            return Err(HierarchyError::ParentNotFound);
        }
        if !self.areas.contains_key(&area_id) {
            return Err(HierarchyError::ForeignKeyViolation);
        }
        if self.area_chain_contains(super_area_id, area_id) {
            return Err(HierarchyError::CycleDetected);
        }
        let ghost m0 = self@;
        self.area_belongs_to.put(AreaBelongsTo { area_id, super_area_id });
        proof {
            assert(self@.area_parent =~= m0.area_parent.insert(area_id, super_area_id));
            assert(self@ == StoreModel {
                area_parent: m0.area_parent.insert(area_id, super_area_id),
                ..m0
            });
            lemma_acyclic_insert(m0.area_parent, area_id, super_area_id);
        }
        Ok(())
    }

    /// Deletes an area's parent edge; doing nothing when there is none.
    pub fn clear_area_parent(&mut self, area_id: u64)
        requires
            old(self).wf(),
        ensures
            final (self).wf(),
            final (self)@ == (StoreModel {
                area_parent: old(self)@.area_parent.remove(area_id),
                ..old(self)@
            }),
    {
        let ghost m0 = self@;
        self.area_belongs_to.delete(&area_id);
        proof {
            assert(self@.area_parent =~= m0.area_parent.remove(area_id));
            lemma_acyclic_remove(m0.area_parent, area_id);
        }
    }

    /// Sets (or replaces) a formation's parent — an area or another
    /// formation.  Choosing one kind clears the other in the same write, so
    /// a row never carries both.
    pub fn set_formation_parent(&mut self, formation_id: u64, parent: Parent) -> (r: Result<
        (),
        HierarchyError,
    >)
        requires
            old(self).wf(),
        ensures
            final (self).wf(),
            (final (self)@, r) == set_formation_parent_spec(old(self)@, formation_id, parent),
    {
        match parent {
            Parent::Formation(f) if f == formation_id => {
                return Err(HierarchyError::SelfReference);
            },
            _ => {},
        }
        let parent_found = match parent {
            Parent::Area(a) => self.areas.contains_key(&a),
            Parent::Formation(f) => self.formations.contains_key(&f),
        };
        if !parent_found {
            return Err(HierarchyError::ParentNotFound);
        }
        if !self.formations.contains_key(&formation_id) {
            return Err(HierarchyError::ForeignKeyViolation);
        }
        if let Parent::Formation(f) = parent {
            if self.formation_chain_contains(f, formation_id) {
                return Err(HierarchyError::CycleDetected);
            }
        }
        let ghost m0 = self@;
        self.formation_belongs_to.put(FormationBelongsTo { formation_id, parent });
        proof {
            assert(self@.formation_parent =~= m0.formation_parent.insert(formation_id, parent));
            assert(self@ == StoreModel {
                formation_parent: m0.formation_parent.insert(formation_id, parent),
                ..m0
            });
            let e0 = formation_edges(m0.formation_parent);
            match parent {
                Parent::Area(_) => {
                    assert(formation_edges(self@.formation_parent) =~= e0.remove(formation_id));
                    lemma_acyclic_remove(e0, formation_id);
                },
                Parent::Formation(f) => {
                    assert(formation_edges(self@.formation_parent) =~= e0.insert(
                        formation_id,
                        f,
                    ));
                    lemma_acyclic_insert(e0, formation_id, f);
                },
            }
        }
        Ok(())
    }

    /// Deletes a formation's parent edge; doing nothing when there is none.
    pub fn clear_formation_parent(&mut self, formation_id: u64)
        requires
            old(self).wf(),
        ensures
            final (self).wf(),
            final (self)@ == (StoreModel {
                formation_parent: old(self)@.formation_parent.remove(formation_id),
                ..old(self)@
            }),
    {
        let ghost m0 = self@;
        self.formation_belongs_to.delete(&formation_id);
        proof {
            assert(self@.formation_parent =~= m0.formation_parent.remove(formation_id));
            let e0 = formation_edges(m0.formation_parent);
            assert(formation_edges(self@.formation_parent) =~= e0.remove(formation_id));
            lemma_acyclic_remove(e0, formation_id);
        }
    }

    /// Sets (or replaces) a climb's parent — an area or a formation.
    pub fn set_climb_parent(&mut self, climb_id: u64, parent: Parent) -> (r: Result<
        (),
        HierarchyError,
    >)
        requires
            old(self).wf(),
        ensures
            final (self).wf(),
            (final (self)@, r) == set_climb_parent_spec(old(self)@, climb_id, parent),
    {
        let parent_found = match parent {
            Parent::Area(a) => self.areas.contains_key(&a),
            Parent::Formation(f) => self.formations.contains_key(&f),
        };
        if !parent_found {
            return Err(HierarchyError::ParentNotFound);
        }
        if !self.climbs.contains_key(&climb_id) {
            return Err(HierarchyError::ForeignKeyViolation);
        }
        let ghost m0 = self@;
        self.climb_belongs_to.put(ClimbBelongsTo { climb_id, parent });
        proof {
            assert(self@.climb_parent =~= m0.climb_parent.insert(climb_id, parent));
            assert(self@ == StoreModel {
                climb_parent: m0.climb_parent.insert(climb_id, parent),
                ..m0
            });
        }
        Ok(())
    }

    /// Deletes a climb's parent edge; doing nothing when there is none.
    pub fn clear_climb_parent(&mut self, climb_id: u64)
        requires
            old(self).wf(),
        ensures
            final (self).wf(),
            final (self)@ == (StoreModel {
                climb_parent: old(self)@.climb_parent.remove(climb_id),
                ..old(self)@
            }),
    {
        let ghost m0 = self@;
        self.climb_belongs_to.delete(&climb_id);
        proof {
            assert(self@.climb_parent =~= m0.climb_parent.remove(climb_id));
        }
    }

    /// Sets an area's parent area; the column-level name of
    /// [`Database::set_area_parent`].
    pub fn set_area_super_area_id(&mut self, id: u64, super_area_id: u64) -> (r: Result<
        (),
        HierarchyError,
    >)
        requires
            old(self).wf(),
        ensures
            final (self).wf(),
            (final (self)@, r) == set_area_parent_spec(old(self)@, id, super_area_id),
    {
        self.set_area_parent(id, super_area_id)
    }

    /// Parents a formation to an area, clearing any formation parent in the
    /// same write.
    pub fn set_formation_area_id(&mut self, id: u64, area_id: u64) -> (r: Result<
        (),
        HierarchyError,
    >)
        requires
            old(self).wf(),
        ensures
            final (self).wf(),
            (final (self)@, r) == set_formation_parent_spec(old(self)@, id, Parent::Area(area_id)),
    {
        self.set_formation_parent(id, Parent::Area(area_id))
    }

    /// Parents a formation to another formation, clearing any area parent in
    /// the same write.
    pub fn set_formation_super_formation_id(&mut self, id: u64, super_formation_id: u64) -> (r:
        Result<(), HierarchyError>)
        requires
            old(self).wf(),
        ensures
            final (self).wf(),
            (final (self)@, r) == set_formation_parent_spec(
                old(self)@,
                id,
                Parent::Formation(super_formation_id),
            ),
    {
        self.set_formation_parent(id, Parent::Formation(super_formation_id))
    }

    /// Parents a climb to an area, clearing any formation parent in the same
    /// write.
    pub fn set_climb_area_id(&mut self, id: u64, area_id: u64) -> (r: Result<(), HierarchyError>)
        requires
            old(self).wf(),
        ensures
            final (self).wf(),
            (final (self)@, r) == set_climb_parent_spec(old(self)@, id, Parent::Area(area_id)),
    {
        self.set_climb_parent(id, Parent::Area(area_id))
    }

    /// Parents a climb to a formation, clearing any area parent in the same
    /// write.
    pub fn set_climb_formation_id(&mut self, id: u64, formation_id: u64) -> (r: Result<
        (),
        HierarchyError,
    >)
        requires
            old(self).wf(),
        ensures
            final (self).wf(),
            (final (self)@, r) == set_climb_parent_spec(
                old(self)@,
                id,
                Parent::Formation(formation_id),
            ),
    {
        self.set_climb_parent(id, Parent::Formation(formation_id))
    }

    /// The two-nullable-column form of `set_formation_parent`: exactly one
    /// of the ids must be supplied, as the storage row's check constraint
    /// demands; both, or neither, is rejected before anything is written.
    pub fn set_formation_belongs_to(
        &mut self,
        formation_id: u64,
        area_id: Option<u64>,
        super_formation_id: Option<u64>,
    ) -> (r: Result<(), HierarchyError>)
        requires
            old(self).wf(),
        ensures
            final (self).wf(),
            match parent_of_columns(area_id, super_formation_id) {
                Some(p) => (final (self)@, r) == set_formation_parent_spec(
                    old(self)@,
                    formation_id,
                    p,
                ),
                None => final (self)@ == old(self)@ && r == Err::<(), HierarchyError>(
                    HierarchyError::MutualExclusionViolation,
                ),
            },
    {
        match (area_id, super_formation_id) {
            (Some(a), None) => self.set_formation_parent(formation_id, Parent::Area(a)),
            (None, Some(f)) => self.set_formation_parent(formation_id, Parent::Formation(f)),
            _ => Err(HierarchyError::MutualExclusionViolation),
        }
    }

    /// The two-nullable-column form of `set_climb_parent`: exactly one of
    /// the ids must be supplied; both, or neither, is rejected before
    /// anything is written.
    pub fn set_climb_belongs_to(
        &mut self,
        climb_id: u64,
        area_id: Option<u64>,
        formation_id: Option<u64>,
    ) -> (r: Result<(), HierarchyError>)
        requires
            old(self).wf(),
        ensures
            final (self).wf(),
            match parent_of_columns(area_id, formation_id) {
                Some(p) => (final (self)@, r) == set_climb_parent_spec(old(self)@, climb_id, p),
                None => final (self)@ == old(self)@ && r == Err::<(), HierarchyError>(
                    HierarchyError::MutualExclusionViolation,
                ),
            },
    {
        match (area_id, formation_id) {
            (Some(a), None) => self.set_climb_parent(climb_id, Parent::Area(a)),
            (None, Some(f)) => self.set_climb_parent(climb_id, Parent::Formation(f)),
            _ => Err(HierarchyError::MutualExclusionViolation),
        }
    }
}

} // verus!
