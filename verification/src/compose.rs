//! Transactional creation: an entity together with its names, leaf data and
//! parent, all-or-nothing.
//!
//! Each operation validates and applies its steps in order; if any step is
//! refused, every row written so far is taken back and the store is left as
//! it was — except that the id drawn for the new entity stays consumed, as
//! database sequences behave.

use crate::db::Database;
use crate::descriptions::{kvs_view, set_climb_descriptions_spec};
use crate::errors::HierarchyError;
use crate::forest::{lemma_pstep_prefix_defined, pstep, reaches};
use crate::assoc::set_climb_grades_spec;
use crate::models::{Coordinate, KVPair, Parent};
use crate::names::as_name_array;
use crate::state::{formation_edges, hierarchy_inv, ids_inv, FormationInfo, StoreModel};
use vstd::prelude::*;

verus! {

/// The abstract value of an optional list of names.
pub open spec fn opt_names_view(names: Option<Vec<String>>) -> Seq<Seq<char>> {
    match names {
        Some(v) => v.deep_view(),
        None => Seq::<Seq<char>>::empty(),
    }
}

/// A node that does not exist yet cannot lie on anyone's ancestor chain in
/// the area relation.
proof fn lemma_fresh_area_unreachable(m: StoreModel, p: u64, id: u64)
    requires
        hierarchy_inv(m),
        ids_inv(m),
        m.areas.dom().contains(p),
        !m.areas.dom().contains(id),
    ensures
        !reaches(m.area_parent, p, id),
{
    if reaches(m.area_parent, p, id) {
        let k = choose|k: nat| pstep(m.area_parent, p, k) == Some(id);
        if k == 0 {
            assert(p == id);
        } else {
            lemma_pstep_prefix_defined(m.area_parent, p, (k - 1) as nat, k);
            let x = pstep(m.area_parent, p, (k - 1) as nat)->Some_0;
            assert(m.area_parent.dom().contains(x));
            assert(m.area_parent[x] == id);
            assert(m.areas.dom().contains(id));
        }
    }
}

/// A formation that does not exist yet cannot lie on anyone's ancestor
/// chain in the formation relation.
proof fn lemma_fresh_formation_unreachable(m: StoreModel, p: u64, id: u64)
    requires
        hierarchy_inv(m),
        ids_inv(m),
        m.formations.dom().contains(p),
        !m.formations.dom().contains(id),
    ensures
        !reaches(formation_edges(m.formation_parent), p, id),
{
    let fe = formation_edges(m.formation_parent);
    if reaches(fe, p, id) {
        let k = choose|k: nat| pstep(fe, p, k) == Some(id);
        if k == 0 {
            assert(p == id);
        } else {
            lemma_pstep_prefix_defined(fe, p, (k - 1) as nat, k);
            let x = pstep(fe, p, (k - 1) as nat)->Some_0;
            assert(fe.dom().contains(x));
            assert(fe[x] == id);
            assert(m.formation_parent[x] == Parent::Formation(id));
            assert(crate::state::parent_exists(m, Parent::Formation(id)));
            assert(m.formations.dom().contains(id));
        }
    }
}

/// The outcome of `add_area`: a fresh area with the given names, parented
/// to `super_area_id` when one is given.  An unknown parent refuses the
/// whole creation; only the drawn id stays consumed.
pub open spec fn add_area_spec(m: StoreModel, names: Seq<Seq<char>>, super_area_id: Option<u64>) -> (
    StoreModel,
    Result<u64, HierarchyError>,
) {
    let id = m.next_area_id;
    let m1 = StoreModel {
        areas: m.areas.insert(id, as_name_array(names)),
        next_area_id: (id + 1) as u64,
        ..m
    };
    match super_area_id {
        None => (m1, Ok(id)),
        Some(p) => if m.areas.dom().contains(p) {
            (
                StoreModel { area_parent: m1.area_parent.insert(id, p), ..m1 },
                Ok(id),
            )
        } else {
            (
                StoreModel { next_area_id: (id + 1) as u64, ..m },
                Err(HierarchyError::ParentNotFound),
            )
        },
    }
}

/// The outcome of `add_formation`.  When both parent kinds are given, the
/// formation parent wins, as the steps are applied in order and each write
/// replaces the row.
pub open spec fn add_formation_spec(
    m: StoreModel,
    names: Seq<Seq<char>>,
    area_id: Option<u64>,
    super_formation_id: Option<u64>,
    location: Option<Coordinate>,
) -> (StoreModel, Result<u64, HierarchyError>) {
    let id = m.next_formation_id;
    let burned = StoreModel { next_formation_id: (id + 1) as u64, ..m };
    let m1 = StoreModel {
        formations: m.formations.insert(
            id,
            FormationInfo { names: as_name_array(names), location },
        ),
        next_formation_id: (id + 1) as u64,
        ..m
    };
    if area_id is Some && !m.areas.dom().contains(area_id->0) {
        (burned, Err(HierarchyError::ParentNotFound))
    } else if super_formation_id is Some && !m.formations.dom().contains(super_formation_id->0) {
        (burned, Err(HierarchyError::ParentNotFound))
    } else {
        match (area_id, super_formation_id) {
            (_, Some(sf)) => (
                StoreModel {
                    formation_parent: m1.formation_parent.insert(id, Parent::Formation(sf)),
                    ..m1
                },
                Ok(id),
            ),
            (Some(a), None) => (
                StoreModel {
                    formation_parent: m1.formation_parent.insert(id, Parent::Area(a)),
                    ..m1
                },
                Ok(id),
            ),
            (None, None) => (m1, Ok(id)),
        }
    }
}

/// The outcome of `add_climb`: a fresh climb with names, descriptions,
/// grade links and a parent, all-or-nothing; the first refused step wins.
/// When both parent kinds are given, the formation parent wins.
pub open spec fn add_climb_spec(
    m: StoreModel,
    names: Seq<Seq<char>>,
    descriptions: Option<Vec<KVPair>>,
    grade_ids: Option<Vec<u64>>,
    area_id: Option<u64>,
    formation_id: Option<u64>,
) -> (StoreModel, Result<u64, HierarchyError>) {
    let id = m.next_climb_id;
    let burned = StoreModel { next_climb_id: (id + 1) as u64, ..m };
    let m1 = StoreModel {
        climbs: m.climbs.insert(id, as_name_array(names)),
        next_climb_id: (id + 1) as u64,
        ..m
    };
    let dstep = match descriptions {
        Some(ds) => set_climb_descriptions_spec(m1, id, kvs_view(ds@)),
        None => (m1, Ok(())),
    };
    if dstep.1 is Err {
        (burned, Err(dstep.1->Err_0))
    } else {
        let gstep = match grade_ids {
            Some(gs) => set_climb_grades_spec(dstep.0, id, gs@),
            None => (dstep.0, Ok(())),
        };
        if gstep.1 is Err {
            (burned, Err(gstep.1->Err_0))
        } else if area_id is Some && !m.areas.dom().contains(area_id->0) {
            (burned, Err(HierarchyError::ParentNotFound))
        } else if formation_id is Some && !m.formations.dom().contains(formation_id->0) {
            (burned, Err(HierarchyError::ParentNotFound))
        } else {
            let m3 = gstep.0;
            match (area_id, formation_id) {
                (_, Some(f)) => (
                    StoreModel { climb_parent: m3.climb_parent.insert(id, Parent::Formation(f)), ..m3 },
                    Ok(id),
                ),
                (Some(a), None) => (
                    StoreModel { climb_parent: m3.climb_parent.insert(id, Parent::Area(a)), ..m3 },
                    Ok(id),
                ),
                (None, None) => (m3, Ok(id)),
            }
        }
    }
}

impl Database {
    /// Creates an area, optionally with names and a parent area, as one
    /// transaction.
    pub fn add_area(&mut self, names: Option<Vec<String>>, super_area_id: Option<u64>) -> (r:
        Result<u64, HierarchyError>)
        requires
            old(self).wf(),
            old(self)@.next_area_id < u64::MAX,
        ensures
            final (self).wf(),
            (final (self)@, r) == add_area_spec(old(self)@, opt_names_view(names), super_area_id),
    {
        let ghost m0 = self@;
        let wrapped: Vec<Option<String>> = match names {
            Some(v) => crate::names::wrap_names(v),
            None => Vec::new(),
        };
        proof {
            assert(wrapped.deep_view() =~= as_name_array(opt_names_view(names)));
        }
        let id = self.create_area(wrapped);
        let ghost mcreated = self@;
        match super_area_id {
            None => Ok(id),
            Some(p) => {
                if !self.areas.contains_key(&p) || p == id {
                    // the freshly created row is not a valid parent of itself
                    proof {
                        assert(!m0.areas.dom().contains(id));
                        if p != id {
                            assert(!mcreated.areas.dom().contains(p));
                            assert(!m0.areas.dom().contains(p));
                        } else {
                            assert(!m0.areas.dom().contains(p));
                        }
                    }
                    self.areas.delete(&id);
                    proof {
                        assert(self@.areas =~= mcreated.areas.remove(id));
                        assert(mcreated.areas.remove(id) =~= m0.areas);
                        assert(self@ == (StoreModel {
                            next_area_id: (id + 1) as u64,
                            ..m0
                        }));
                    }
                    return Err(HierarchyError::ParentNotFound);
                }
                proof {
                    assert(mcreated.areas.dom().contains(p));
                    assert(p != id);
                    assert(m0.areas.dom().contains(p));
                    assert(!m0.areas.dom().contains(id));
                    lemma_fresh_area_unreachable(m0, p, id);
                    assert(mcreated.area_parent == m0.area_parent);
                }
                let res = self.set_area_parent(id, p);
                proof {
                    assert(res is Ok);
                }
                Ok(id)
            },
        }
    }

    /// Creates a formation, optionally with names, a location and a parent,
    /// as one transaction.
    pub fn add_formation(
        &mut self,
        names: Option<Vec<String>>,
        area_id: Option<u64>,
        super_formation_id: Option<u64>,
        location: Option<Coordinate>,
    ) -> (r: Result<u64, HierarchyError>)
        requires
            old(self).wf(),
            old(self)@.next_formation_id < u64::MAX,
        ensures
            final (self).wf(),
            (final (self)@, r) == add_formation_spec(
                old(self)@,
                opt_names_view(names),
                area_id,
                super_formation_id,
                location,
            ),
    {
        let ghost m0 = self@;
        if let Some(a) = area_id {
            if !self.areas.contains_key(&a) {
                self.next_formation_id = self.next_formation_id + 1;
                proof {
                    assert(self@ == (StoreModel {
                        next_formation_id: (m0.next_formation_id + 1) as u64,
                        ..m0
                    }));
                }
                return Err(HierarchyError::ParentNotFound);
            }
        }
        if let Some(sf) = super_formation_id {
            if !self.formations.contains_key(&sf) {
                self.next_formation_id = self.next_formation_id + 1;
                proof {
                    assert(self@ == (StoreModel {
                        next_formation_id: (m0.next_formation_id + 1) as u64,
                        ..m0
                    }));
                }
                return Err(HierarchyError::ParentNotFound);
            }
        }
        let wrapped: Vec<Option<String>> = match names {
            Some(v) => crate::names::wrap_names(v),
            None => Vec::new(),
        };
        proof {
            assert(wrapped.deep_view() =~= as_name_array(opt_names_view(names)));
        }
        let id = self.create_formation(wrapped, location);
        let ghost mcreated = self@;
        let parent: Option<Parent> = match (area_id, super_formation_id) {
            (_, Some(sf)) => Some(Parent::Formation(sf)),
            (Some(a), None) => Some(Parent::Area(a)),
            (None, None) => None,
        };
        match parent {
            None => Ok(id),
            Some(p) => {
                proof {
                    assert(!m0.formations.dom().contains(id));
                    if p is Formation {
                        assert(m0.formations.dom().contains(p->Formation_0));
                        lemma_fresh_formation_unreachable(m0, p->Formation_0, id);
                        assert(formation_edges(mcreated.formation_parent) == formation_edges(
                            m0.formation_parent,
                        ));
                        assert(p->Formation_0 != id);
                    }
                }
                let res = self.set_formation_parent(id, p);
                proof {
                    assert(res is Ok);
                }
                Ok(id)
            },
        }
    }

    /// Creates a climb, optionally with names, descriptions, grade links
    /// and a parent, as one transaction: if any step is refused, no row of
    /// the creation survives.
    pub fn add_climb(
        &mut self,
        names: Option<Vec<String>>,
        descriptions: Option<Vec<KVPair>>,
        grade_ids: Option<Vec<u64>>,
        area_id: Option<u64>,
        formation_id: Option<u64>,
    ) -> (r: Result<u64, HierarchyError>)
        requires
            old(self).wf(),
            old(self)@.next_climb_id < u64::MAX,
        ensures
            final (self).wf(),
            (final (self)@, r) == add_climb_spec(
                old(self)@,
                opt_names_view(names),
                descriptions,
                grade_ids,
                area_id,
                formation_id,
            ),
    {
        let ghost m0 = self@;
        let wrapped: Vec<Option<String>> = match names {
            Some(v) => crate::names::wrap_names(v),
            None => Vec::new(),
        };
        proof {
            assert(wrapped.deep_view() =~= as_name_array(opt_names_view(names)));
        }
        let id = self.create_climb(wrapped);
        let ghost m1 = self@;
        proof {
            assert(!m0.climbs.dom().contains(id));
        }
        let ghost dsv: Seq<(Seq<char>, Seq<char>)> = match &descriptions {
            Some(ds) => kvs_view(ds@),
            None => Seq::empty(),
        };
        let ghost gsv: Option<Seq<u64>> = match &grade_ids {
            Some(gs) => Some(gs@),
            None => None,
        };
        match descriptions {
            Some(ds) => {
                let dres = self.set_climb_descriptions(id, ds);
                if let Err(e) = dres {
                    self.climbs.delete(&id);
                    proof {
                        assert(self@.climbs =~= m1.climbs.remove(id));
                        assert(m1.climbs.remove(id) =~= m0.climbs);
                        assert(self@ == (StoreModel { next_climb_id: (id + 1) as u64, ..m0 }));
                    }
                    return Err(e);
                }
            },
            None => {},
        }
        let ghost m2 = self@;
        match grade_ids {
            Some(gs) => {
                let gres = self.set_climb_grades(id, gs);
                if let Err(e) = gres {
                    // the grade step wrote nothing; take back the climb and
                    // its freshly written descriptions
                    crate::cascade::purge_climb_descriptions_by_climb(
                        &mut self.climb_descriptions,
                        id,
                    );
                    self.climbs.delete(&id);
                    proof {
                        crate::descriptions::lemma_descs_applied_frame(
                            m1.climb_descriptions,
                            m1.climb_description_types,
                            id,
                            dsv,
                        );
                        assert(m2.climb_descriptions == crate::descriptions::descs_applied(
                            m1.climb_descriptions,
                            m1.climb_description_types,
                            id,
                            dsv,
                        ));
                        assert(m0.climb_descriptions == m1.climb_descriptions);
                        assert forall|k: (u64, u64)| #[trigger]
                            m0.climb_descriptions.dom().contains(k) implies k.0 != id by {
                            assert(m0.climbs.dom().contains(k.0));
                        }
                        let applied = crate::descriptions::descs_applied(
                            m1.climb_descriptions,
                            m1.climb_description_types,
                            id,
                            dsv,
                        );
                        assert forall|k: (u64, u64)| #[trigger]
                            self@.climb_descriptions.dom().contains(k) implies
                            m0.climb_descriptions.dom().contains(k)
                            && self@.climb_descriptions[k] == m0.climb_descriptions[k] by {
                            assert(k.0 != id);
                            assert(applied.dom().contains(k));
                            assert(m0.climb_descriptions.dom().contains(k));
                        }
                        assert forall|k: (u64, u64)| #[trigger]
                            m0.climb_descriptions.dom().contains(k) implies
                            self@.climb_descriptions.dom().contains(k) by {
                            assert(k.0 != id);
                            assert(applied.dom().contains(k));
                        }
                        assert(self@.climb_descriptions =~= m0.climb_descriptions);
                        assert(self@.climbs =~= m1.climbs.remove(id));
                        assert(m1.climbs.remove(id) =~= m0.climbs);
                        assert(self@ == (StoreModel { next_climb_id: (id + 1) as u64, ..m0 }));
                    }
                    return Err(e);
                }
            },
            None => {},
        }
        let parent_invalid = {
            let bad_area = match area_id {
                Some(a) => !self.areas.contains_key(&a),
                None => false,
            };
            let bad_formation = match formation_id {
                Some(f) => !self.formations.contains_key(&f),
                None => false,
            };
            bad_area || bad_formation
        };
        if parent_invalid {
            // undo the creation: nothing else references the fresh climb
            crate::cascade::purge_climb_descriptions_by_climb(&mut self.climb_descriptions, id);
            crate::cascade::purge_climb_grades_by_climb(&mut self.climb_grades, id);
            self.climbs.delete(&id);
            proof {
                crate::descriptions::lemma_descs_applied_frame(
                    m1.climb_descriptions,
                    m1.climb_description_types,
                    id,
                    dsv,
                );
                assert forall|k: (u64, u64)| #[trigger]
                    m0.climb_descriptions.dom().contains(k) implies k.0 != id by {
                    assert(m0.climbs.dom().contains(k.0));
                }
                assert(m0.climb_descriptions == m1.climb_descriptions);
                let applied = crate::descriptions::descs_applied(
                    m1.climb_descriptions,
                    m1.climb_description_types,
                    id,
                    dsv,
                );
                assert forall|k: (u64, u64)| #[trigger]
                    self@.climb_descriptions.dom().contains(k) implies
                    m0.climb_descriptions.dom().contains(k)
                    && self@.climb_descriptions[k] == m0.climb_descriptions[k] by {
                    assert(k.0 != id);
                    assert(applied.dom().contains(k));
                    assert(m0.climb_descriptions.dom().contains(k));
                }
                assert forall|k: (u64, u64)| #[trigger]
                    m0.climb_descriptions.dom().contains(k) implies
                    self@.climb_descriptions.dom().contains(k) by {
                    assert(k.0 != id);
                    assert(applied.dom().contains(k));
                }
                assert(self@.climb_descriptions =~= m0.climb_descriptions);
                match gsv {
                    Some(gseq) => {
                        crate::assoc::lemma_grades_linked_membership(m2.climb_grades, id, gseq);
                    },
                    None => {},
                }
                assert forall|k: (u64, u64)| #[trigger]
                    m0.climb_grades.contains(k) implies k.0 != id by {
                    assert(m0.climbs.dom().contains(k.0));
                }
                assert(self@.climb_grades =~= m0.climb_grades);
                assert(self@.climbs =~= m1.climbs.remove(id));
                assert(m1.climbs.remove(id) =~= m0.climbs);
                assert(self@ == (StoreModel { next_climb_id: (id + 1) as u64, ..m0 }));
            }
            return Err(HierarchyError::ParentNotFound);
        }
        let parent: Option<Parent> = match (area_id, formation_id) {
            (_, Some(f)) => Some(Parent::Formation(f)),
            (Some(a), None) => Some(Parent::Area(a)),
            (None, None) => None,
        };
        match parent {
            None => Ok(id),
            Some(p) => {
                proof {
                    assert(crate::state::parent_exists(self@, p));
                }
                let res = self.set_climb_parent(id, p);
                proof {
                    assert(res is Ok);
                }
                Ok(id)
            },
        }
    }
}

} // verus!
