//! Deletion with restrict and cascade semantics.
//!
//! Deleting an entity removes the containment and association rows in which
//! it is the child or an endpoint (cascade), but is refused outright while
//! any live row still references it as a parent (restrict).  Each operation
//! either fails leaving the store untouched, or reaches exactly the state
//! its spec-level transition function describes.

use crate::cascade::{
    find_ascent_of_climb, find_grade_of_type, purge_ascent_grades_by_ascent,
    purge_ascent_grades_by_grade, purge_ascent_parties_by_ascent, purge_ascent_parties_by_climber,
    purge_climb_descriptions_by_climb, purge_climb_descriptions_by_type,
    purge_climb_grades_by_climb, purge_climb_grades_by_grade, purge_climb_variations_touching,
};
use crate::db::Database;
use crate::errors::HierarchyError;
use crate::forest::lemma_acyclic_remove;
use crate::models::Parent;
use crate::state::{formation_edges, maps_to, parent_exists, StoreModel};
use crate::table::Keyed;
use vstd::prelude::*;

verus! {

/// The outcome of `remove_area`: refused while the area is still a parent;
/// otherwise the area row and its own containment row go away together.
pub open spec fn remove_area_spec(m: StoreModel, id: u64) -> (
    StoreModel,
    Result<u64, HierarchyError>,
) {
    if !m.areas.dom().contains(id) {
        (m, Err(HierarchyError::NotFound))
    } else if maps_to(m.area_parent, id) || maps_to(m.formation_parent, Parent::Area(id))
        || maps_to(m.climb_parent, Parent::Area(id)) {
        (m, Err(HierarchyError::RestrictedDelete))
    } else {
        (
            StoreModel {
                areas: m.areas.remove(id),
                area_parent: m.area_parent.remove(id),
                ..m
            },
            Ok(id),
        )
    }
}

/// The outcome of `remove_formation`: refused while the formation is still a
/// parent; otherwise the formation row and its own containment row go away
/// together.
pub open spec fn remove_formation_spec(m: StoreModel, id: u64) -> (
    StoreModel,
    Result<u64, HierarchyError>,
) {
    if !m.formations.dom().contains(id) {
        (m, Err(HierarchyError::NotFound))
    } else if maps_to(m.formation_parent, Parent::Formation(id)) || maps_to(
        m.climb_parent,
        Parent::Formation(id),
    ) {
        (m, Err(HierarchyError::RestrictedDelete))
    } else {
        (
            StoreModel {
                formations: m.formations.remove(id),
                formation_parent: m.formation_parent.remove(id),
                ..m
            },
            Ok(id),
        )
    }
}


/// The outcome of `remove_climb`: climbs are always leaves, so deletion
/// cannot be restricted; the climb's containment row, descriptions, grade
/// links, variation links (either side), ascents and their association rows
/// all go away with it.
pub open spec fn remove_climb_spec(m: StoreModel, id: u64) -> (
    StoreModel,
    Result<u64, HierarchyError>,
) {
    if !m.climbs.dom().contains(id) {
        (m, Err(HierarchyError::NotFound))
    } else {
        let dead = dead_ascents(m, id);
        (
            StoreModel {
                climbs: m.climbs.remove(id),
                climb_parent: m.climb_parent.remove(id),
                climb_descriptions: m.climb_descriptions.remove_keys(
                    Set::new(|k: (u64, u64)| k.0 == id),
                ),
                climb_grades: Set::new(|k: (u64, u64)| m.climb_grades.contains(k) && k.0 != id),
                climb_variations: Set::new(
                    |k: (u64, u64)| m.climb_variations.contains(k) && k.0 != id && k.1 != id,
                ),
                ascents: m.ascents.remove_keys(dead),
                ascent_grades: Set::new(
                    |k: (u64, u64)| m.ascent_grades.contains(k) && !dead.contains(k.0),
                ),
                ascent_parties: Set::new(
                    |k: (u64, u64)| m.ascent_parties.contains(k) && !dead.contains(k.0),
                ),
                ..m
            },
            Ok(id),
        )
    }
}

/// The ascents recorded against a climb.
pub open spec fn dead_ascents(m: StoreModel, climb_id: u64) -> Set<u64> {
    Set::new(|a: u64| m.ascents.dom().contains(a) && m.ascents[a].climb_id == climb_id)
}

/// The outcome of `remove_ascent`: the ascent and its grade and party links
/// go away together.
pub open spec fn remove_ascent_spec(m: StoreModel, id: u64) -> (
    StoreModel,
    Result<u64, HierarchyError>,
) {
    if !m.ascents.dom().contains(id) {
        (m, Err(HierarchyError::NotFound))
    } else {
        (
            StoreModel {
                ascents: m.ascents.remove(id),
                ascent_grades: Set::new(
                    |k: (u64, u64)| m.ascent_grades.contains(k) && k.0 != id,
                ),
                ascent_parties: Set::new(
                    |k: (u64, u64)| m.ascent_parties.contains(k) && k.0 != id,
                ),
                ..m
            },
            Ok(id),
        )
    }
}

/// The outcome of `remove_climber`: the climber and their party links go
/// away together.
pub open spec fn remove_climber_spec(m: StoreModel, id: u64) -> (
    StoreModel,
    Result<u64, HierarchyError>,
) {
    if !m.climbers.dom().contains(id) {
        (m, Err(HierarchyError::NotFound))
    } else {
        (
            StoreModel {
                climbers: m.climbers.remove(id),
                ascent_parties: Set::new(
                    |k: (u64, u64)| m.ascent_parties.contains(k) && k.1 != id,
                ),
                ..m
            },
            Ok(id),
        )
    }
}

/// The outcome of `remove_grade`: the grade and every link mentioning it go
/// away together.
pub open spec fn remove_grade_spec(m: StoreModel, id: u64) -> (
    StoreModel,
    Result<u64, HierarchyError>,
) {
    if !m.grades.dom().contains(id) {
        (m, Err(HierarchyError::NotFound))
    } else {
        (
            StoreModel {
                grades: m.grades.remove(id),
                climb_grades: Set::new(|k: (u64, u64)| m.climb_grades.contains(k) && k.1 != id),
                ascent_grades: Set::new(
                    |k: (u64, u64)| m.ascent_grades.contains(k) && k.1 != id,
                ),
                ..m
            },
            Ok(id),
        )
    }
}

/// The grades belonging to a grading system.
pub open spec fn grades_of_type(m: StoreModel, grade_type_id: u64) -> Set<u64> {
    Set::new(|g: u64| m.grades.dom().contains(g) && m.grades[g].grade_type_id == grade_type_id)
}

/// The outcome of `remove_grade_type`: the grading system, its grades, and
/// every link mentioning one of those grades go away together.
pub open spec fn remove_grade_type_spec(m: StoreModel, id: u64) -> (
    StoreModel,
    Result<u64, HierarchyError>,
) {
    if !m.grade_types.dom().contains(id) {
        (m, Err(HierarchyError::NotFound))
    } else {
        let dead = grades_of_type(m, id);
        (
            StoreModel {
                grade_types: m.grade_types.remove(id),
                grades: m.grades.remove_keys(dead),
                climb_grades: Set::new(
                    |k: (u64, u64)| m.climb_grades.contains(k) && !dead.contains(k.1),
                ),
                ascent_grades: Set::new(
                    |k: (u64, u64)| m.ascent_grades.contains(k) && !dead.contains(k.1),
                ),
                ..m
            },
            Ok(id),
        )
    }
}

/// The outcome of `remove_climb_description_type`: the category and every
/// description carrying it go away together.
pub open spec fn remove_climb_description_type_spec(m: StoreModel, id: u64) -> (
    StoreModel,
    Result<u64, HierarchyError>,
) {
    if !m.climb_description_types.dom().contains(id) {
        (m, Err(HierarchyError::NotFound))
    } else {
        (
            StoreModel {
                climb_description_types: m.climb_description_types.remove(id),
                climb_descriptions: m.climb_descriptions.remove_keys(
                    Set::new(|k: (u64, u64)| k.1 == id),
                ),
                ..m
            },
            Ok(id),
        )
    }
}

impl Database {
    /// Whether any area has `id` as its parent area.
    fn referenced_as_super_area(&self, id: u64) -> (r: bool)
        requires
            self.wf(),
        ensures
            r == maps_to(self@.area_parent, id),
    {
        let n = self.area_belongs_to.len();
        let mut i: usize = 0;
        while i < n
            invariant
                self.wf(),
                i <= n,
                n == self.area_belongs_to.seq().len(),
                forall|j: int|
                    0 <= j < i ==> #[trigger] self.area_belongs_to.seq()[j].super_area_id != id,
            decreases n - i,
        {
            let row = self.area_belongs_to.row_at(i);
            if row.super_area_id == id {
                proof {
                    self.area_belongs_to.lemma_view();
                    assert(self.area_belongs_to.seq()[i as int].key() == row.area_id);
                    assert(self.area_belongs_to@.dom().contains(row.area_id));
                    assert(self.area_belongs_to@[row.area_id] == *row);
                    assert(self@.area_parent.dom().contains(row.area_id));
                    assert(self@.area_parent[row.area_id] == id);
                }
                return true;
            }
            i = i + 1;
        }
        proof {
            self.area_belongs_to.lemma_view();
            assert forall|c: u64|
                self@.area_parent.dom().contains(c) implies #[trigger] self@.area_parent[c]
                != id by {
                let j = choose|j: int|
                    0 <= j < self.area_belongs_to.seq().len() && self.area_belongs_to.seq()[j].key()
                        == c;
                assert(self.area_belongs_to.seq()[j].super_area_id != id);
            }
        }
        false
    }

    /// Whether any formation has `p` as its parent.
    fn formation_parent_referenced(&self, p: Parent) -> (r: bool)
        requires
            self.wf(),
        ensures
            r == maps_to(self@.formation_parent, p),
    {
        let n = self.formation_belongs_to.len();
        let mut i: usize = 0;
        while i < n
            invariant
                self.wf(),
                i <= n,
                n == self.formation_belongs_to.seq().len(),
                forall|j: int|
                    0 <= j < i ==> #[trigger] self.formation_belongs_to.seq()[j].parent != p,
            decreases n - i,
        {
            let row = self.formation_belongs_to.row_at(i);
            if row.parent == p {
                proof {
                    self.formation_belongs_to.lemma_view();
                    assert(self.formation_belongs_to.seq()[i as int].key() == row.formation_id);
                    assert(self.formation_belongs_to@.dom().contains(row.formation_id));
                    assert(self.formation_belongs_to@[row.formation_id] == *row);
                    assert(self@.formation_parent.dom().contains(row.formation_id));
                    assert(self@.formation_parent[row.formation_id] == p);
                }
                return true;
            }
            i = i + 1;
        }
        proof {
            self.formation_belongs_to.lemma_view();
            assert forall|c: u64|
                self@.formation_parent.dom().contains(c) implies #[trigger] self@.formation_parent[c]
                != p by {
                let j = choose|j: int|
                    0 <= j < self.formation_belongs_to.seq().len()
                        && self.formation_belongs_to.seq()[j].key() == c;
                assert(self.formation_belongs_to.seq()[j].parent != p);
            }
        }
        false
    }

    /// Whether any climb has `p` as its parent.
    fn climb_parent_referenced(&self, p: Parent) -> (r: bool)
        requires
            self.wf(),
        ensures
            r == maps_to(self@.climb_parent, p),
    {
        let n = self.climb_belongs_to.len();
        let mut i: usize = 0;
        while i < n
            invariant
                self.wf(),
                i <= n,
                n == self.climb_belongs_to.seq().len(),
                forall|j: int| 0 <= j < i ==> #[trigger] self.climb_belongs_to.seq()[j].parent != p,
            decreases n - i,
        {
            let row = self.climb_belongs_to.row_at(i);
            if row.parent == p {
                proof {
                    self.climb_belongs_to.lemma_view();
                    assert(self.climb_belongs_to.seq()[i as int].key() == row.climb_id);
                    assert(self.climb_belongs_to@.dom().contains(row.climb_id));
                    assert(self.climb_belongs_to@[row.climb_id] == *row);
                    assert(self@.climb_parent.dom().contains(row.climb_id));
                    assert(self@.climb_parent[row.climb_id] == p);
                }
                return true;
            }
            i = i + 1;
        }
        proof {
            self.climb_belongs_to.lemma_view();
            assert forall|c: u64|
                self@.climb_parent.dom().contains(c) implies #[trigger] self@.climb_parent[c]
                != p by {
                let j = choose|j: int|
                    0 <= j < self.climb_belongs_to.seq().len() && self.climb_belongs_to.seq()[j].key()
                        == c;
                assert(self.climb_belongs_to.seq()[j].parent != p);
            }
        }
        false
    }

    /// Deletes an area.  Refused with `RestrictedDelete`, leaving the store
    /// unchanged, while any area, formation or climb is still parented to
    /// it; on success its own containment row is removed with it (cascade).
    pub fn remove_area(&mut self, id: u64) -> (r: Result<u64, HierarchyError>)
        requires
            old(self).wf(),
        ensures
            final (self).wf(),
            (final (self)@, r) == remove_area_spec(old(self)@, id),
    {
        if !self.areas.contains_key(&id) {
            return Err(HierarchyError::NotFound);
        }
        if self.referenced_as_super_area(id) {
            return Err(HierarchyError::RestrictedDelete);
        }
        if self.formation_parent_referenced(Parent::Area(id)) {
            return Err(HierarchyError::RestrictedDelete);
        }
        if self.climb_parent_referenced(Parent::Area(id)) {
            return Err(HierarchyError::RestrictedDelete);
        }
        let ghost m0 = self@;
        self.areas.delete(&id);
        self.area_belongs_to.delete(&id);
        proof {
            assert(self@.areas =~= m0.areas.remove(id));
            assert(self@.area_parent =~= m0.area_parent.remove(id));
            assert(self@ == StoreModel {
                areas: m0.areas.remove(id),
                area_parent: m0.area_parent.remove(id),
                ..m0
            });
            lemma_acyclic_remove(m0.area_parent, id);
            assert forall|a: u64| #[trigger]
                self@.area_parent.dom().contains(a) implies self@.areas.dom().contains(a)
                && self@.areas.dom().contains(self@.area_parent[a]) by {
                assert(m0.area_parent.dom().contains(a));
                assert(m0.area_parent[a] != id);
            }
            assert forall|f: u64| #[trigger]
                self@.formation_parent.dom().contains(f) implies self@.formations.dom().contains(f)
                && parent_exists(self@, self@.formation_parent[f]) by {
                assert(m0.formation_parent.dom().contains(f));
                assert(m0.formation_parent[f] != Parent::Area(id));
            }
            assert forall|c: u64| #[trigger]
                self@.climb_parent.dom().contains(c) implies self@.climbs.dom().contains(c)
                && parent_exists(self@, self@.climb_parent[c]) by {
                assert(m0.climb_parent.dom().contains(c));
                assert(m0.climb_parent[c] != Parent::Area(id));
            }
        }
        Ok(id)
    }

    /// Deletes a formation.  Refused with `RestrictedDelete`, leaving the
    /// store unchanged, while any formation or climb is still parented to
    /// it; on success its own containment row is removed with it (cascade).
    pub fn remove_formation(&mut self, id: u64) -> (r: Result<u64, HierarchyError>)
        requires
            old(self).wf(),
        ensures
            final (self).wf(),
            (final (self)@, r) == remove_formation_spec(old(self)@, id),
    {
        if !self.formations.contains_key(&id) {
            return Err(HierarchyError::NotFound);
        }
        if self.formation_parent_referenced(Parent::Formation(id)) {
            return Err(HierarchyError::RestrictedDelete);
        }
        if self.climb_parent_referenced(Parent::Formation(id)) {
            return Err(HierarchyError::RestrictedDelete);
        }
        let ghost m0 = self@;
        self.formations.delete(&id);
        self.formation_belongs_to.delete(&id);
        proof {
            assert(self@.formations =~= m0.formations.remove(id));
            assert(self@.formation_parent =~= m0.formation_parent.remove(id));
            assert(self@ == StoreModel {
                formations: m0.formations.remove(id),
                formation_parent: m0.formation_parent.remove(id),
                ..m0
            });
            let e0 = formation_edges(m0.formation_parent);
            assert(formation_edges(self@.formation_parent) =~= e0.remove(id));
            lemma_acyclic_remove(e0, id);
            assert forall|f: u64| #[trigger]
                self@.formation_parent.dom().contains(f) implies self@.formations.dom().contains(f)
                && parent_exists(self@, self@.formation_parent[f]) by {
                assert(m0.formation_parent.dom().contains(f));
                assert(m0.formation_parent[f] != Parent::Formation(id));
            }
            assert forall|c: u64| #[trigger]
                self@.climb_parent.dom().contains(c) implies self@.climbs.dom().contains(c)
                && parent_exists(self@, self@.climb_parent[c]) by {
                assert(m0.climb_parent.dom().contains(c));
                assert(m0.climb_parent[c] != Parent::Formation(id));
            }
        }
        Ok(id)
    }

    /// Deletes a climb and everything that hangs off it: its containment
    /// row, descriptions, grade links, variation links on either side, and
    /// its ascents with their association rows.  Climbs are always leaves,
    /// so nothing can restrict the delete.
    pub fn remove_climb(&mut self, id: u64) -> (r: Result<u64, HierarchyError>)
        requires
            old(self).wf(),
        ensures
            final (self).wf(),
            (final (self)@, r) == remove_climb_spec(old(self)@, id),
    {
        if !self.climbs.contains_key(&id) {
            return Err(HierarchyError::NotFound);
        }
        loop
            invariant
                self.areas == old(self).areas,
                self.formations == old(self).formations,
                self.climbs == old(self).climbs,
                self.climbers == old(self).climbers,
                self.grade_types == old(self).grade_types,
                self.climb_description_types == old(self).climb_description_types,
                self.climb_descriptions == old(self).climb_descriptions,
                self.area_belongs_to == old(self).area_belongs_to,
                self.formation_belongs_to == old(self).formation_belongs_to,
                self.climb_belongs_to == old(self).climb_belongs_to,
                self.climb_grades == old(self).climb_grades,
                self.climb_variations == old(self).climb_variations,
                self.next_area_id == old(self).next_area_id,
                self.next_formation_id == old(self).next_formation_id,
                self.next_climb_id == old(self).next_climb_id,
                self.next_climber_id == old(self).next_climber_id,
                self.next_ascent_id == old(self).next_ascent_id,
                self.next_grade_type_id == old(self).next_grade_type_id,
                self.next_grade_id == old(self).next_grade_id,
                self.next_climb_description_type_id == old(self).next_climb_description_type_id,
                self.grades == old(self).grades,
                self.ascents.wf(),
                self.ascent_grades.wf(),
                self.ascent_parties.wf(),
                forall|a: u64| #[trigger]
                    self@.ascents.dom().contains(a) ==> old(self)@.ascents.dom().contains(a)
                        && self@.ascents[a] == old(self)@.ascents[a],
                forall|a: u64| #[trigger]
                    old(self)@.ascents.dom().contains(a) && old(self)@.ascents[a].climb_id != id
                        ==> self@.ascents.dom().contains(a),
                forall|k: (u64, u64)| #[trigger]
                    self@.ascent_grades.contains(k) <==> (old(self)@.ascent_grades.contains(k)
                        && self@.ascents.dom().contains(k.0)),
                forall|k: (u64, u64)| #[trigger]
                    self@.ascent_parties.contains(k) <==> (old(self)@.ascent_parties.contains(k)
                        && self@.ascents.dom().contains(k.0)),
            ensures
                self.areas == old(self).areas,
                self.formations == old(self).formations,
                self.climbs == old(self).climbs,
                self.climbers == old(self).climbers,
                self.grade_types == old(self).grade_types,
                self.climb_description_types == old(self).climb_description_types,
                self.climb_descriptions == old(self).climb_descriptions,
                self.area_belongs_to == old(self).area_belongs_to,
                self.formation_belongs_to == old(self).formation_belongs_to,
                self.climb_belongs_to == old(self).climb_belongs_to,
                self.climb_grades == old(self).climb_grades,
                self.climb_variations == old(self).climb_variations,
                self.next_area_id == old(self).next_area_id,
                self.next_formation_id == old(self).next_formation_id,
                self.next_climb_id == old(self).next_climb_id,
                self.next_climber_id == old(self).next_climber_id,
                self.next_ascent_id == old(self).next_ascent_id,
                self.next_grade_type_id == old(self).next_grade_type_id,
                self.next_grade_id == old(self).next_grade_id,
                self.next_climb_description_type_id == old(self).next_climb_description_type_id,
                self.grades == old(self).grades,
                self.ascents.wf(),
                self.ascent_grades.wf(),
                self.ascent_parties.wf(),
                forall|a: u64| #[trigger]
                    self@.ascents.dom().contains(a) ==> old(self)@.ascents.dom().contains(a)
                        && self@.ascents[a] == old(self)@.ascents[a],
                forall|a: u64| #[trigger]
                    old(self)@.ascents.dom().contains(a) && old(self)@.ascents[a].climb_id != id
                        ==> self@.ascents.dom().contains(a),
                forall|k: (u64, u64)| #[trigger]
                    self@.ascent_grades.contains(k) <==> (old(self)@.ascent_grades.contains(k)
                        && self@.ascents.dom().contains(k.0)),
                forall|k: (u64, u64)| #[trigger]
                    self@.ascent_parties.contains(k) <==> (old(self)@.ascent_parties.contains(k)
                        && self@.ascents.dom().contains(k.0)),
                forall|a: u64| #[trigger]
                    self@.ascents.dom().contains(a) ==> self@.ascents[a].climb_id != id,
            decreases self.ascents.seq().len(),
        {
            match find_ascent_of_climb(&self.ascents, id) {
                Some(aid) => {
                    let ghost mprev = self@;
                    proof {
                        assert(mprev.ascents.dom().contains(aid));
                        assert(mprev.ascents[aid].climb_id == id);
                        assert(old(self)@.ascents.dom().contains(aid));
                        assert(old(self)@.ascents[aid].climb_id == id);
                    }
                    purge_ascent_grades_by_ascent(&mut self.ascent_grades, aid);
                    purge_ascent_parties_by_ascent(&mut self.ascent_parties, aid);
                    self.ascents.delete(&aid);
                    proof {
                        assert forall|a: u64| #[trigger]
                            self@.ascents.dom().contains(a) implies mprev.ascents.dom().contains(a)
                            && self@.ascents[a] == mprev.ascents[a] by {}
                        assert forall|k: (u64, u64)| #[trigger]
                            self@.ascent_grades.contains(k) <==> (mprev.ascent_grades.contains(k)
                            && k.0 != aid) by {}
                        assert forall|k: (u64, u64)| #[trigger]
                            self@.ascent_parties.contains(k) <==> (mprev.ascent_parties.contains(k)
                            && k.0 != aid) by {}
                    }
                },
                None => {
                    break ;
                },
            }
        }
        proof {
            let m0 = old(self)@;
            let dead = dead_ascents(m0, id);
            assert forall|a: u64| #[trigger]
                self@.ascents.dom().contains(a) implies (m0.ascents.dom().contains(a)
                && !dead.contains(a)) by {}
            assert forall|a: u64|
                m0.ascents.dom().contains(a) && !(#[trigger] dead.contains(a)) implies
                self@.ascents.dom().contains(a) by {
                assert(m0.ascents[a].climb_id != id);
            }
            assert(self@.ascents =~= m0.ascents.remove_keys(dead));
            assert(self@.ascent_grades =~= Set::new(
                |k: (u64, u64)| m0.ascent_grades.contains(k) && !dead.contains(k.0),
            ));
            assert(self@.ascent_parties =~= Set::new(
                |k: (u64, u64)| m0.ascent_parties.contains(k) && !dead.contains(k.0),
            ));
        }
        let ghost mmid = self@;
        purge_climb_grades_by_climb(&mut self.climb_grades, id);
        purge_climb_variations_touching(&mut self.climb_variations, id);
        purge_climb_descriptions_by_climb(&mut self.climb_descriptions, id);
        self.climb_belongs_to.delete(&id);
        self.climbs.delete(&id);
        proof {
            let m0 = old(self)@;
            let target = remove_climb_spec(m0, id).0;
            let dead = dead_ascents(m0, id);
            assert(self@.ascents == mmid.ascents);
            assert(self@.ascent_grades == mmid.ascent_grades);
            assert(self@.ascent_parties == mmid.ascent_parties);
            assert(self@.ascents =~= target.ascents);
            assert(self@.ascent_grades =~= target.ascent_grades);
            assert(self@.ascent_parties =~= target.ascent_parties);
            assert(self@.climb_grades =~= target.climb_grades);
            assert(self@.climb_variations =~= target.climb_variations);
            assert(self@.climb_descriptions =~= target.climb_descriptions);
            assert(self@.climb_parent =~= target.climb_parent);
            assert(self@.climbs =~= target.climbs);
            assert(self@ == target);
            assert forall|c: u64| #[trigger]
                self@.climb_parent.dom().contains(c) implies self@.climbs.dom().contains(c)
                && parent_exists(self@, self@.climb_parent[c]) by {
                assert(m0.climb_parent.dom().contains(c));
            }
        }
        Ok(id)
    }

    /// Deletes an ascent; its grade and party links go away with it.
    pub fn remove_ascent(&mut self, id: u64) -> (r: Result<u64, HierarchyError>)
        requires
            old(self).wf(),
        ensures
            final (self).wf(),
            (final (self)@, r) == remove_ascent_spec(old(self)@, id),
    {
        if !self.ascents.contains_key(&id) {
            return Err(HierarchyError::NotFound);
        }
        let ghost m0 = self@;
        purge_ascent_grades_by_ascent(&mut self.ascent_grades, id);
        purge_ascent_parties_by_ascent(&mut self.ascent_parties, id);
        self.ascents.delete(&id);
        proof {
            let target = remove_ascent_spec(m0, id).0;
            assert(self@.ascents =~= target.ascents);
            assert(self@.ascent_grades =~= target.ascent_grades);
            assert(self@.ascent_parties =~= target.ascent_parties);
            assert(self@ == target);
        }
        Ok(id)
    }

    /// Deletes a climber; their party links go away with them.
    pub fn remove_climber(&mut self, id: u64) -> (r: Result<u64, HierarchyError>)
        requires
            old(self).wf(),
        ensures
            final (self).wf(),
            (final (self)@, r) == remove_climber_spec(old(self)@, id),
    {
        if !self.climbers.contains_key(&id) {
            return Err(HierarchyError::NotFound);
        }
        let ghost m0 = self@;
        purge_ascent_parties_by_climber(&mut self.ascent_parties, id);
        self.climbers.delete(&id);
        proof {
            let target = remove_climber_spec(m0, id).0;
            assert(self@.climbers =~= target.climbers);
            assert(self@.ascent_parties =~= target.ascent_parties);
            assert(self@ == target);
        }
        Ok(id)
    }

    /// Deletes a grade; every link mentioning it goes away with it.
    pub fn remove_grade(&mut self, id: u64) -> (r: Result<u64, HierarchyError>)
        requires
            old(self).wf(),
        ensures
            final (self).wf(),
            (final (self)@, r) == remove_grade_spec(old(self)@, id),
    {
        if !self.grades.contains_key(&id) {
            return Err(HierarchyError::NotFound);
        }
        let ghost m0 = self@;
        purge_climb_grades_by_grade(&mut self.climb_grades, id);
        purge_ascent_grades_by_grade(&mut self.ascent_grades, id);
        self.grades.delete(&id);
        proof {
            let target = remove_grade_spec(m0, id).0;
            assert(self@.grades =~= target.grades);
            assert(self@.climb_grades =~= target.climb_grades);
            assert(self@.ascent_grades =~= target.ascent_grades);
            assert(self@ == target);
        }
        Ok(id)
    }

    /// Deletes a grading system; its grades, and every link mentioning one
    /// of them, go away with it.
    pub fn remove_grade_type(&mut self, id: u64) -> (r: Result<u64, HierarchyError>)
        requires
            old(self).wf(),
        ensures
            final (self).wf(),
            (final (self)@, r) == remove_grade_type_spec(old(self)@, id),
    {
        if !self.grade_types.contains_key(&id) {
            return Err(HierarchyError::NotFound);
        }
        loop
            invariant
                self.areas == old(self).areas,
                self.formations == old(self).formations,
                self.climbs == old(self).climbs,
                self.climbers == old(self).climbers,
                self.grade_types == old(self).grade_types,
                self.climb_description_types == old(self).climb_description_types,
                self.climb_descriptions == old(self).climb_descriptions,
                self.ascents == old(self).ascents,
                self.ascent_parties == old(self).ascent_parties,
                self.area_belongs_to == old(self).area_belongs_to,
                self.formation_belongs_to == old(self).formation_belongs_to,
                self.climb_belongs_to == old(self).climb_belongs_to,
                self.climb_variations == old(self).climb_variations,
                self.next_area_id == old(self).next_area_id,
                self.next_formation_id == old(self).next_formation_id,
                self.next_climb_id == old(self).next_climb_id,
                self.next_climber_id == old(self).next_climber_id,
                self.next_ascent_id == old(self).next_ascent_id,
                self.next_grade_type_id == old(self).next_grade_type_id,
                self.next_grade_id == old(self).next_grade_id,
                self.next_climb_description_type_id == old(self).next_climb_description_type_id,
                self.grades.wf(),
                self.climb_grades.wf(),
                self.ascent_grades.wf(),
                forall|g: u64| #[trigger]
                    self@.grades.dom().contains(g) ==> old(self)@.grades.dom().contains(g)
                        && self@.grades[g] == old(self)@.grades[g],
                forall|g: u64| #[trigger]
                    old(self)@.grades.dom().contains(g) && old(self)@.grades[g].grade_type_id != id
                        ==> self@.grades.dom().contains(g),
                forall|k: (u64, u64)| #[trigger]
                    self@.climb_grades.contains(k) <==> (old(self)@.climb_grades.contains(k)
                        && self@.grades.dom().contains(k.1)),
                forall|k: (u64, u64)| #[trigger]
                    self@.ascent_grades.contains(k) <==> (old(self)@.ascent_grades.contains(k)
                        && self@.grades.dom().contains(k.1)),
            ensures
                self.areas == old(self).areas,
                self.formations == old(self).formations,
                self.climbs == old(self).climbs,
                self.climbers == old(self).climbers,
                self.grade_types == old(self).grade_types,
                self.climb_description_types == old(self).climb_description_types,
                self.climb_descriptions == old(self).climb_descriptions,
                self.ascents == old(self).ascents,
                self.ascent_parties == old(self).ascent_parties,
                self.area_belongs_to == old(self).area_belongs_to,
                self.formation_belongs_to == old(self).formation_belongs_to,
                self.climb_belongs_to == old(self).climb_belongs_to,
                self.climb_variations == old(self).climb_variations,
                self.next_area_id == old(self).next_area_id,
                self.next_formation_id == old(self).next_formation_id,
                self.next_climb_id == old(self).next_climb_id,
                self.next_climber_id == old(self).next_climber_id,
                self.next_ascent_id == old(self).next_ascent_id,
                self.next_grade_type_id == old(self).next_grade_type_id,
                self.next_grade_id == old(self).next_grade_id,
                self.next_climb_description_type_id == old(self).next_climb_description_type_id,
                self.grades.wf(),
                self.climb_grades.wf(),
                self.ascent_grades.wf(),
                forall|g: u64| #[trigger]
                    self@.grades.dom().contains(g) ==> old(self)@.grades.dom().contains(g)
                        && self@.grades[g] == old(self)@.grades[g],
                forall|g: u64| #[trigger]
                    old(self)@.grades.dom().contains(g) && old(self)@.grades[g].grade_type_id != id
                        ==> self@.grades.dom().contains(g),
                forall|k: (u64, u64)| #[trigger]
                    self@.climb_grades.contains(k) <==> (old(self)@.climb_grades.contains(k)
                        && self@.grades.dom().contains(k.1)),
                forall|k: (u64, u64)| #[trigger]
                    self@.ascent_grades.contains(k) <==> (old(self)@.ascent_grades.contains(k)
                        && self@.grades.dom().contains(k.1)),
                forall|g: u64| #[trigger]
                    self@.grades.dom().contains(g) ==> self@.grades[g].grade_type_id != id,
            decreases self.grades.seq().len(),
        {
            match find_grade_of_type(&self.grades, id) {
                Some(g) => {
                    let ghost mprev = self@;
                    proof {
                        assert(mprev.grades.dom().contains(g));
                        assert(mprev.grades[g].grade_type_id == id);
                        assert(old(self)@.grades.dom().contains(g));
                        assert(old(self)@.grades[g].grade_type_id == id);
                    }
                    purge_climb_grades_by_grade(&mut self.climb_grades, g);
                    purge_ascent_grades_by_grade(&mut self.ascent_grades, g);
                    self.grades.delete(&g);
                    proof {
                        assert forall|a: u64| #[trigger]
                            self@.grades.dom().contains(a) implies mprev.grades.dom().contains(a)
                            && self@.grades[a] == mprev.grades[a] by {}
                        assert forall|k: (u64, u64)| #[trigger]
                            self@.climb_grades.contains(k) <==> (mprev.climb_grades.contains(k)
                            && k.1 != g) by {}
                        assert forall|k: (u64, u64)| #[trigger]
                            self@.ascent_grades.contains(k) <==> (mprev.ascent_grades.contains(k)
                            && k.1 != g) by {}
                    }
                },
                None => {
                    break ;
                },
            }
        }
        proof {
            let m0 = old(self)@;
            let dead = grades_of_type(m0, id);
            assert forall|g: u64| #[trigger]
                self@.grades.dom().contains(g) implies (m0.grades.dom().contains(g)
                && !dead.contains(g)) by {}
            assert forall|g: u64|
                m0.grades.dom().contains(g) && !(#[trigger] dead.contains(g)) implies
                self@.grades.dom().contains(g) by {
                assert(m0.grades[g].grade_type_id != id);
            }
            assert(self@.grades =~= m0.grades.remove_keys(dead));
            assert(self@.climb_grades =~= Set::new(
                |k: (u64, u64)| m0.climb_grades.contains(k) && !dead.contains(k.1),
            ));
            assert(self@.ascent_grades =~= Set::new(
                |k: (u64, u64)| m0.ascent_grades.contains(k) && !dead.contains(k.1),
            ));
        }
        let ghost mmid = self@;
        self.grade_types.delete(&id);
        proof {
            let m0 = old(self)@;
            let target = remove_grade_type_spec(m0, id).0;
            assert(self@.grades == mmid.grades);
            assert(self@.climb_grades == mmid.climb_grades);
            assert(self@.ascent_grades == mmid.ascent_grades);
            assert(self@.grade_types =~= target.grade_types);
            assert(self@.grades =~= target.grades);
            assert(self@.climb_grades =~= target.climb_grades);
            assert(self@.ascent_grades =~= target.ascent_grades);
            assert(self@ == target);
        }
        Ok(id)
    }

    /// Deletes a description category; every description carrying it goes
    /// away with it.
    pub fn remove_climb_description_type(&mut self, id: u64) -> (r: Result<u64, HierarchyError>)
        requires
            old(self).wf(),
        ensures
            final (self).wf(),
            (final (self)@, r) == remove_climb_description_type_spec(old(self)@, id),
    {
        if !self.climb_description_types.contains_key(&id) {
            return Err(HierarchyError::NotFound);
        }
        let ghost m0 = self@;
        purge_climb_descriptions_by_type(&mut self.climb_descriptions, id);
        self.climb_description_types.delete(&id);
        proof {
            let target = remove_climb_description_type_spec(m0, id).0;
            assert(self@.climb_description_types =~= target.climb_description_types);
            assert(self@.climb_descriptions =~= target.climb_descriptions);
            assert(self@ == target);
        }
        Ok(id)
    }
}

} // verus!
