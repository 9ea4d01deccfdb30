//! The association store: many-to-many links and tagged leaf data.
//!
//! Links are insert-or-ignore on their composite key — linking twice is a
//! no-op, not an error — and unlinking an absent pair succeeds silently.
//! Climb variations additionally refuse to link a climb to itself.  Grade
//! values are unique per grading system, grading system names and
//! description category names are unique outright, and a climb carries at
//! most one description per category.

use crate::db::Database;
use crate::errors::HierarchyError;
use crate::models::{AscentGrade, AscentParty, ClimbGrade, ClimbVariation, Grade, GradeType};
use crate::state::StoreModel;
use crate::table::Keyed;
use vstd::prelude::*;

verus! {

/// The outcome of `add_climb_grade`: refused while either endpoint is
/// missing; otherwise the pair is added (a duplicate is a no-op).
pub open spec fn link_climb_grade_spec(m: StoreModel, climb_id: u64, grade_id: u64) -> (
    StoreModel,
    Result<(), HierarchyError>,
) {
    if !m.climbs.dom().contains(climb_id) || !m.grades.dom().contains(grade_id) {
        (m, Err(HierarchyError::ForeignKeyViolation))
    } else {
        (
            StoreModel { climb_grades: m.climb_grades.insert((climb_id, grade_id)), ..m },
            Ok(()),
        )
    }
}

/// The outcome of `link_ascent_grade`.
pub open spec fn link_ascent_grade_spec(m: StoreModel, ascent_id: u64, grade_id: u64) -> (
    StoreModel,
    Result<(), HierarchyError>,
) {
    if !m.ascents.dom().contains(ascent_id) || !m.grades.dom().contains(grade_id) {
        (m, Err(HierarchyError::ForeignKeyViolation))
    } else {
        (
            StoreModel { ascent_grades: m.ascent_grades.insert((ascent_id, grade_id)), ..m },
            Ok(()),
        )
    }
}

/// The outcome of `link_ascent_party`.
pub open spec fn link_ascent_party_spec(m: StoreModel, ascent_id: u64, climber_id: u64) -> (
    StoreModel,
    Result<(), HierarchyError>,
) {
    if !m.ascents.dom().contains(ascent_id) || !m.climbers.dom().contains(climber_id) {
        (m, Err(HierarchyError::ForeignKeyViolation))
    } else {
        (
            StoreModel { ascent_parties: m.ascent_parties.insert((ascent_id, climber_id)), ..m },
            Ok(()),
        )
    }
}

/// The outcome of `link_climb_variation`: a climb cannot be a variation of
/// itself, and both climbs must exist.
pub open spec fn link_climb_variation_spec(m: StoreModel, root_id: u64, variation_id: u64) -> (
    StoreModel,
    Result<(), HierarchyError>,
) {
    if root_id == variation_id {
        (m, Err(HierarchyError::SelfReference))
    } else if !m.climbs.dom().contains(root_id) || !m.climbs.dom().contains(variation_id) {
        (m, Err(HierarchyError::ForeignKeyViolation))
    } else {
        (
            StoreModel { climb_variations: m.climb_variations.insert((root_id, variation_id)), ..m },
            Ok(()),
        )
    }
}

impl Database {
    /// Links a climb to a grade; linking the same pair twice keeps a single
    /// row.
    pub fn add_climb_grade(&mut self, climb_id: u64, grade_id: u64) -> (r: Result<
        (),
        HierarchyError,
    >)
        requires
            old(self).wf(),
        ensures
            final (self).wf(),
            (final (self)@, r) == link_climb_grade_spec(old(self)@, climb_id, grade_id),
    {
        if !self.climbs.contains_key(&climb_id) {
            return Err(HierarchyError::ForeignKeyViolation);
        }
        if !self.grades.contains_key(&grade_id) {
            return Err(HierarchyError::ForeignKeyViolation);
        }
        let ghost m0 = self@;
        self.climb_grades.put(ClimbGrade { climb_id, grade_id });
        proof {
            assert(self@.climb_grades =~= m0.climb_grades.insert((climb_id, grade_id)));
            assert(self@ == (StoreModel {
                climb_grades: m0.climb_grades.insert((climb_id, grade_id)),
                ..m0
            }));
        }
        Ok(())
    }

    /// Unlinks a climb from a grade; unlinking an absent pair succeeds.
    pub fn remove_climb_grade(&mut self, climb_id: u64, grade_id: u64)
        requires
            old(self).wf(),
        ensures
            final (self).wf(),
            final (self)@ == (StoreModel {
                climb_grades: old(self)@.climb_grades.remove((climb_id, grade_id)),
                ..old(self)@
            }),
    {
        let ghost m0 = self@;
        self.climb_grades.delete(&(climb_id, grade_id));
        proof {
            assert(self@.climb_grades =~= m0.climb_grades.remove((climb_id, grade_id)));
        }
    }

    /// Links an ascent to a grade; linking the same pair twice keeps a
    /// single row.
    pub fn link_ascent_grade(&mut self, ascent_id: u64, grade_id: u64) -> (r: Result<
        (),
        HierarchyError,
    >)
        requires
            old(self).wf(),
        ensures
            final (self).wf(),
            (final (self)@, r) == link_ascent_grade_spec(old(self)@, ascent_id, grade_id),
    {
        if !self.ascents.contains_key(&ascent_id) {
            return Err(HierarchyError::ForeignKeyViolation);
        }
        if !self.grades.contains_key(&grade_id) {
            return Err(HierarchyError::ForeignKeyViolation);
        }
        let ghost m0 = self@;
        self.ascent_grades.put(AscentGrade { ascent_id, grade_id });
        proof {
            assert(self@.ascent_grades =~= m0.ascent_grades.insert((ascent_id, grade_id)));
            assert(self@ == (StoreModel {
                ascent_grades: m0.ascent_grades.insert((ascent_id, grade_id)),
                ..m0
            }));
        }
        Ok(())
    }

    /// Unlinks an ascent from a grade; unlinking an absent pair succeeds.
    pub fn unlink_ascent_grade(&mut self, ascent_id: u64, grade_id: u64)
        requires
            old(self).wf(),
        ensures
            final (self).wf(),
            final (self)@ == (StoreModel {
                ascent_grades: old(self)@.ascent_grades.remove((ascent_id, grade_id)),
                ..old(self)@
            }),
    {
        let ghost m0 = self@;
        self.ascent_grades.delete(&(ascent_id, grade_id));
        proof {
            assert(self@.ascent_grades =~= m0.ascent_grades.remove((ascent_id, grade_id)));
        }
    }

    /// Links an ascent to a climber of its party; linking the same pair
    /// twice keeps a single row.
    pub fn link_ascent_party(&mut self, ascent_id: u64, climber_id: u64) -> (r: Result<
        (),
        HierarchyError,
    >)
        requires
            old(self).wf(),
        ensures
            final (self).wf(),
            (final (self)@, r) == link_ascent_party_spec(old(self)@, ascent_id, climber_id),
    {
        if !self.ascents.contains_key(&ascent_id) {
            return Err(HierarchyError::ForeignKeyViolation);
        }
        if !self.climbers.contains_key(&climber_id) {
            return Err(HierarchyError::ForeignKeyViolation);
        }
        let ghost m0 = self@;
        self.ascent_parties.put(AscentParty { ascent_id, climber_id });
        proof {
            assert(self@.ascent_parties =~= m0.ascent_parties.insert((ascent_id, climber_id)));
            assert(self@ == (StoreModel {
                ascent_parties: m0.ascent_parties.insert((ascent_id, climber_id)),
                ..m0
            }));
        }
        Ok(())
    }

    /// Unlinks an ascent from a climber; unlinking an absent pair succeeds.
    pub fn unlink_ascent_party(&mut self, ascent_id: u64, climber_id: u64)
        requires
            old(self).wf(),
        ensures
            final (self).wf(),
            final (self)@ == (StoreModel {
                ascent_parties: old(self)@.ascent_parties.remove((ascent_id, climber_id)),
                ..old(self)@
            }),
    {
        let ghost m0 = self@;
        self.ascent_parties.delete(&(ascent_id, climber_id));
        proof {
            assert(self@.ascent_parties =~= m0.ascent_parties.remove((ascent_id, climber_id)));
        }
    }

    /// Links a climb as a variation of a root climb.  A climb cannot vary
    /// itself; linking the same pair twice keeps a single row.
    pub fn link_climb_variation(&mut self, root_id: u64, variation_id: u64) -> (r: Result<
        (),
        HierarchyError,
    >)
        requires
            old(self).wf(),
        ensures
            final (self).wf(),
            (final (self)@, r) == link_climb_variation_spec(old(self)@, root_id, variation_id),
    {
        if root_id == variation_id {
            return Err(HierarchyError::SelfReference);
        }
        if !self.climbs.contains_key(&root_id) {
            return Err(HierarchyError::ForeignKeyViolation);
        }
        if !self.climbs.contains_key(&variation_id) {
            return Err(HierarchyError::ForeignKeyViolation);
        }
        let ghost m0 = self@;
        self.climb_variations.put(ClimbVariation { root_id, variation_id });
        proof {
            assert(self@.climb_variations =~= m0.climb_variations.insert((root_id, variation_id)));
            assert(self@ == (StoreModel {
                climb_variations: m0.climb_variations.insert((root_id, variation_id)),
                ..m0
            }));
        }
        Ok(())
    }

    /// Unlinks a variation pair; unlinking an absent pair succeeds.
    pub fn unlink_climb_variation(&mut self, root_id: u64, variation_id: u64)
        requires
            old(self).wf(),
        ensures
            final (self).wf(),
            final (self)@ == (StoreModel {
                climb_variations: old(self)@.climb_variations.remove((root_id, variation_id)),
                ..old(self)@
            }),
    {
        let ghost m0 = self@;
        self.climb_variations.delete(&(root_id, variation_id));
        proof {
            assert(self@.climb_variations =~= m0.climb_variations.remove((root_id, variation_id)));
        }
    }

    /// The id of the grading system with the given name, if one exists.
    pub fn find_grade_type_by_name(&self, name: &String) -> (r: Option<u64>)
        requires
            self.wf(),
        ensures
            match r {
                Some(g) => self@.grade_types.dom().contains(g) && self@.grade_types[g] == name@,
                None => forall|g: u64| #[trigger]
                    self@.grade_types.dom().contains(g) ==> self@.grade_types[g] != name@,
            },
    {
        let n = self.grade_types.len();
        let mut i: usize = 0;
        while i < n
            invariant
                self.wf(),
                i <= n,
                n == self.grade_types.seq().len(),
                forall|j: int| 0 <= j < i ==> #[trigger] self.grade_types.seq()[j].name@ != name@,
            decreases n - i,
        {
            let row = self.grade_types.row_at(i);
            if row.name == *name {
                proof {
                    self.grade_types.lemma_view();
                    assert(self.grade_types.seq()[i as int].key() == row.id);
                    assert(self.grade_types@.dom().contains(row.id));
                    assert(self.grade_types@[row.id] == *row);
                }
                return Some(row.id);
            }
            i = i + 1;
        }
        proof {
            self.grade_types.lemma_view();
            assert forall|g: u64| #[trigger]
                self@.grade_types.dom().contains(g) implies self@.grade_types[g] != name@ by {
                let j = choose|j: int|
                    0 <= j < self.grade_types.seq().len() && self.grade_types.seq()[j].key() == g;
                assert(self.grade_types.seq()[j].name@ != name@);
            }
        }
        None
    }

    /// Creates a grading system with a fresh id.  Refused with
    /// `UniquenessViolation` while another system of the same name exists.
    pub fn insert_grade_type(&mut self, name: String) -> (r: Result<u64, HierarchyError>)
        requires
            old(self).wf(),
            old(self)@.next_grade_type_id < u64::MAX,
        ensures
            final (self).wf(),
            if exists|g: u64| #[trigger]
                old(self)@.grade_types.dom().contains(g) && old(self)@.grade_types[g] == name@ {
                final (self)@ == old(self)@ && r == Err::<u64, HierarchyError>(
                    HierarchyError::UniquenessViolation,
                )
            } else {
                r == Ok::<u64, HierarchyError>(old(self)@.next_grade_type_id) && final (self)@
                    == (StoreModel {
                    grade_types: old(self)@.grade_types.insert(
                        old(self)@.next_grade_type_id,
                        name@,
                    ),
                    next_grade_type_id: (old(self)@.next_grade_type_id + 1) as u64,
                    ..old(self)@
                })
            },
    {
        if let Some(_g) = self.find_grade_type_by_name(&name) {
            return Err(HierarchyError::UniquenessViolation);
        }
        let id = self.next_grade_type_id;
        self.next_grade_type_id = id + 1;
        let ghost m0 = self@;
        let ghost nv = name@;
        self.grade_types.put(GradeType { id, name });
        proof {
            assert(self@.grade_types =~= old(self)@.grade_types.insert(id, nv));
        }
        Ok(id)
    }

    /// The id of the grade with the given value in the given grading
    /// system, if one exists.
    pub fn find_grade_by_value(&self, grade_type_id: u64, value: &String) -> (r: Option<u64>)
        requires
            self.wf(),
        ensures
            match r {
                Some(g) => self@.grades.dom().contains(g) && self@.grades[g].grade_type_id
                    == grade_type_id && self@.grades[g].value == value@,
                None => forall|g: u64| #[trigger]
                    self@.grades.dom().contains(g) ==> !(self@.grades[g].grade_type_id
                        == grade_type_id && self@.grades[g].value == value@),
            },
    {
        let n = self.grades.len();
        let mut i: usize = 0;
        while i < n
            invariant
                self.wf(),
                i <= n,
                n == self.grades.seq().len(),
                forall|j: int|
                    0 <= j < i ==> !(#[trigger] self.grades.seq()[j].grade_type_id == grade_type_id
                        && self.grades.seq()[j].value@ == value@),
            decreases n - i,
        {
            let row = self.grades.row_at(i);
            if row.grade_type_id == grade_type_id && row.value == *value {
                proof {
                    self.grades.lemma_view();
                    assert(self.grades.seq()[i as int].key() == row.id);
                    assert(self.grades@.dom().contains(row.id));
                    assert(self.grades@[row.id] == *row);
                }
                return Some(row.id);
            }
            i = i + 1;
        }
        proof {
            self.grades.lemma_view();
            assert forall|g: u64| #[trigger]
                self@.grades.dom().contains(g) implies !(self@.grades[g].grade_type_id
                == grade_type_id && self@.grades[g].value == value@) by {
                let j = choose|j: int|
                    0 <= j < self.grades.seq().len() && self.grades.seq()[j].key() == g;
                assert(!(self.grades.seq()[j].grade_type_id == grade_type_id
                    && self.grades.seq()[j].value@ == value@));
            }
        }
        None
    }

    /// Creates a grade with a fresh id.  The grading system must exist, and
    /// the value must be new within it.
    pub fn insert_grade(&mut self, grade_type_id: u64, value: String) -> (r: Result<
        u64,
        HierarchyError,
    >)
        requires
            old(self).wf(),
            old(self)@.next_grade_id < u64::MAX,
        ensures
            final (self).wf(),
            if !old(self)@.grade_types.dom().contains(grade_type_id) {
                final (self)@ == old(self)@ && r == Err::<u64, HierarchyError>(
                    HierarchyError::ForeignKeyViolation,
                )
            } else if exists|g: u64| #[trigger]
                old(self)@.grades.dom().contains(g) && old(self)@.grades[g].grade_type_id
                    == grade_type_id && old(self)@.grades[g].value == value@ {
                final (self)@ == old(self)@ && r == Err::<u64, HierarchyError>(
                    HierarchyError::UniquenessViolation,
                )
            } else {
                r == Ok::<u64, HierarchyError>(old(self)@.next_grade_id) && final (self)@
                    == (StoreModel {
                    grades: old(self)@.grades.insert(
                        old(self)@.next_grade_id,
                        crate::state::GradeInfo { grade_type_id, value: value@ },
                    ),
                    next_grade_id: (old(self)@.next_grade_id + 1) as u64,
                    ..old(self)@
                })
            },
    {
        if !self.grade_types.contains_key(&grade_type_id) {
            return Err(HierarchyError::ForeignKeyViolation);
        }
        if let Some(_g) = self.find_grade_by_value(grade_type_id, &value) {
            return Err(HierarchyError::UniquenessViolation);
        }
        let id = self.next_grade_id;
        self.next_grade_id = id + 1;
        let ghost m0 = self@;
        let ghost vv = value@;
        self.grades.put(Grade { id, grade_type_id, value });
        proof {
            assert(self@.grades =~= old(self)@.grades.insert(
                id,
                crate::state::GradeInfo { grade_type_id, value: vv },
            ));
        }
        Ok(id)
    }
}


/// The climb-to-grade links after linking `climb_id` to every grade in
/// `gs`, in order.
pub open spec fn grades_linked(s: Set<(u64, u64)>, climb_id: u64, gs: Seq<u64>) -> Set<(u64, u64)>
    decreases gs.len(),
{
    if gs.len() == 0 {
        s
    } else {
        grades_linked(s, climb_id, gs.drop_last()).insert((climb_id, gs.last()))
    }
}

/// What `grades_linked` holds: the old links plus one per listed grade.
pub proof fn lemma_grades_linked_membership(s: Set<(u64, u64)>, climb_id: u64, gs: Seq<u64>)
    ensures
        forall|k: (u64, u64)| #[trigger]
            grades_linked(s, climb_id, gs).contains(k) <==> (s.contains(k) || (k.0 == climb_id
                && gs.contains(k.1))),
    decreases gs.len(),
{
    if gs.len() > 0 {
        lemma_grades_linked_membership(s, climb_id, gs.drop_last());
        let prev = grades_linked(s, climb_id, gs.drop_last());
        assert(grades_linked(s, climb_id, gs) == prev.insert((climb_id, gs.last())));
        assert forall|k: (u64, u64)| #[trigger]
            grades_linked(s, climb_id, gs).contains(k) implies (s.contains(k) || (k.0 == climb_id
            && gs.contains(k.1))) by {
            if k == (climb_id, gs.last()) {
                assert(gs[gs.len() - 1] == gs.last());
                assert(gs.contains(k.1));
            } else {
                assert(prev.contains(k));
                if !s.contains(k) {
                    assert(gs.drop_last().contains(k.1));
                    let j = choose|j: int| 0 <= j < gs.drop_last().len() && gs.drop_last()[j] == k.1;
                    assert(gs.drop_last()[j] == gs[j]);
                    assert(gs.contains(k.1));
                }
            }
        }
        assert forall|k: (u64, u64)|
            s.contains(k) || (k.0 == climb_id && gs.contains(k.1)) implies #[trigger] grades_linked(
            s,
            climb_id,
            gs,
        ).contains(k) by {
            if s.contains(k) {
                assert(prev.contains(k));
            } else if k != (climb_id, gs.last()) {
                let j = choose|j: int| 0 <= j < gs.len() && gs[j] == k.1;
                if j < gs.len() - 1 {
                    assert(gs.drop_last()[j] == k.1);
                    assert(gs.drop_last().contains(k.1));
                } else {
                    assert(gs.last() == k.1);
                    assert(k == (climb_id, gs.last()));
                }
                assert(prev.contains(k));
            }
        }
    }
}

/// The outcome of `set_climb_grades`: refused while the climb or any listed
/// grade is missing; otherwise every listed grade is linked to the climb,
/// idempotently.
pub open spec fn set_climb_grades_spec(m: StoreModel, climb_id: u64, gs: Seq<u64>) -> (
    StoreModel,
    Result<(), HierarchyError>,
) {
    if !m.climbs.dom().contains(climb_id) || (exists|j: int|
        0 <= j < gs.len() && !m.grades.dom().contains(#[trigger] gs[j])) {
        (m, Err(HierarchyError::ForeignKeyViolation))
    } else {
        (
            StoreModel { climb_grades: grades_linked(m.climb_grades, climb_id, gs), ..m },
            Ok(()),
        )
    }
}

impl Database {
    /// Links a climb to every grade in the list, atomically: if the climb
    /// or any listed grade does not exist, nothing is written.  Grades
    /// already linked, or listed twice, still end up as single rows.
    pub fn set_climb_grades(&mut self, climb_id: u64, grade_ids: Vec<u64>) -> (r: Result<
        (),
        HierarchyError,
    >)
        requires
            old(self).wf(),
        ensures
            final (self).wf(),
            (final (self)@, r) == set_climb_grades_spec(old(self)@, climb_id, grade_ids@),
    {
        if !self.climbs.contains_key(&climb_id) {
            return Err(HierarchyError::ForeignKeyViolation);
        }
        let n = grade_ids.len();
        let mut i: usize = 0;
        while i < n
            invariant
                self.wf(),
                *self == *old(self),
                i <= n,
                n == grade_ids@.len(),
                forall|j: int| 0 <= j < i ==> self@.grades.dom().contains(#[trigger] grade_ids@[j]),
            decreases n - i,
        {
            if !self.grades.contains_key(&grade_ids[i]) {
                return Err(HierarchyError::ForeignKeyViolation);
            }
            i = i + 1;
        }
        let ghost m0 = self@;
        let mut i: usize = 0;
        while i < n
            invariant
                i <= n,
                n == grade_ids@.len(),
                forall|j: int| 0 <= j < n ==> m0.grades.dom().contains(#[trigger] grade_ids@[j]),
                m0.climbs.dom().contains(climb_id),
                m0 == old(self)@,
                self.areas == old(self).areas,
                self.formations == old(self).formations,
                self.climbs == old(self).climbs,
                self.climbers == old(self).climbers,
                self.ascents == old(self).ascents,
                self.grade_types == old(self).grade_types,
                self.grades == old(self).grades,
                self.climb_description_types == old(self).climb_description_types,
                self.climb_descriptions == old(self).climb_descriptions,
                self.area_belongs_to == old(self).area_belongs_to,
                self.formation_belongs_to == old(self).formation_belongs_to,
                self.climb_belongs_to == old(self).climb_belongs_to,
                self.ascent_grades == old(self).ascent_grades,
                self.ascent_parties == old(self).ascent_parties,
                self.climb_variations == old(self).climb_variations,
                self.next_area_id == old(self).next_area_id,
                self.next_formation_id == old(self).next_formation_id,
                self.next_climb_id == old(self).next_climb_id,
                self.next_climber_id == old(self).next_climber_id,
                self.next_ascent_id == old(self).next_ascent_id,
                self.next_grade_type_id == old(self).next_grade_type_id,
                self.next_grade_id == old(self).next_grade_id,
                self.next_climb_description_type_id == old(self).next_climb_description_type_id,
                self.climb_grades.wf(),
                self@ == (StoreModel {
                    climb_grades: grades_linked(m0.climb_grades, climb_id, grade_ids@.take(i as int)),
                    ..m0
                }),
            decreases n - i,
        {
            let gid = grade_ids[i];
            let ghost mprev = self@;
            self.climb_grades.put(ClimbGrade { climb_id, grade_id: gid });
            proof {
                assert(grade_ids@.take(i + 1).drop_last() =~= grade_ids@.take(i as int));
                assert(grade_ids@.take(i + 1).last() == gid);
                assert(self@.climb_grades =~= mprev.climb_grades.insert((climb_id, gid)));
                assert(self@.climb_grades == grades_linked(
                    m0.climb_grades,
                    climb_id,
                    grade_ids@.take(i + 1),
                ));
                assert(self@ == (StoreModel {
                    climb_grades: grades_linked(m0.climb_grades, climb_id, grade_ids@.take(i + 1)),
                    ..m0
                }));
            }
            i = i + 1;
        }
        proof {
            assert(grade_ids@.take(n as int) =~= grade_ids@);
            lemma_grades_linked_membership(m0.climb_grades, climb_id, grade_ids@);
            assert forall|k: (u64, u64)| #[trigger]
                self@.climb_grades.contains(k) implies self@.climbs.dom().contains(k.0)
                && self@.grades.dom().contains(k.1) by {
                if !m0.climb_grades.contains(k) {
                    let j = choose|j: int| 0 <= j < grade_ids@.len() && grade_ids@[j] == k.1;
                }
            }
        }
        Ok(())
    }
}

} // verus!
