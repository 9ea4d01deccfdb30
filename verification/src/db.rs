//! The store itself: tables, abstract view, construction and entity
//! creation.
//!
//! A [`Database`] owns every relation of the catalog.  Its abstract value is
//! a [`StoreModel`]; every operation's contract describes the new model in
//! terms of the old one, and well-formedness ([`Database::wf`]) carries the
//! global invariant [`inv`] across all operations.

use crate::models::{
    Area, AreaBelongsTo, Ascent, AscentGrade, AscentParty, Climb, ClimbBelongsTo, ClimbDescription,
    ClimbDescriptionType, ClimbGrade, ClimbVariation, Climber, Coordinate, Formation,
    FormationBelongsTo, Grade, GradeType, Parent,
};
use crate::models::AscentDateRange;
use crate::state::{
    areas_view, ascents_view, climb_description_types_view, climb_descriptions_view,
    climb_parent_view, climbers_view, climbs_view, formation_edges, formation_parent_view,
    formations_view, grade_types_view, grades_view, area_parent_view, inv, names_view, AscentInfo,
    ClimberInfo, FormationInfo, GradeInfo, StoreModel,
};
use crate::errors::HierarchyError;
use crate::table::Table;
use vstd::prelude::*;

verus! {

/// Pointwise mapping commutes with insertion.
pub proof fn lemma_map_values_insert<K, V, W>(m: Map<K, V>, f: spec_fn(V) -> W, k: K, v: V)
    ensures
        m.insert(k, v).map_values(f) == m.map_values(f).insert(k, f(v)),
{
    assert(m.insert(k, v).map_values(f) =~= m.map_values(f).insert(k, f(v)));
}

/// Pointwise mapping commutes with removal.
pub proof fn lemma_map_values_remove<K, V, W>(m: Map<K, V>, f: spec_fn(V) -> W, k: K)
    ensures
        m.remove(k).map_values(f) == m.map_values(f).remove(k),
{
    assert(m.remove(k).map_values(f) =~= m.map_values(f).remove(k));
}

/// The in-memory relational store of the climbing catalog.
pub struct Database {
    pub(crate) areas: Table<Area>,
    pub(crate) formations: Table<Formation>,
    pub(crate) climbs: Table<Climb>,
    pub(crate) climbers: Table<Climber>,
    pub(crate) ascents: Table<Ascent>,
    pub(crate) grade_types: Table<GradeType>,
    pub(crate) grades: Table<Grade>,
    pub(crate) climb_description_types: Table<ClimbDescriptionType>,
    pub(crate) climb_descriptions: Table<ClimbDescription>,
    pub(crate) area_belongs_to: Table<AreaBelongsTo>,
    pub(crate) formation_belongs_to: Table<FormationBelongsTo>,
    pub(crate) climb_belongs_to: Table<ClimbBelongsTo>,
    pub(crate) climb_grades: Table<ClimbGrade>,
    pub(crate) ascent_grades: Table<AscentGrade>,
    pub(crate) ascent_parties: Table<AscentParty>,
    pub(crate) climb_variations: Table<ClimbVariation>,
    pub(crate) next_area_id: u64,
    pub(crate) next_formation_id: u64,
    pub(crate) next_climb_id: u64,
    pub(crate) next_climber_id: u64,
    pub(crate) next_ascent_id: u64,
    pub(crate) next_grade_type_id: u64,
    pub(crate) next_grade_id: u64,
    pub(crate) next_climb_description_type_id: u64,
}

impl View for Database {
    type V = StoreModel;

    open(crate) spec fn view(&self) -> StoreModel {
        StoreModel {
            areas: areas_view(self.areas@),
            formations: formations_view(self.formations@),
            climbs: climbs_view(self.climbs@),
            climbers: climbers_view(self.climbers@),
            ascents: ascents_view(self.ascents@),
            grade_types: grade_types_view(self.grade_types@),
            grades: grades_view(self.grades@),
            climb_description_types: climb_description_types_view(self.climb_description_types@),
            climb_descriptions: climb_descriptions_view(self.climb_descriptions@),
            area_parent: area_parent_view(self.area_belongs_to@),
            formation_parent: formation_parent_view(self.formation_belongs_to@),
            climb_parent: climb_parent_view(self.climb_belongs_to@),
            climb_grades: self.climb_grades@.dom(),
            ascent_grades: self.ascent_grades@.dom(),
            ascent_parties: self.ascent_parties@.dom(),
            climb_variations: self.climb_variations@.dom(),
            next_area_id: self.next_area_id,
            next_formation_id: self.next_formation_id,
            next_climb_id: self.next_climb_id,
            next_climber_id: self.next_climber_id,
            next_ascent_id: self.next_ascent_id,
            next_grade_type_id: self.next_grade_type_id,
            next_grade_id: self.next_grade_id,
            next_climb_description_type_id: self.next_climb_description_type_id,
        }
    }
}

impl Database {
    /// Every table is keyed consistently and the global invariant holds of
    /// the abstract state.
    pub open(crate) spec fn wf(self) -> bool {
        &&& self.areas.wf()
        &&& self.formations.wf()
        &&& self.climbs.wf()
        &&& self.climbers.wf()
        &&& self.ascents.wf()
        &&& self.grade_types.wf()
        &&& self.grades.wf()
        &&& self.climb_description_types.wf()
        &&& self.climb_descriptions.wf()
        &&& self.area_belongs_to.wf()
        &&& self.formation_belongs_to.wf()
        &&& self.climb_belongs_to.wf()
        &&& self.climb_grades.wf()
        &&& self.ascent_grades.wf()
        &&& self.ascent_parties.wf()
        &&& self.climb_variations.wf()
        &&& inv(self@)
    }

    /// An initialized store: empty but for the seed rows — the "vermin"
    /// grading system and the "brief", "desc" and "hist" description
    /// categories.
    pub fn new() -> (d: Database)
        ensures
            d.wf(),
            d@.areas == Map::<u64, Seq<Option<Seq<char>>>>::empty(),
            d@.formations == Map::<u64, FormationInfo>::empty(),
            d@.climbs == Map::<u64, Seq<Option<Seq<char>>>>::empty(),
            d@.climbers == Map::<u64, ClimberInfo>::empty(),
            d@.ascents == Map::<u64, AscentInfo>::empty(),
            d@.grades == Map::<u64, GradeInfo>::empty(),
            d@.climb_descriptions == Map::<(u64, u64), Seq<char>>::empty(),
            d@.area_parent == Map::<u64, u64>::empty(),
            d@.formation_parent == Map::<u64, Parent>::empty(),
            d@.climb_parent == Map::<u64, Parent>::empty(),
            d@.climb_grades == Set::<(u64, u64)>::empty(),
            d@.ascent_grades == Set::<(u64, u64)>::empty(),
            d@.ascent_parties == Set::<(u64, u64)>::empty(),
            d@.climb_variations == Set::<(u64, u64)>::empty(),
            d@.grade_types == map![1u64 => "vermin"@],
            d@.climb_description_types == map![1u64 => "brief"@, 2u64 => "desc"@, 3u64 => "hist"@],
            d@.next_area_id == 1,
            d@.next_formation_id == 1,
            d@.next_climb_id == 1,
            d@.next_climber_id == 1,
            d@.next_ascent_id == 1,
            d@.next_grade_type_id == 2,
            d@.next_grade_id == 1,
            d@.next_climb_description_type_id == 4,
    {
        let mut grade_types: Table<GradeType> = Table::new();
        grade_types.put(GradeType { id: 1, name: vermin_name() });
        let mut climb_description_types: Table<ClimbDescriptionType> = Table::new();
        climb_description_types.put(ClimbDescriptionType { id: 1, name: brief_name() });
        climb_description_types.put(ClimbDescriptionType { id: 2, name: desc_name() });
        climb_description_types.put(ClimbDescriptionType { id: 3, name: hist_name() });
        let d = Database {
            areas: Table::new(),
            formations: Table::new(),
            climbs: Table::new(),
            climbers: Table::new(),
            ascents: Table::new(),
            grade_types,
            grades: Table::new(),
            climb_description_types,
            climb_descriptions: Table::new(),
            area_belongs_to: Table::new(),
            formation_belongs_to: Table::new(),
            climb_belongs_to: Table::new(),
            climb_grades: Table::new(),
            ascent_grades: Table::new(),
            ascent_parties: Table::new(),
            climb_variations: Table::new(),
            next_area_id: 1,
            next_formation_id: 1,
            next_climb_id: 1,
            next_climber_id: 1,
            next_ascent_id: 1,
            next_grade_type_id: 2,
            next_grade_id: 1,
            next_climb_description_type_id: 4,
        };
        proof {
            broadcast use vstd::string::group_string_axioms;

            reveal_strlit("vermin");
            reveal_strlit("brief");
            reveal_strlit("desc");
            reveal_strlit("hist");
            assert(d@.grade_types =~= map![1u64 => "vermin"@]);
            assert(d@.climb_description_types =~= map![
                1u64 => "brief"@,
                2u64 => "desc"@,
                3u64 => "hist"@,
            ]);
            assert(d@.areas =~= Map::<u64, Seq<Option<Seq<char>>>>::empty());
            assert(d@.formations =~= Map::<u64, FormationInfo>::empty());
            assert(d@.climbs =~= Map::<u64, Seq<Option<Seq<char>>>>::empty());
            assert(d@.climbers =~= Map::<u64, ClimberInfo>::empty());
            assert(d@.ascents =~= Map::<u64, AscentInfo>::empty());
            assert(d@.grades =~= Map::<u64, GradeInfo>::empty());
            assert(d@.climb_descriptions =~= Map::<(u64, u64), Seq<char>>::empty());
            assert(d@.area_parent =~= Map::<u64, u64>::empty());
            assert(d@.formation_parent =~= Map::<u64, Parent>::empty());
            assert(d@.climb_parent =~= Map::<u64, Parent>::empty());
            assert(d@.climb_grades =~= Set::<(u64, u64)>::empty());
            assert(d@.ascent_grades =~= Set::<(u64, u64)>::empty());
            assert(d@.ascent_parties =~= Set::<(u64, u64)>::empty());
            assert(d@.climb_variations =~= Set::<(u64, u64)>::empty());
            assert(crate::forest::acyclic(d@.area_parent)) by {
                crate::forest::lemma_acyclic_empty(d@.area_parent);
            }
            assert(formation_edges(d@.formation_parent) =~= Map::<u64, u64>::empty());
            assert(crate::forest::acyclic(formation_edges(d@.formation_parent))) by {
                crate::forest::lemma_acyclic_empty(formation_edges(d@.formation_parent));
            }
            assert("brief"@.len() == 5 && "desc"@.len() == 4 && "hist"@.len() == 4);
            assert("brief"@ != "desc"@ && "brief"@ != "hist"@);
            assert("desc"@[0] == 'd' && "hist"@[0] == 'h');
            assert("desc"@ != "hist"@);
            assert(crate::state::hierarchy_inv(d@));
            assert(crate::state::assoc_inv(d@));
            assert(crate::state::uniq_inv(d@));
            assert(crate::state::ids_inv(d@));
        }
        d
    }

    /// Creates an area with the given name array and no parent; returns the
    /// fresh id.
    pub fn create_area(&mut self, names: Vec<Option<String>>) -> (id: u64)
        requires
            old(self).wf(),
            old(self)@.next_area_id < u64::MAX,
        ensures
            final (self).wf(),
            id == old(self)@.next_area_id,
            !old(self)@.areas.dom().contains(id),
            final (self)@ == (StoreModel {
                areas: old(self)@.areas.insert(id, names.deep_view()),
                next_area_id: (id + 1) as u64,
                ..old(self)@
            }),
    {
        let id = self.next_area_id;
        self.next_area_id = id + 1;
        let ghost t0 = self.areas@;
        self.areas.put(Area { id, names });
        proof {
            lemma_map_values_insert(
                t0,
                |r: Area| names_view(r.names),
                id,
                Area { id, names: names },
            );
            assert(self@.areas =~= old(self)@.areas.insert(id, names.deep_view()));
        }
        id
    }

    /// Creates a formation with the given name array and optional location,
    /// and no parent; returns the fresh id.
    pub fn create_formation(
        &mut self,
        names: Vec<Option<String>>,
        location: Option<Coordinate>,
    ) -> (id: u64)
        requires
            old(self).wf(),
            old(self)@.next_formation_id < u64::MAX,
        ensures
            final (self).wf(),
            id == old(self)@.next_formation_id,
            !old(self)@.formations.dom().contains(id),
            final (self)@ == (StoreModel {
                formations: old(self)@.formations.insert(
                    id,
                    FormationInfo { names: names.deep_view(), location },
                ),
                next_formation_id: (id + 1) as u64,
                ..old(self)@
            }),
    {
        let id = self.next_formation_id;
        self.next_formation_id = id + 1;
        let ghost t0 = self.formations@;
        self.formations.put(Formation { id, names, location });
        proof {
            lemma_map_values_insert(
                t0,
                |r: Formation| FormationInfo { names: names_view(r.names), location: r.location },
                id,
                Formation { id, names: names, location },
            );
            assert(self@.formations =~= old(self)@.formations.insert(
                id,
                FormationInfo { names: names.deep_view(), location },
            ));
        }
        id
    }

    /// Creates a climb with the given name array and no parent; returns the
    /// fresh id.
    pub fn create_climb(&mut self, names: Vec<Option<String>>) -> (id: u64)
        requires
            old(self).wf(),
            old(self)@.next_climb_id < u64::MAX,
        ensures
            final (self).wf(),
            id == old(self)@.next_climb_id,
            !old(self)@.climbs.dom().contains(id),
            final (self)@ == (StoreModel {
                climbs: old(self)@.climbs.insert(id, names.deep_view()),
                next_climb_id: (id + 1) as u64,
                ..old(self)@
            }),
    {
        let id = self.next_climb_id;
        self.next_climb_id = id + 1;
        let ghost t0 = self.climbs@;
        self.climbs.put(Climb { id, names });
        proof {
            lemma_map_values_insert(
                t0,
                |r: Climb| names_view(r.names),
                id,
                Climb { id, names: names },
            );
            assert(self@.climbs =~= old(self)@.climbs.insert(id, names.deep_view()));
        }
        id
    }

    /// Creates a climber; returns the fresh id.
    pub fn create_climber(&mut self, first_name: String, last_name: String) -> (id: u64)
        requires
            old(self).wf(),
            old(self)@.next_climber_id < u64::MAX,
        ensures
            final (self).wf(),
            id == old(self)@.next_climber_id,
            !old(self)@.climbers.dom().contains(id),
            final (self)@ == (StoreModel {
                climbers: old(self)@.climbers.insert(
                    id,
                    ClimberInfo { first_name: first_name@, last_name: last_name@ },
                ),
                next_climber_id: (id + 1) as u64,
                ..old(self)@
            }),
    {
        let id = self.next_climber_id;
        self.next_climber_id = id + 1;
        let ghost t0 = self.climbers@;
        let ghost fv = first_name@;
        let ghost lv = last_name@;
        self.climbers.put(Climber { id, first_name, last_name });
        proof {
            lemma_map_values_insert(
                t0,
                |r: Climber| ClimberInfo { first_name: r.first_name@, last_name: r.last_name@ },
                id,
                Climber { id, first_name: first_name, last_name: last_name },
            );
            assert(self@.climbers =~= old(self)@.climbers.insert(
                id,
                ClimberInfo { first_name: fv, last_name: lv },
            ));
        }
        id
    }
}

impl Database {
    /// Records an ascent of a climb, with an optional imprecise date;
    /// returns the fresh id.  The climb must exist.
    pub fn add_ascent(&mut self, climb_id: u64, ascent_date: Option<AscentDateRange>) -> (r:
        Result<u64, HierarchyError>)
        requires
            old(self).wf(),
            old(self)@.next_ascent_id < u64::MAX,
        ensures
            final (self).wf(),
            if old(self)@.climbs.dom().contains(climb_id) {
                r == Ok::<u64, HierarchyError>(old(self)@.next_ascent_id) && final (self)@
                    == (StoreModel {
                    ascents: old(self)@.ascents.insert(
                        old(self)@.next_ascent_id,
                        AscentInfo { climb_id, ascent_date },
                    ),
                    next_ascent_id: (old(self)@.next_ascent_id + 1) as u64,
                    ..old(self)@
                })
            } else {
                final (self)@ == old(self)@ && r == Err::<u64, HierarchyError>(
                    HierarchyError::ForeignKeyViolation,
                )
            },
    {
        if !self.climbs.contains_key(&climb_id) {
            return Err(HierarchyError::ForeignKeyViolation);
        }
        let id = self.next_ascent_id;
        self.next_ascent_id = id + 1;
        let ghost m0 = self@;
        self.ascents.put(Ascent { id, climb_id, ascent_date });
        proof {
            assert(self@.ascents =~= m0.ascents.insert(id, AscentInfo { climb_id, ascent_date }));
        }
        Ok(id)
    }
}

/// The seed name of the default grading system.
fn vermin_name() -> (s: String)
    ensures
        (s@ == "vermin"@),
{
    let s: &str = "vermin";
    s.to_owned()
}

/// The seed name of the one-line description category.
fn brief_name() -> (s: String)
    ensures
        (s@ == "brief"@),
{
    let s: &str = "brief";
    s.to_owned()
}

/// The seed name of the full description category.
fn desc_name() -> (s: String)
    ensures
        (s@ == "desc"@),
{
    let s: &str = "desc";
    s.to_owned()
}

/// The seed name of the history description category.
fn hist_name() -> (s: String)
    ensures
        (s@ == "hist"@),
{
    let s: &str = "hist";
    s.to_owned()
}

} // verus!
