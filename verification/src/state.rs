//! The abstract state of the store and its invariant.
//!
//! A [`StoreModel`] is the mathematical value of a whole database: each
//! table abstracted to a map or set over plain values, plus the id counters.
//! [`inv`] is the well-formedness condition the store maintains at all
//! times: referential integrity of every relation, acyclicity of the two
//! containment relations that can nest, and the uniqueness rules.

use crate::forest::acyclic;
use crate::models::{
    Area, AreaBelongsTo, Ascent, AscentDateRange, Climb, ClimbBelongsTo, ClimbDescription,
    ClimbDescriptionType, Climber, Coordinate, Formation, FormationBelongsTo, Grade, GradeType,
    Parent,
};
use vstd::prelude::*;

verus! {

/// The abstract content of a formation row.
pub struct FormationInfo {
    pub names: Seq<Option<Seq<char>>>,
    pub location: Option<Coordinate>,
}

/// The abstract content of a climber row.
pub struct ClimberInfo {
    pub first_name: Seq<char>,
    pub last_name: Seq<char>,
}

/// The abstract content of an ascent row.
pub struct AscentInfo {
    pub climb_id: u64,
    pub ascent_date: Option<AscentDateRange>,
}

/// The abstract content of a grade row.
pub struct GradeInfo {
    pub grade_type_id: u64,
    pub value: Seq<char>,
}

/// The abstract state of the whole store.
pub struct StoreModel {
    pub areas: Map<u64, Seq<Option<Seq<char>>>>,
    pub formations: Map<u64, FormationInfo>,
    pub climbs: Map<u64, Seq<Option<Seq<char>>>>,
    pub climbers: Map<u64, ClimberInfo>,
    pub ascents: Map<u64, AscentInfo>,
    pub grade_types: Map<u64, Seq<char>>,
    pub grades: Map<u64, GradeInfo>,
    pub climb_description_types: Map<u64, Seq<char>>,
    pub climb_descriptions: Map<(u64, u64), Seq<char>>,
    pub area_parent: Map<u64, u64>,
    pub formation_parent: Map<u64, Parent>,
    pub climb_parent: Map<u64, Parent>,
    pub climb_grades: Set<(u64, u64)>,
    pub ascent_grades: Set<(u64, u64)>,
    pub ascent_parties: Set<(u64, u64)>,
    pub climb_variations: Set<(u64, u64)>,
    pub next_area_id: u64,
    pub next_formation_id: u64,
    pub next_climb_id: u64,
    pub next_climber_id: u64,
    pub next_ascent_id: u64,
    pub next_grade_type_id: u64,
    pub next_grade_id: u64,
    pub next_climb_description_type_id: u64,
}

/// The names array of an area or climb row, abstracted.
pub open spec fn names_view(names: Vec<Option<String>>) -> Seq<Option<Seq<char>>> {
    names.deep_view()
}

/// The abstraction of the areas table.
pub open spec fn areas_view(t: Map<u64, Area>) -> Map<u64, Seq<Option<Seq<char>>>> {
    t.map_values(|r: Area| names_view(r.names))
}

/// The abstraction of the formations table.
pub open spec fn formations_view(t: Map<u64, Formation>) -> Map<u64, FormationInfo> {
    t.map_values(|r: Formation| FormationInfo { names: names_view(r.names), location: r.location })
}

/// The abstraction of the climbs table.
pub open spec fn climbs_view(t: Map<u64, Climb>) -> Map<u64, Seq<Option<Seq<char>>>> {
    t.map_values(|r: Climb| names_view(r.names))
}

/// The abstraction of the climbers table.
pub open spec fn climbers_view(t: Map<u64, Climber>) -> Map<u64, ClimberInfo> {
    t.map_values(|r: Climber| ClimberInfo { first_name: r.first_name@, last_name: r.last_name@ })
}

/// The abstraction of the ascents table.
pub open spec fn ascents_view(t: Map<u64, Ascent>) -> Map<u64, AscentInfo> {
    t.map_values(|r: Ascent| AscentInfo { climb_id: r.climb_id, ascent_date: r.ascent_date })
}

/// The abstraction of the grade types table.
pub open spec fn grade_types_view(t: Map<u64, GradeType>) -> Map<u64, Seq<char>> {
    t.map_values(|r: GradeType| r.name@)
}

/// The abstraction of the grades table.
pub open spec fn grades_view(t: Map<u64, Grade>) -> Map<u64, GradeInfo> {
    t.map_values(|r: Grade| GradeInfo { grade_type_id: r.grade_type_id, value: r.value@ })
}

/// The abstraction of the description types table.
pub open spec fn climb_description_types_view(t: Map<u64, ClimbDescriptionType>) -> Map<
    u64,
    Seq<char>,
> {
    t.map_values(|r: ClimbDescriptionType| r.name@)
}

/// The abstraction of the climb descriptions table.
pub open spec fn climb_descriptions_view(t: Map<(u64, u64), ClimbDescription>) -> Map<
    (u64, u64),
    Seq<char>,
> {
    t.map_values(|r: ClimbDescription| r.value@)
}

/// The abstraction of the area containment relation.
pub open spec fn area_parent_view(t: Map<u64, AreaBelongsTo>) -> Map<u64, u64> {
    t.map_values(|r: AreaBelongsTo| r.super_area_id)
}

/// The abstraction of the formation containment relation.
pub open spec fn formation_parent_view(t: Map<u64, FormationBelongsTo>) -> Map<u64, Parent> {
    t.map_values(|r: FormationBelongsTo| r.parent)
}

/// The abstraction of the climb containment relation.
pub open spec fn climb_parent_view(t: Map<u64, ClimbBelongsTo>) -> Map<u64, Parent> {
    t.map_values(|r: ClimbBelongsTo| r.parent)
}

/// The formation-to-formation edges of the formation containment relation;
/// only these can participate in a cycle among formations.
pub open spec fn formation_edges(fp: Map<u64, Parent>) -> Map<u64, u64> {
    Map::new(
        |f: u64| fp.dom().contains(f) && fp[f] is Formation,
        |f: u64| fp[f]->Formation_0,
    )
}

/// Whether some row of the relation `m` carries `v` as its value — that is,
/// whether `v` is referenced as a parent.
pub open spec fn maps_to<V>(m: Map<u64, V>, v: V) -> bool {
    exists|c: u64| #[trigger] m.dom().contains(c) && m[c] == v
}

/// Whether a parent reference points at an existing entity.
pub open spec fn parent_exists(m: StoreModel, p: Parent) -> bool {
    match p {
        Parent::Area(a) => m.areas.dom().contains(a),
        Parent::Formation(f) => m.formations.dom().contains(f),
    }
}

/// Referential integrity and acyclicity of the containment relations.
pub open spec fn hierarchy_inv(m: StoreModel) -> bool {
    &&& acyclic(m.area_parent)
    &&& acyclic(formation_edges(m.formation_parent))
    &&& forall|a: u64| #[trigger]
        m.area_parent.dom().contains(a) ==> m.areas.dom().contains(a) && m.areas.dom().contains(
            m.area_parent[a],
        )
    &&& forall|f: u64| #[trigger]
        m.formation_parent.dom().contains(f) ==> m.formations.dom().contains(f) && parent_exists(
            m,
            m.formation_parent[f],
        )
    &&& forall|c: u64| #[trigger]
        m.climb_parent.dom().contains(c) ==> m.climbs.dom().contains(c) && parent_exists(
            m,
            m.climb_parent[c],
        )
}

/// Referential integrity of the association tables and leaf relations.
pub open spec fn assoc_inv(m: StoreModel) -> bool {
    &&& forall|g: u64| #[trigger]
        m.grades.dom().contains(g) ==> m.grade_types.dom().contains(m.grades[g].grade_type_id)
    &&& forall|k: (u64, u64)| #[trigger]
        m.climb_descriptions.dom().contains(k) ==> m.climbs.dom().contains(k.0)
            && m.climb_description_types.dom().contains(k.1)
    &&& forall|a: u64| #[trigger]
        m.ascents.dom().contains(a) ==> m.climbs.dom().contains(m.ascents[a].climb_id)
    &&& forall|k: (u64, u64)| #[trigger]
        m.climb_grades.contains(k) ==> m.climbs.dom().contains(k.0) && m.grades.dom().contains(k.1)
    &&& forall|k: (u64, u64)| #[trigger]
        m.ascent_grades.contains(k) ==> m.ascents.dom().contains(k.0) && m.grades.dom().contains(
            k.1,
        )
    &&& forall|k: (u64, u64)| #[trigger]
        m.ascent_parties.contains(k) ==> m.ascents.dom().contains(k.0)
            && m.climbers.dom().contains(k.1)
    &&& forall|k: (u64, u64)| #[trigger]
        m.climb_variations.contains(k) ==> m.climbs.dom().contains(k.0) && m.climbs.dom().contains(
            k.1,
        ) && k.0 != k.1
}

/// The uniqueness rules beyond primary keys: grading system names, grade
/// values within a system, and description category names.
pub open spec fn uniq_inv(m: StoreModel) -> bool {
    &&& forall|g1: u64, g2: u64|
        m.grade_types.dom().contains(g1) && m.grade_types.dom().contains(g2) && g1 != g2
            ==> #[trigger] m.grade_types[g1] != #[trigger] m.grade_types[g2]
    &&& forall|g1: u64, g2: u64|
        m.grades.dom().contains(g1) && m.grades.dom().contains(g2) && g1 != g2 && (
        #[trigger] m.grades[g1]).grade_type_id == (#[trigger] m.grades[g2]).grade_type_id
            ==> m.grades[g1].value != m.grades[g2].value
    &&& forall|d1: u64, d2: u64|
        m.climb_description_types.dom().contains(d1) && m.climb_description_types.dom().contains(
            d2,
        ) && d1 != d2 ==> #[trigger] m.climb_description_types[d1]
            != #[trigger] m.climb_description_types[d2]
}

/// Every live id is below its table's counter, so freshly allocated ids are
/// never in use.
pub open spec fn ids_inv(m: StoreModel) -> bool {
    &&& forall|a: u64| #[trigger] m.areas.dom().contains(a) ==> a < m.next_area_id
    &&& forall|f: u64| #[trigger] m.formations.dom().contains(f) ==> f < m.next_formation_id
    &&& forall|c: u64| #[trigger] m.climbs.dom().contains(c) ==> c < m.next_climb_id
    &&& forall|c: u64| #[trigger] m.climbers.dom().contains(c) ==> c < m.next_climber_id
    &&& forall|a: u64| #[trigger] m.ascents.dom().contains(a) ==> a < m.next_ascent_id
    &&& forall|g: u64| #[trigger] m.grade_types.dom().contains(g) ==> g < m.next_grade_type_id
    &&& forall|g: u64| #[trigger] m.grades.dom().contains(g) ==> g < m.next_grade_id
    &&& forall|d: u64| #[trigger]
        m.climb_description_types.dom().contains(d) ==> d < m.next_climb_description_type_id
}

/// The store's global invariant.
pub open spec fn inv(m: StoreModel) -> bool {
    &&& hierarchy_inv(m)
    &&& assoc_inv(m)
    &&& uniq_inv(m)
    &&& ids_inv(m)
}

} // verus!
