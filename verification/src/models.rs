//! Row types of the catalog's relations.
//!
//! Every entity is surrogate-keyed by an integer identifier; names are
//! ordered arrays of optional strings (placeholders allowed, order is
//! display order).  The two relations whose rows may name one of two parent
//! kinds carry a [`Parent`] tag, so that a row with both kinds set, or
//! neither, cannot even be constructed.

use crate::table::Keyed;
use vstd::prelude::*;

verus! {

/// A parent reference: an area or a formation.  Exactly one kind, by
/// construction.
#[derive(Clone, Copy, Debug, PartialEq, Eq, Structural)]
pub enum Parent {
    Area(u64),
    Formation(u64),
}

/// A geographic point, carried opaquely: the coordinates are IEEE-754 bit
/// patterns, never interpreted by the store.
#[derive(Clone, Copy, Debug, PartialEq, Eq)]
pub struct Coordinate {
    pub latitude_bits: u64,
    pub longitude_bits: u64,
    pub srid: Option<u32>,
}

/// A calendar date, carried as plain values.
#[derive(Clone, Copy, Debug, PartialEq, Eq, Structural)]
pub struct Date {
    pub year: i32,
    pub month: u8,
    pub day: u8,
}

/// One end of a (possibly imprecise) date range.
#[derive(Clone, Copy, Debug, PartialEq, Eq)]
pub enum DateBound {
    Included(Date),
    Excluded(Date),
    Unbounded,
}

/// An imprecise date range, e.g. "sometime in summer 1990".
#[derive(Clone, Copy, Debug, PartialEq, Eq)]
pub struct AscentDateRange {
    pub lower: DateBound,
    pub upper: DateBound,
}

/// A key/value pair, as handed in by the API layer for climb descriptions.
#[derive(Clone, Debug, PartialEq, Eq)]
pub struct KVPair {
    pub key: String,
    pub value: String,
}

/// A geographic climbing region.
#[derive(Clone, Debug, PartialEq, Eq)]
pub struct Area {
    pub id: u64,
    pub names: Vec<Option<String>>,
}

/// A physical rock feature (crag, boulder, wall).
#[derive(Clone, Debug, PartialEq, Eq)]
pub struct Formation {
    pub id: u64,
    pub names: Vec<Option<String>>,
    pub location: Option<Coordinate>,
}

/// A single route or problem.
#[derive(Clone, Debug, PartialEq, Eq)]
pub struct Climb {
    pub id: u64,
    pub names: Vec<Option<String>>,
}

/// A person who climbs.
#[derive(Clone, Debug, PartialEq, Eq)]
pub struct Climber {
    pub id: u64,
    pub first_name: String,
    pub last_name: String,
}

/// An ascent of a climb, with an optional imprecise date.
#[derive(Clone, Copy, Debug, PartialEq, Eq)]
pub struct Ascent {
    pub id: u64,
    pub climb_id: u64,
    pub ascent_date: Option<AscentDateRange>,
}

/// A grading system, e.g. "vermin".
#[derive(Clone, Debug, PartialEq, Eq)]
pub struct GradeType {
    pub id: u64,
    pub name: String,
}

/// A graded value, e.g. "V5", scoped to its grading system.
#[derive(Clone, Debug, PartialEq, Eq)]
pub struct Grade {
    pub id: u64,
    pub grade_type_id: u64,
    pub value: String,
}

/// A description category, e.g. "brief".
#[derive(Clone, Debug, PartialEq, Eq)]
pub struct ClimbDescriptionType {
    pub id: u64,
    pub name: String,
}

/// Free-text content of one category for one climb.
#[derive(Clone, Debug, PartialEq, Eq)]
pub struct ClimbDescription {
    pub climb_id: u64,
    pub climb_description_type_id: u64,
    pub value: String,
}

/// An area's parent area; one row per area.
#[derive(Clone, Copy, Debug, PartialEq, Eq)]
pub struct AreaBelongsTo {
    pub area_id: u64,
    pub super_area_id: u64,
}

/// A formation's parent — an area or another formation; one row per
/// formation.
#[derive(Clone, Copy, Debug, PartialEq, Eq)]
pub struct FormationBelongsTo {
    pub formation_id: u64,
    pub parent: Parent,
}

/// A climb's parent — an area or a formation; one row per climb.
#[derive(Clone, Copy, Debug, PartialEq, Eq)]
pub struct ClimbBelongsTo {
    pub climb_id: u64,
    pub parent: Parent,
}

/// A climb-to-grade link.
#[derive(Clone, Copy, Debug, PartialEq, Eq)]
pub struct ClimbGrade {
    pub climb_id: u64,
    pub grade_id: u64,
}

/// An ascent-to-grade link.
#[derive(Clone, Copy, Debug, PartialEq, Eq)]
pub struct AscentGrade {
    pub ascent_id: u64,
    pub grade_id: u64,
}

/// An ascent-to-climber link.
#[derive(Clone, Copy, Debug, PartialEq, Eq)]
pub struct AscentParty {
    pub ascent_id: u64,
    pub climber_id: u64,
}

/// A climb-to-climb variation link.
#[derive(Clone, Copy, Debug, PartialEq, Eq)]
pub struct ClimbVariation {
    pub root_id: u64,
    pub variation_id: u64,
}

impl Keyed for Area {
    type K = u64;

    open spec fn key(self) -> u64 {
        self.id
    }

    fn key_matches(&self, k: &u64) -> bool {
        self.id == *k
    }

    fn same_key(&self, other: &Self) -> bool {
        self.id == other.id
    }
}

impl Keyed for Formation {
    type K = u64;

    open spec fn key(self) -> u64 {
        self.id
    }

    fn key_matches(&self, k: &u64) -> bool {
        self.id == *k
    }

    fn same_key(&self, other: &Self) -> bool {
        self.id == other.id
    }
}

impl Keyed for Climb {
    type K = u64;

    open spec fn key(self) -> u64 {
        self.id
    }

    fn key_matches(&self, k: &u64) -> bool {
        self.id == *k
    }

    fn same_key(&self, other: &Self) -> bool {
        self.id == other.id
    }
}

impl Keyed for Climber {
    type K = u64;

    open spec fn key(self) -> u64 {
        self.id
    }

    fn key_matches(&self, k: &u64) -> bool {
        self.id == *k
    }

    fn same_key(&self, other: &Self) -> bool {
        self.id == other.id
    }
}

impl Keyed for Ascent {
    type K = u64;

    open spec fn key(self) -> u64 {
        self.id
    }

    fn key_matches(&self, k: &u64) -> bool {
        self.id == *k
    }

    fn same_key(&self, other: &Self) -> bool {
        self.id == other.id
    }
}

impl Keyed for GradeType {
    type K = u64;

    open spec fn key(self) -> u64 {
        self.id
    }

    fn key_matches(&self, k: &u64) -> bool {
        self.id == *k
    }

    fn same_key(&self, other: &Self) -> bool {
        self.id == other.id
    }
}

impl Keyed for Grade {
    type K = u64;

    open spec fn key(self) -> u64 {
        self.id
    }

    fn key_matches(&self, k: &u64) -> bool {
        self.id == *k
    }

    fn same_key(&self, other: &Self) -> bool {
        self.id == other.id
    }
}

impl Keyed for ClimbDescriptionType {
    type K = u64;

    open spec fn key(self) -> u64 {
        self.id
    }

    fn key_matches(&self, k: &u64) -> bool {
        self.id == *k
    }

    fn same_key(&self, other: &Self) -> bool {
        self.id == other.id
    }
}

impl Keyed for ClimbDescription {
    type K = (u64, u64);

    open spec fn key(self) -> (u64, u64) {
        (self.climb_id, self.climb_description_type_id)
    }

    fn key_matches(&self, k: &(u64, u64)) -> bool {
        self.climb_id == k.0 && self.climb_description_type_id == k.1
    }

    fn same_key(&self, other: &Self) -> bool {
        self.climb_id == other.climb_id && self.climb_description_type_id
            == other.climb_description_type_id
    }
}

impl Keyed for AreaBelongsTo {
    type K = u64;

    open spec fn key(self) -> u64 {
        self.area_id
    }

    fn key_matches(&self, k: &u64) -> bool {
        self.area_id == *k
    }

    fn same_key(&self, other: &Self) -> bool {
        self.area_id == other.area_id
    }
}

impl Keyed for FormationBelongsTo {
    type K = u64;

    open spec fn key(self) -> u64 {
        self.formation_id
    }

    fn key_matches(&self, k: &u64) -> bool {
        self.formation_id == *k
    }

    fn same_key(&self, other: &Self) -> bool {
        self.formation_id == other.formation_id
    }
}

impl Keyed for ClimbBelongsTo {
    type K = u64;

    open spec fn key(self) -> u64 {
        self.climb_id
    }

    fn key_matches(&self, k: &u64) -> bool {
        self.climb_id == *k
    }

    fn same_key(&self, other: &Self) -> bool {
        self.climb_id == other.climb_id
    }
}

impl Keyed for ClimbGrade {
    type K = (u64, u64);

    open spec fn key(self) -> (u64, u64) {
        (self.climb_id, self.grade_id)
    }

    fn key_matches(&self, k: &(u64, u64)) -> bool {
        self.climb_id == k.0 && self.grade_id == k.1
    }

    fn same_key(&self, other: &Self) -> bool {
        self.climb_id == other.climb_id && self.grade_id == other.grade_id
    }
}

impl Keyed for AscentGrade {
    type K = (u64, u64);

    open spec fn key(self) -> (u64, u64) {
        (self.ascent_id, self.grade_id)
    }

    fn key_matches(&self, k: &(u64, u64)) -> bool {
        self.ascent_id == k.0 && self.grade_id == k.1
    }

    fn same_key(&self, other: &Self) -> bool {
        self.ascent_id == other.ascent_id && self.grade_id == other.grade_id
    }
}

impl Keyed for AscentParty {
    type K = (u64, u64);

    open spec fn key(self) -> (u64, u64) {
        (self.ascent_id, self.climber_id)
    }

    fn key_matches(&self, k: &(u64, u64)) -> bool {
        self.ascent_id == k.0 && self.climber_id == k.1
    }

    fn same_key(&self, other: &Self) -> bool {
        self.ascent_id == other.ascent_id && self.climber_id == other.climber_id
    }
}

impl Keyed for ClimbVariation {
    type K = (u64, u64);

    open spec fn key(self) -> (u64, u64) {
        (self.root_id, self.variation_id)
    }

    fn key_matches(&self, k: &(u64, u64)) -> bool {
        self.root_id == k.0 && self.variation_id == k.1
    }

    fn same_key(&self, other: &Self) -> bool {
        self.root_id == other.root_id && self.variation_id == other.variation_id
    }
}

} // verus!
