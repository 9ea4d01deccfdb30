//! The read side of the store: row lookup, children, filtered listings and
//! ancestor chains.
//!
//! Every getter's contract ties its result to the abstract state: lookups
//! return exactly the model's entry, listings return exactly the matching
//! keys (each once), and an ancestor walk returns the full parent chain up
//! to a root.

use crate::db::Database;
use crate::models::{
    Area, Ascent, Climb, ClimbDescriptionType, Climber, Coordinate, Formation, Grade, GradeType,
    KVPair, Parent,
};
use crate::forest::{lemma_chain_bounded, pstep};
use crate::state::{formation_edges, StoreModel};
use crate::table::Keyed;
use vstd::prelude::*;

verus! {

/// The parent of a containment node, given the two containment relations:
/// areas are parented by areas, formations by areas or formations.
pub open spec fn parent_step(ap: Map<u64, u64>, fp: Map<u64, Parent>, n: Parent) -> Option<
    Parent,
> {
    match n {
        Parent::Area(a) => if ap.dom().contains(a) {
            Some(Parent::Area(ap[a]))
        } else {
            None
        },
        Parent::Formation(f) => if fp.dom().contains(f) {
            Some(fp[f])
        } else {
            None
        },
    }
}

/// The parent of a containment node in the store's abstract state.
pub open spec fn node_parent(m: StoreModel, n: Parent) -> Option<Parent> {
    parent_step(m.area_parent, m.formation_parent, n)
}

/// A sequence is the full ancestor chain hanging off `first`: each entry is
/// the parent of the one before, and the last has no parent.
pub open spec fn is_ancestor_chain(m: StoreModel, first: Option<Parent>, r: Seq<Parent>) -> bool {
    &&& (r.len() == 0) == (first is None)
    &&& r.len() > 0 ==> first == Some(r[0])
    &&& forall|i: int| 1 <= i < r.len() ==> node_parent(m, r[i - 1]) == Some(#[trigger] r[i])
    &&& r.len() > 0 ==> node_parent(m, r[r.len() - 1]) is None
}

/// Whether the store holds `value` as the description of `climb_id` under
/// a category named `key`.
pub open spec fn has_description(m: StoreModel, climb_id: u64, key: Seq<char>, value: Seq<char>) -> bool {
    exists|t: u64| #[trigger]
        m.climb_descriptions.dom().contains((climb_id, t)) && m.climb_description_types[t] == key
            && m.climb_descriptions[(climb_id, t)] == value
}

/// Whether the list holds an entry with the given key and value.
pub open spec fn lists_pair(r: Seq<KVPair>, key: Seq<char>, value: Seq<char>) -> bool {
    exists|j: int| 0 <= j < r.len() && (#[trigger] r[j]).key@ == key && r[j].value@ == value
}

/// A name array flattened for display: the present entries, in order.
pub open spec fn flatten_names(names: Seq<Option<Seq<char>>>) -> Seq<Seq<char>>
    decreases names.len(),
{
    if names.len() == 0 {
        Seq::empty()
    } else {
        let prev = flatten_names(names.drop_last());
        match names.last() {
            Some(n) => prev.push(n),
            None => prev,
        }
    }
}

/// The present entries of a name array, cloned in order.
fn flatten_name_vec(names: &Vec<Option<String>>) -> (out: Vec<String>)
    ensures
        out.deep_view() == flatten_names(names.deep_view()),
{
    let ghost orig = names.deep_view();
    let mut out: Vec<String> = Vec::new();
    let n = names.len();
    let mut i: usize = 0;
    while i < n
        invariant
            i <= n,
            n == names@.len(),
            orig == names.deep_view(),
            out.deep_view() == flatten_names(orig.take(i as int)),
        decreases n - i,
    {
        let ghost out_before = out.deep_view();
        proof {
            assert(orig.take(i + 1).drop_last() =~= orig.take(i as int));
            assert(orig.take(i + 1).last() == orig[i as int]);
            assert(orig[i as int] == names@[i as int].deep_view());
        }
        match &names[i] {
            Some(s) => {
                out.push(s.clone());
                proof {
                    assert(out.deep_view() =~= out_before.push(s@));
                }
            },
            None => {},
        }
        i = i + 1;
    }
    proof {
        assert(orig.take(n as int) =~= orig);
    }
    out
}

/// Whether the id list already contains `x`.
fn id_list_contains(v: &Vec<u64>, x: u64) -> (b: bool)
    ensures
        b == v@.contains(x),
{
    let n = v.len();
    let mut i: usize = 0;
    while i < n
        invariant
            i <= n,
            n == v@.len(),
            forall|j: int| 0 <= j < i ==> v@[j] != x,
        decreases n - i,
    {
        if v[i] == x {
            return true;
        }
        i = i + 1;
    }
    false
}

impl Database {
    /// The area row with the given id, if any.
    pub fn get_area(&self, id: u64) -> (r: Option<&Area>)
        requires
            self.wf(),
        ensures
            match r {
                Some(row) => self@.areas.dom().contains(id) && row.id == id && row.names.deep_view() == self@.areas[id],
                None => !self@.areas.dom().contains(id),
            },
    {
        self.areas.get(&id)
    }

    /// The formation row with the given id, if any.
    pub fn get_formation(&self, id: u64) -> (r: Option<&Formation>)
        requires
            self.wf(),
        ensures
            match r {
                Some(row) => self@.formations.dom().contains(id) && row.id == id && row.names.deep_view() == self@.formations[id].names && row.location == self@.formations[id].location,
                None => !self@.formations.dom().contains(id),
            },
    {
        self.formations.get(&id)
    }

    /// The climb row with the given id, if any.
    pub fn get_climb(&self, id: u64) -> (r: Option<&Climb>)
        requires
            self.wf(),
        ensures
            match r {
                Some(row) => self@.climbs.dom().contains(id) && row.id == id && row.names.deep_view() == self@.climbs[id],
                None => !self@.climbs.dom().contains(id),
            },
    {
        self.climbs.get(&id)
    }

    /// The climber row with the given id, if any.
    pub fn get_climber(&self, id: u64) -> (r: Option<&Climber>)
        requires
            self.wf(),
        ensures
            match r {
                Some(row) => self@.climbers.dom().contains(id) && row.id == id && row.first_name@ == self@.climbers[id].first_name && row.last_name@ == self@.climbers[id].last_name,
                None => !self@.climbers.dom().contains(id),
            },
    {
        self.climbers.get(&id)
    }

    /// The ascent row with the given id, if any.
    pub fn get_ascent(&self, id: u64) -> (r: Option<&Ascent>)
        requires
            self.wf(),
        ensures
            match r {
                Some(row) => self@.ascents.dom().contains(id) && row.id == id && row.climb_id == self@.ascents[id].climb_id && row.ascent_date == self@.ascents[id].ascent_date,
                None => !self@.ascents.dom().contains(id),
            },
    {
        self.ascents.get(&id)
    }

    /// The grading system row with the given id, if any.
    pub fn get_grade_type(&self, id: u64) -> (r: Option<&GradeType>)
        requires
            self.wf(),
        ensures
            match r {
                Some(row) => self@.grade_types.dom().contains(id) && row.id == id && row.name@ == self@.grade_types[id],
                None => !self@.grade_types.dom().contains(id),
            },
    {
        self.grade_types.get(&id)
    }

    /// The grade row with the given id, if any.
    pub fn get_grade(&self, id: u64) -> (r: Option<&Grade>)
        requires
            self.wf(),
        ensures
            match r {
                Some(row) => self@.grades.dom().contains(id) && row.id == id && row.grade_type_id == self@.grades[id].grade_type_id && row.value@ == self@.grades[id].value,
                None => !self@.grades.dom().contains(id),
            },
    {
        self.grades.get(&id)
    }

    /// The description category row with the given id, if any.
    pub fn get_climb_description_type(&self, id: u64) -> (r: Option<&ClimbDescriptionType>)
        requires
            self.wf(),
        ensures
            match r {
                Some(row) => self@.climb_description_types.dom().contains(id) && row.id == id && row.name@ == self@.climb_description_types[id],
                None => !self@.climb_description_types.dom().contains(id),
            },
    {
        self.climb_description_types.get(&id)
    }

    /// The number of area rows.
    pub fn area_count(&self) -> (n: usize)
        requires
            self.wf(),
        ensures
            n == self@.areas.dom().len(),
    {
        proof {
            self.areas.lemma_view();
            assert(self@.areas.dom() =~= self.areas@.dom());
        }
        self.areas.len()
    }

    /// The number of formation rows.
    pub fn formation_count(&self) -> (n: usize)
        requires
            self.wf(),
        ensures
            n == self@.formations.dom().len(),
    {
        proof {
            self.formations.lemma_view();
            assert(self@.formations.dom() =~= self.formations@.dom());
        }
        self.formations.len()
    }

    /// The number of climb rows.
    pub fn climb_count(&self) -> (n: usize)
        requires
            self.wf(),
        ensures
            n == self@.climbs.dom().len(),
    {
        proof {
            self.climbs.lemma_view();
            assert(self@.climbs.dom() =~= self.climbs@.dom());
        }
        self.climbs.len()
    }

    /// The number of climber rows.
    pub fn climber_count(&self) -> (n: usize)
        requires
            self.wf(),
        ensures
            n == self@.climbers.dom().len(),
    {
        proof {
            self.climbers.lemma_view();
            assert(self@.climbers.dom() =~= self.climbers@.dom());
        }
        self.climbers.len()
    }

    /// The number of ascent rows.
    pub fn ascent_count(&self) -> (n: usize)
        requires
            self.wf(),
        ensures
            n == self@.ascents.dom().len(),
    {
        proof {
            self.ascents.lemma_view();
            assert(self@.ascents.dom() =~= self.ascents@.dom());
        }
        self.ascents.len()
    }

    /// The number of grading system rows.
    pub fn grade_type_count(&self) -> (n: usize)
        requires
            self.wf(),
        ensures
            n == self@.grade_types.dom().len(),
    {
        proof {
            self.grade_types.lemma_view();
            assert(self@.grade_types.dom() =~= self.grade_types@.dom());
        }
        self.grade_types.len()
    }

    /// The number of grade rows.
    pub fn grade_count(&self) -> (n: usize)
        requires
            self.wf(),
        ensures
            n == self@.grades.dom().len(),
    {
        proof {
            self.grades.lemma_view();
            assert(self@.grades.dom() =~= self.grades@.dom());
        }
        self.grades.len()
    }

    /// The number of description category rows.
    pub fn climb_description_type_count(&self) -> (n: usize)
        requires
            self.wf(),
        ensures
            n == self@.climb_description_types.dom().len(),
    {
        proof {
            self.climb_description_types.lemma_view();
            assert(self@.climb_description_types.dom() =~= self.climb_description_types@.dom());
        }
        self.climb_description_types.len()
    }

    /// The number of climb description rows.
    pub fn climb_description_count(&self) -> (n: usize)
        requires
            self.wf(),
        ensures
            n == self@.climb_descriptions.dom().len(),
    {
        proof {
            self.climb_descriptions.lemma_view();
            assert(self@.climb_descriptions.dom() =~= self.climb_descriptions@.dom());
        }
        self.climb_descriptions.len()
    }

    /// The number of area containment rows.
    pub fn area_belongs_to_count(&self) -> (n: usize)
        requires
            self.wf(),
        ensures
            n == self@.area_parent.dom().len(),
    {
        proof {
            self.area_belongs_to.lemma_view();
            assert(self@.area_parent.dom() =~= self.area_belongs_to@.dom());
        }
        self.area_belongs_to.len()
    }

    /// The number of formation containment rows.
    pub fn formation_belongs_to_count(&self) -> (n: usize)
        requires
            self.wf(),
        ensures
            n == self@.formation_parent.dom().len(),
    {
        proof {
            self.formation_belongs_to.lemma_view();
            assert(self@.formation_parent.dom() =~= self.formation_belongs_to@.dom());
        }
        self.formation_belongs_to.len()
    }

    /// The number of climb containment rows.
    pub fn climb_belongs_to_count(&self) -> (n: usize)
        requires
            self.wf(),
        ensures
            n == self@.climb_parent.dom().len(),
    {
        proof {
            self.climb_belongs_to.lemma_view();
            assert(self@.climb_parent.dom() =~= self.climb_belongs_to@.dom());
        }
        self.climb_belongs_to.len()
    }

    /// The number of climb-to-grade link rows.
    pub fn climb_grade_count(&self) -> (n: usize)
        requires
            self.wf(),
        ensures
            n == self@.climb_grades.len(),
    {
        proof {
            self.climb_grades.lemma_view();
        }
        self.climb_grades.len()
    }

    /// The number of ascent-to-grade link rows.
    pub fn ascent_grade_count(&self) -> (n: usize)
        requires
            self.wf(),
        ensures
            n == self@.ascent_grades.len(),
    {
        proof {
            self.ascent_grades.lemma_view();
        }
        self.ascent_grades.len()
    }

    /// The number of ascent-to-climber link rows.
    pub fn ascent_party_count(&self) -> (n: usize)
        requires
            self.wf(),
        ensures
            n == self@.ascent_parties.len(),
    {
        proof {
            self.ascent_parties.lemma_view();
        }
        self.ascent_parties.len()
    }

    /// The number of climb variation link rows.
    pub fn climb_variation_count(&self) -> (n: usize)
        requires
            self.wf(),
        ensures
            n == self@.climb_variations.len(),
    {
        proof {
            self.climb_variations.lemma_view();
        }
        self.climb_variations.len()
    }

    /// The areas directly parented to the given area.
    pub fn sub_areas(&self, id: u64) -> (r: Vec<u64>)
        requires
            self.wf(),
        ensures
            forall|c: u64| r@.contains(c) <==> (#[trigger] self@.area_parent.dom().contains(c)
                && self@.area_parent[c] == id),
            forall|q1: int, q2: int| 0 <= q1 < q2 < r@.len() ==> #[trigger] r@[q1] != #[trigger] r@[q2],
    {
        let mut r: Vec<u64> = Vec::new();
        let n = self.area_belongs_to.len();
        let mut i: usize = 0;
        while i < n
            invariant
                self.wf(),
                i <= n,
                n == self.area_belongs_to.seq().len(),
                forall|q: int| 0 <= q < r@.len() ==> self.area_belongs_to@.dom().contains(#[trigger] r@[q])
                    && self.area_belongs_to@[r@[q]].super_area_id == id,
                forall|p: int| 0 <= p < i && self.area_belongs_to.seq()[p].super_area_id == id
                    ==> r@.contains(#[trigger] self.area_belongs_to.seq()[p].key()),
                forall|q1: int, q2: int| 0 <= q1 < q2 < r@.len() ==> #[trigger] r@[q1] != #[trigger] r@[q2],
            decreases n - i,
        {
            let ghost r0 = r@;
            let row = self.area_belongs_to.row_at(i);
            proof {
                self.area_belongs_to.lemma_view();
                assert(self.area_belongs_to.seq()[i as int].key() == row.area_id);
                assert(self.area_belongs_to@.dom().contains(row.area_id));
                assert(self.area_belongs_to@[row.area_id] == *row);
            }
            if (row.super_area_id == id) && !id_list_contains(&r, row.area_id) {
                r.push(row.area_id);
                proof {
                    assert(forall|q: int| 0 <= q < r0.len() ==> #[trigger] r@[q] == r0[q]);
                    assert(r@[r0.len() as int] == row.area_id);
                    assert forall|q1: int, q2: int|
                        0 <= q1 < q2 < r@.len() implies #[trigger] r@[q1] != #[trigger] r@[q2] by {
                        if q2 == r0.len() as int && r@[q1] == r@[q2] {
                            assert(r0[q1] == row.area_id);
                            assert(r0.contains(row.area_id));
                            assert(false);
                        }
                    }
                }
            }
            proof {
                assert forall|p: int|
                    0 <= p < i + 1 && self.area_belongs_to.seq()[p].super_area_id == id implies r@.contains(
                    #[trigger] self.area_belongs_to.seq()[p].key(),
                ) by {
                    if p < i {
                        assert(r0.contains(self.area_belongs_to.seq()[p].key()));
                        let q = choose|q: int|
                            0 <= q < r0.len() && r0[q] == self.area_belongs_to.seq()[p].key();
                        assert(r@[q] == self.area_belongs_to.seq()[p].key());
                    } else {
                        if r0.contains(row.area_id) {
                            let q = choose|q: int| 0 <= q < r0.len() && r0[q] == row.area_id;
                            assert(r@[q] == row.area_id);
                        } else {
                            assert(r@[r0.len() as int] == row.area_id);
                        }
                    }
                }
            }
            i = i + 1;
        }
        proof {
            self.area_belongs_to.lemma_view();
            assert forall|c: u64|
                r@.contains(c) <==> (#[trigger] self@.area_parent.dom().contains(c)
                    && self@.area_parent[c] == id) by {
                if r@.contains(c) {
                    let q = choose|q: int| 0 <= q < r@.len() && r@[q] == c;
                    assert(self.area_belongs_to@.dom().contains(c));
                    assert(self.area_belongs_to@[c].super_area_id == id);
                } else {
                    if self@.area_parent.dom().contains(c) && self@.area_parent[c] == id {
                        let p = choose|p: int|
                            0 <= p < self.area_belongs_to.seq().len() && self.area_belongs_to.seq()[p].key() == c;
                        assert(self.area_belongs_to@[c] == self.area_belongs_to.seq()[p]);
                        assert(self.area_belongs_to.seq()[p].super_area_id == id);
                        assert(r@.contains(self.area_belongs_to.seq()[p].key()));
                        assert(false);
                    }
                }
            }
        }
        r
    }

    /// The formations directly parented to the given node.
    pub fn formations_with_parent(&self, parent: Parent) -> (r: Vec<u64>)
        requires
            self.wf(),
        ensures
            forall|c: u64| r@.contains(c) <==> (#[trigger] self@.formation_parent.dom().contains(c)
                && self@.formation_parent[c] == parent),
            forall|q1: int, q2: int| 0 <= q1 < q2 < r@.len() ==> #[trigger] r@[q1] != #[trigger] r@[q2],
    {
        let mut r: Vec<u64> = Vec::new();
        let n = self.formation_belongs_to.len();
        let mut i: usize = 0;
        while i < n
            invariant
                self.wf(),
                i <= n,
                n == self.formation_belongs_to.seq().len(),
                forall|q: int| 0 <= q < r@.len() ==> self.formation_belongs_to@.dom().contains(#[trigger] r@[q])
                    && self.formation_belongs_to@[r@[q]].parent == parent,
                forall|p: int| 0 <= p < i && self.formation_belongs_to.seq()[p].parent == parent
                    ==> r@.contains(#[trigger] self.formation_belongs_to.seq()[p].key()),
                forall|q1: int, q2: int| 0 <= q1 < q2 < r@.len() ==> #[trigger] r@[q1] != #[trigger] r@[q2],
            decreases n - i,
        {
            let ghost r0 = r@;
            let row = self.formation_belongs_to.row_at(i);
            proof {
                self.formation_belongs_to.lemma_view();
                assert(self.formation_belongs_to.seq()[i as int].key() == row.formation_id);
                assert(self.formation_belongs_to@.dom().contains(row.formation_id));
                assert(self.formation_belongs_to@[row.formation_id] == *row);
            }
            if (row.parent == parent) && !id_list_contains(&r, row.formation_id) {
                r.push(row.formation_id);
                proof {
                    assert(forall|q: int| 0 <= q < r0.len() ==> #[trigger] r@[q] == r0[q]);
                    assert(r@[r0.len() as int] == row.formation_id);
                    assert forall|q1: int, q2: int|
                        0 <= q1 < q2 < r@.len() implies #[trigger] r@[q1] != #[trigger] r@[q2] by {
                        if q2 == r0.len() as int && r@[q1] == r@[q2] {
                            assert(r0[q1] == row.formation_id);
                            assert(r0.contains(row.formation_id));
                            assert(false);
                        }
                    }
                }
            }
            proof {
                assert forall|p: int|
                    0 <= p < i + 1 && self.formation_belongs_to.seq()[p].parent == parent implies r@.contains(
                    #[trigger] self.formation_belongs_to.seq()[p].key(),
                ) by {
                    if p < i {
                        assert(r0.contains(self.formation_belongs_to.seq()[p].key()));
                        let q = choose|q: int|
                            0 <= q < r0.len() && r0[q] == self.formation_belongs_to.seq()[p].key();
                        assert(r@[q] == self.formation_belongs_to.seq()[p].key());
                    } else {
                        if r0.contains(row.formation_id) {
                            let q = choose|q: int| 0 <= q < r0.len() && r0[q] == row.formation_id;
                            assert(r@[q] == row.formation_id);
                        } else {
                            assert(r@[r0.len() as int] == row.formation_id);
                        }
                    }
                }
            }
            i = i + 1;
        }
        proof {
            self.formation_belongs_to.lemma_view();
            assert forall|c: u64|
                r@.contains(c) <==> (#[trigger] self@.formation_parent.dom().contains(c)
                    && self@.formation_parent[c] == parent) by {
                if r@.contains(c) {
                    let q = choose|q: int| 0 <= q < r@.len() && r@[q] == c;
                    assert(self.formation_belongs_to@.dom().contains(c));
                    assert(self.formation_belongs_to@[c].parent == parent);
                } else {
                    if self@.formation_parent.dom().contains(c) && self@.formation_parent[c] == parent {
                        let p = choose|p: int|
                            0 <= p < self.formation_belongs_to.seq().len() && self.formation_belongs_to.seq()[p].key() == c;
                        assert(self.formation_belongs_to@[c] == self.formation_belongs_to.seq()[p]);
                        assert(self.formation_belongs_to.seq()[p].parent == parent);
                        assert(r@.contains(self.formation_belongs_to.seq()[p].key()));
                        assert(false);
                    }
                }
            }
        }
        r
    }

    /// The climbs directly parented to the given node.
    pub fn climbs_with_parent(&self, parent: Parent) -> (r: Vec<u64>)
        requires
            self.wf(),
        ensures
            forall|c: u64| r@.contains(c) <==> (#[trigger] self@.climb_parent.dom().contains(c)
                && self@.climb_parent[c] == parent),
            forall|q1: int, q2: int| 0 <= q1 < q2 < r@.len() ==> #[trigger] r@[q1] != #[trigger] r@[q2],
    {
        let mut r: Vec<u64> = Vec::new();
        let n = self.climb_belongs_to.len();
        let mut i: usize = 0;
        while i < n
            invariant
                self.wf(),
                i <= n,
                n == self.climb_belongs_to.seq().len(),
                forall|q: int| 0 <= q < r@.len() ==> self.climb_belongs_to@.dom().contains(#[trigger] r@[q])
                    && self.climb_belongs_to@[r@[q]].parent == parent,
                forall|p: int| 0 <= p < i && self.climb_belongs_to.seq()[p].parent == parent
                    ==> r@.contains(#[trigger] self.climb_belongs_to.seq()[p].key()),
                forall|q1: int, q2: int| 0 <= q1 < q2 < r@.len() ==> #[trigger] r@[q1] != #[trigger] r@[q2],
            decreases n - i,
        {
            let ghost r0 = r@;
            let row = self.climb_belongs_to.row_at(i);
            proof {
                self.climb_belongs_to.lemma_view();
                assert(self.climb_belongs_to.seq()[i as int].key() == row.climb_id);
                assert(self.climb_belongs_to@.dom().contains(row.climb_id));
                assert(self.climb_belongs_to@[row.climb_id] == *row);
            }
            if (row.parent == parent) && !id_list_contains(&r, row.climb_id) {
                r.push(row.climb_id);
                proof {
                    assert(forall|q: int| 0 <= q < r0.len() ==> #[trigger] r@[q] == r0[q]);
                    assert(r@[r0.len() as int] == row.climb_id);
                    assert forall|q1: int, q2: int|
                        0 <= q1 < q2 < r@.len() implies #[trigger] r@[q1] != #[trigger] r@[q2] by {
                        if q2 == r0.len() as int && r@[q1] == r@[q2] {
                            assert(r0[q1] == row.climb_id);
                            assert(r0.contains(row.climb_id));
                            assert(false);
                        }
                    }
                }
            }
            proof {
                assert forall|p: int|
                    0 <= p < i + 1 && self.climb_belongs_to.seq()[p].parent == parent implies r@.contains(
                    #[trigger] self.climb_belongs_to.seq()[p].key(),
                ) by {
                    if p < i {
                        assert(r0.contains(self.climb_belongs_to.seq()[p].key()));
                        let q = choose|q: int|
                            0 <= q < r0.len() && r0[q] == self.climb_belongs_to.seq()[p].key();
                        assert(r@[q] == self.climb_belongs_to.seq()[p].key());
                    } else {
                        if r0.contains(row.climb_id) {
                            let q = choose|q: int| 0 <= q < r0.len() && r0[q] == row.climb_id;
                            assert(r@[q] == row.climb_id);
                        } else {
                            assert(r@[r0.len() as int] == row.climb_id);
                        }
                    }
                }
            }
            i = i + 1;
        }
        proof {
            self.climb_belongs_to.lemma_view();
            assert forall|c: u64|
                r@.contains(c) <==> (#[trigger] self@.climb_parent.dom().contains(c)
                    && self@.climb_parent[c] == parent) by {
                if r@.contains(c) {
                    let q = choose|q: int| 0 <= q < r@.len() && r@[q] == c;
                    assert(self.climb_belongs_to@.dom().contains(c));
                    assert(self.climb_belongs_to@[c].parent == parent);
                } else {
                    if self@.climb_parent.dom().contains(c) && self@.climb_parent[c] == parent {
                        let p = choose|p: int|
                            0 <= p < self.climb_belongs_to.seq().len() && self.climb_belongs_to.seq()[p].key() == c;
                        assert(self.climb_belongs_to@[c] == self.climb_belongs_to.seq()[p]);
                        assert(self.climb_belongs_to.seq()[p].parent == parent);
                        assert(r@.contains(self.climb_belongs_to.seq()[p].key()));
                        assert(false);
                    }
                }
            }
        }
        r
    }


    /// An area's parent area, if set.
    pub fn super_area(&self, id: u64) -> (r: Option<u64>)
        requires
            self.wf(),
        ensures
            r == if self@.area_parent.dom().contains(id) {
                Some(self@.area_parent[id])
            } else {
                None::<u64>
            },
    {
        match self.area_belongs_to.get(&id) {
            Some(row) => Some(row.super_area_id),
            None => None,
        }
    }

    /// A formation's parent, if set — an area or another formation.
    pub fn formation_parent_of(&self, id: u64) -> (r: Option<Parent>)
        requires
            self.wf(),
        ensures
            r == if self@.formation_parent.dom().contains(id) {
                Some(self@.formation_parent[id])
            } else {
                None::<Parent>
            },
    {
        match self.formation_belongs_to.get(&id) {
            Some(row) => Some(row.parent),
            None => None,
        }
    }

    /// The area a formation is directly parented to, if that is its parent
    /// kind.
    pub fn formation_area(&self, id: u64) -> (r: Option<u64>)
        requires
            self.wf(),
        ensures
            r == if self@.formation_parent.dom().contains(id) && self@.formation_parent[id]
                is Area {
                Some(self@.formation_parent[id]->Area_0)
            } else {
                None::<u64>
            },
    {
        match self.formation_parent_of(id) {
            Some(Parent::Area(a)) => Some(a),
            _ => None,
        }
    }

    /// The formation a formation is directly parented to, if that is its
    /// parent kind.
    pub fn formation_super_formation(&self, id: u64) -> (r: Option<u64>)
        requires
            self.wf(),
        ensures
            r == if self@.formation_parent.dom().contains(id) && self@.formation_parent[id]
                is Formation {
                Some(self@.formation_parent[id]->Formation_0)
            } else {
                None::<u64>
            },
    {
        match self.formation_parent_of(id) {
            Some(Parent::Formation(f)) => Some(f),
            _ => None,
        }
    }

    /// A climb's parent, if set — an area or a formation.
    pub fn climb_parent_of(&self, id: u64) -> (r: Option<Parent>)
        requires
            self.wf(),
        ensures
            r == if self@.climb_parent.dom().contains(id) {
                Some(self@.climb_parent[id])
            } else {
                None::<Parent>
            },
    {
        match self.climb_belongs_to.get(&id) {
            Some(row) => Some(row.parent),
            None => None,
        }
    }

    /// The area a climb is directly parented to, if that is its parent
    /// kind.
    pub fn climb_area(&self, id: u64) -> (r: Option<u64>)
        requires
            self.wf(),
        ensures
            r == if self@.climb_parent.dom().contains(id) && self@.climb_parent[id] is Area {
                Some(self@.climb_parent[id]->Area_0)
            } else {
                None::<u64>
            },
    {
        match self.climb_parent_of(id) {
            Some(Parent::Area(a)) => Some(a),
            _ => None,
        }
    }

    /// The formation a climb is directly parented to, if that is its parent
    /// kind.
    pub fn climb_formation(&self, id: u64) -> (r: Option<u64>)
        requires
            self.wf(),
        ensures
            r == if self@.climb_parent.dom().contains(id) && self@.climb_parent[id] is Formation {
                Some(self@.climb_parent[id]->Formation_0)
            } else {
                None::<u64>
            },
    {
        match self.climb_parent_of(id) {
            Some(Parent::Formation(f)) => Some(f),
            _ => None,
        }
    }

    /// A formation's location, if set.
    pub fn formation_location(&self, id: u64) -> (r: Option<Coordinate>)
        requires
            self.wf(),
        ensures
            r == if self@.formations.dom().contains(id) {
                self@.formations[id].location
            } else {
                None::<Coordinate>
            },
    {
        match self.formations.get(&id) {
            Some(row) => row.location,
            None => None,
        }
    }

    /// Every area id.
    pub fn area_ids(&self) -> (r: Vec<u64>)
        requires
            self.wf(),
        ensures
            forall|c: u64| r@.contains(c) <==> #[trigger] self@.areas.dom().contains(c),
            forall|q1: int, q2: int| 0 <= q1 < q2 < r@.len() ==> #[trigger] r@[q1] != #[trigger] r@[q2],
    {
        let mut r: Vec<u64> = Vec::new();
        let n = self.areas.len();
        let mut i: usize = 0;
        while i < n
            invariant
                self.wf(),
                i <= n,
                n == self.areas.seq().len(),
                forall|q: int|
                    0 <= q < r@.len() ==> self.areas@.dom().contains(#[trigger] r@[q]),
                forall|p: int|
                    0 <= p < i ==> r@.contains(#[trigger] self.areas.seq()[p].key()),
                forall|q1: int, q2: int| 0 <= q1 < q2 < r@.len() ==> #[trigger] r@[q1] != #[trigger] r@[q2],
            decreases n - i,
        {
            let ghost r0 = r@;
            let row = self.areas.row_at(i);
            proof {
                self.areas.lemma_view();
                assert(self.areas.seq()[i as int].key() == row.id);
                assert(self.areas@.dom().contains(row.id));
            }
            if !id_list_contains(&r, row.id) {
                r.push(row.id);
                proof {
                    assert(forall|q: int| 0 <= q < r0.len() ==> #[trigger] r@[q] == r0[q]);
                    assert(r@[r0.len() as int] == row.id);
                    assert forall|q1: int, q2: int|
                        0 <= q1 < q2 < r@.len() implies #[trigger] r@[q1] != #[trigger] r@[q2] by {
                        if q2 == r0.len() as int && r@[q1] == r@[q2] {
                            assert(r0[q1] == row.id);
                            assert(r0.contains(row.id));
                            assert(false);
                        }
                    }
                }
            }
            proof {
                assert forall|p: int| 0 <= p < i + 1 implies r@.contains(
                    #[trigger] self.areas.seq()[p].key(),
                ) by {
                    if p < i {
                        assert(r0.contains(self.areas.seq()[p].key()));
                        let q = choose|q: int|
                            0 <= q < r0.len() && r0[q] == self.areas.seq()[p].key();
                        assert(r@[q] == self.areas.seq()[p].key());
                    } else {
                        if r0.contains(row.id) {
                            let q = choose|q: int| 0 <= q < r0.len() && r0[q] == row.id;
                            assert(r@[q] == row.id);
                        } else {
                            assert(r@[r0.len() as int] == row.id);
                        }
                    }
                }
            }
            i = i + 1;
        }
        proof {
            self.areas.lemma_view();
            assert forall|c: u64|
                r@.contains(c) <==> #[trigger] self@.areas.dom().contains(c) by {
                if r@.contains(c) {
                    let q = choose|q: int| 0 <= q < r@.len() && r@[q] == c;
                    assert(self.areas@.dom().contains(c));
                } else {
                    if self@.areas.dom().contains(c) {
                        let p = choose|p: int|
                            0 <= p < self.areas.seq().len() && self.areas.seq()[p].key() == c;
                        assert(r@.contains(self.areas.seq()[p].key()));
                        assert(false);
                    }
                }
            }
        }
        r
    }

    /// Every formation id.
    pub fn formation_ids(&self) -> (r: Vec<u64>)
        requires
            self.wf(),
        ensures
            forall|c: u64| r@.contains(c) <==> #[trigger] self@.formations.dom().contains(c),
            forall|q1: int, q2: int| 0 <= q1 < q2 < r@.len() ==> #[trigger] r@[q1] != #[trigger] r@[q2],
    {
        let mut r: Vec<u64> = Vec::new();
        let n = self.formations.len();
        let mut i: usize = 0;
        while i < n
            invariant
                self.wf(),
                i <= n,
                n == self.formations.seq().len(),
                forall|q: int|
                    0 <= q < r@.len() ==> self.formations@.dom().contains(#[trigger] r@[q]),
                forall|p: int|
                    0 <= p < i ==> r@.contains(#[trigger] self.formations.seq()[p].key()),
                forall|q1: int, q2: int| 0 <= q1 < q2 < r@.len() ==> #[trigger] r@[q1] != #[trigger] r@[q2],
            decreases n - i,
        {
            let ghost r0 = r@;
            let row = self.formations.row_at(i);
            proof {
                self.formations.lemma_view();
                assert(self.formations.seq()[i as int].key() == row.id);
                assert(self.formations@.dom().contains(row.id));
            }
            if !id_list_contains(&r, row.id) {
                r.push(row.id);
                proof {
                    assert(forall|q: int| 0 <= q < r0.len() ==> #[trigger] r@[q] == r0[q]);
                    assert(r@[r0.len() as int] == row.id);
                    assert forall|q1: int, q2: int|
                        0 <= q1 < q2 < r@.len() implies #[trigger] r@[q1] != #[trigger] r@[q2] by {
                        if q2 == r0.len() as int && r@[q1] == r@[q2] {
                            assert(r0[q1] == row.id);
                            assert(r0.contains(row.id));
                            assert(false);
                        }
                    }
                }
            }
            proof {
                assert forall|p: int| 0 <= p < i + 1 implies r@.contains(
                    #[trigger] self.formations.seq()[p].key(),
                ) by {
                    if p < i {
                        assert(r0.contains(self.formations.seq()[p].key()));
                        let q = choose|q: int|
                            0 <= q < r0.len() && r0[q] == self.formations.seq()[p].key();
                        assert(r@[q] == self.formations.seq()[p].key());
                    } else {
                        if r0.contains(row.id) {
                            let q = choose|q: int| 0 <= q < r0.len() && r0[q] == row.id;
                            assert(r@[q] == row.id);
                        } else {
                            assert(r@[r0.len() as int] == row.id);
                        }
                    }
                }
            }
            i = i + 1;
        }
        proof {
            self.formations.lemma_view();
            assert forall|c: u64|
                r@.contains(c) <==> #[trigger] self@.formations.dom().contains(c) by {
                if r@.contains(c) {
                    let q = choose|q: int| 0 <= q < r@.len() && r@[q] == c;
                    assert(self.formations@.dom().contains(c));
                } else {
                    if self@.formations.dom().contains(c) {
                        let p = choose|p: int|
                            0 <= p < self.formations.seq().len() && self.formations.seq()[p].key() == c;
                        assert(r@.contains(self.formations.seq()[p].key()));
                        assert(false);
                    }
                }
            }
        }
        r
    }

    /// Every climb id.
    pub fn climb_ids(&self) -> (r: Vec<u64>)
        requires
            self.wf(),
        ensures
            forall|c: u64| r@.contains(c) <==> #[trigger] self@.climbs.dom().contains(c),
            forall|q1: int, q2: int| 0 <= q1 < q2 < r@.len() ==> #[trigger] r@[q1] != #[trigger] r@[q2],
    {
        let mut r: Vec<u64> = Vec::new();
        let n = self.climbs.len();
        let mut i: usize = 0;
        while i < n
            invariant
                self.wf(),
                i <= n,
                n == self.climbs.seq().len(),
                forall|q: int|
                    0 <= q < r@.len() ==> self.climbs@.dom().contains(#[trigger] r@[q]),
                forall|p: int|
                    0 <= p < i ==> r@.contains(#[trigger] self.climbs.seq()[p].key()),
                forall|q1: int, q2: int| 0 <= q1 < q2 < r@.len() ==> #[trigger] r@[q1] != #[trigger] r@[q2],
            decreases n - i,
        {
            let ghost r0 = r@;
            let row = self.climbs.row_at(i);
            proof {
                self.climbs.lemma_view();
                assert(self.climbs.seq()[i as int].key() == row.id);
                assert(self.climbs@.dom().contains(row.id));
            }
            if !id_list_contains(&r, row.id) {
                r.push(row.id);
                proof {
                    assert(forall|q: int| 0 <= q < r0.len() ==> #[trigger] r@[q] == r0[q]);
                    assert(r@[r0.len() as int] == row.id);
                    assert forall|q1: int, q2: int|
                        0 <= q1 < q2 < r@.len() implies #[trigger] r@[q1] != #[trigger] r@[q2] by {
                        if q2 == r0.len() as int && r@[q1] == r@[q2] {
                            assert(r0[q1] == row.id);
                            assert(r0.contains(row.id));
                            assert(false);
                        }
                    }
                }
            }
            proof {
                assert forall|p: int| 0 <= p < i + 1 implies r@.contains(
                    #[trigger] self.climbs.seq()[p].key(),
                ) by {
                    if p < i {
                        assert(r0.contains(self.climbs.seq()[p].key()));
                        let q = choose|q: int|
                            0 <= q < r0.len() && r0[q] == self.climbs.seq()[p].key();
                        assert(r@[q] == self.climbs.seq()[p].key());
                    } else {
                        if r0.contains(row.id) {
                            let q = choose|q: int| 0 <= q < r0.len() && r0[q] == row.id;
                            assert(r@[q] == row.id);
                        } else {
                            assert(r@[r0.len() as int] == row.id);
                        }
                    }
                }
            }
            i = i + 1;
        }
        proof {
            self.climbs.lemma_view();
            assert forall|c: u64|
                r@.contains(c) <==> #[trigger] self@.climbs.dom().contains(c) by {
                if r@.contains(c) {
                    let q = choose|q: int| 0 <= q < r@.len() && r@[q] == c;
                    assert(self.climbs@.dom().contains(c));
                } else {
                    if self@.climbs.dom().contains(c) {
                        let p = choose|p: int|
                            0 <= p < self.climbs.seq().len() && self.climbs.seq()[p].key() == c;
                        assert(r@.contains(self.climbs.seq()[p].key()));
                        assert(false);
                    }
                }
            }
        }
        r
    }

    /// The areas under the given parent area, or every area when no filter
    /// is given.
    pub fn areas(&self, super_area_id: Option<u64>) -> (r: Vec<u64>)
        requires
            self.wf(),
        ensures
            match super_area_id {
                None => forall|c: u64|
                    r@.contains(c) <==> #[trigger] self@.areas.dom().contains(c),
                Some(p) => forall|c: u64|
                    r@.contains(c) <==> (#[trigger] self@.area_parent.dom().contains(c)
                        && self@.area_parent[c] == p),
            },
            forall|q1: int, q2: int| 0 <= q1 < q2 < r@.len() ==> #[trigger] r@[q1] != #[trigger] r@[q2],
    {
        match super_area_id {
            None => self.area_ids(),
            Some(p) => self.sub_areas(p),
        }
    }

    /// The climbs under the given parent, or every climb when no filter is
    /// given.  Asking for both an area and a formation parent matches
    /// nothing: a climb has at most one parent.
    pub fn climbs(&self, area_id: Option<u64>, formation_id: Option<u64>) -> (r: Vec<u64>)
        requires
            self.wf(),
        ensures
            match (area_id, formation_id) {
                (None, None) => forall|c: u64|
                    r@.contains(c) <==> #[trigger] self@.climbs.dom().contains(c),
                (Some(a), None) => forall|c: u64|
                    r@.contains(c) <==> (#[trigger] self@.climb_parent.dom().contains(c)
                        && self@.climb_parent[c] == Parent::Area(a)),
                (None, Some(f)) => forall|c: u64|
                    r@.contains(c) <==> (#[trigger] self@.climb_parent.dom().contains(c)
                        && self@.climb_parent[c] == Parent::Formation(f)),
                (Some(_), Some(_)) => r@ == Seq::<u64>::empty(),
            },
            forall|q1: int, q2: int| 0 <= q1 < q2 < r@.len() ==> #[trigger] r@[q1] != #[trigger] r@[q2],
    {
        match (area_id, formation_id) {
            (None, None) => self.climb_ids(),
            (Some(a), None) => self.climbs_with_parent(Parent::Area(a)),
            (None, Some(f)) => self.climbs_with_parent(Parent::Formation(f)),
            (Some(_), Some(_)) => Vec::new(),
        }
    }

    /// The formations under the given parent, or every formation when no
    /// filter is given.  Asking for both parent kinds matches nothing.
    pub fn formations(&self, area_id: Option<u64>, formation_id: Option<u64>) -> (r: Vec<u64>)
        requires
            self.wf(),
        ensures
            match (area_id, formation_id) {
                (None, None) => forall|c: u64|
                    r@.contains(c) <==> #[trigger] self@.formations.dom().contains(c),
                (Some(a), None) => forall|c: u64|
                    r@.contains(c) <==> (#[trigger] self@.formation_parent.dom().contains(c)
                        && self@.formation_parent[c] == Parent::Area(a)),
                (None, Some(f)) => forall|c: u64|
                    r@.contains(c) <==> (#[trigger] self@.formation_parent.dom().contains(c)
                        && self@.formation_parent[c] == Parent::Formation(f)),
                (Some(_), Some(_)) => r@ == Seq::<u64>::empty(),
            },
            forall|q1: int, q2: int| 0 <= q1 < q2 < r@.len() ==> #[trigger] r@[q1] != #[trigger] r@[q2],
    {
        match (area_id, formation_id) {
            (None, None) => self.formation_ids(),
            (Some(a), None) => self.formations_with_parent(Parent::Area(a)),
            (None, Some(f)) => self.formations_with_parent(Parent::Formation(f)),
            (Some(_), Some(_)) => Vec::new(),
        }
    }

    /// The formations directly inside an area.
    pub fn area_formations(&self, id: u64) -> (r: Vec<u64>)
        requires
            self.wf(),
        ensures
            forall|c: u64| r@.contains(c) <==> (#[trigger] self@.formation_parent.dom().contains(c)
                && self@.formation_parent[c] == Parent::Area(id)),
            forall|q1: int, q2: int| 0 <= q1 < q2 < r@.len() ==> #[trigger] r@[q1] != #[trigger] r@[q2],
    {
        self.formations_with_parent(Parent::Area(id))
    }

    /// The formations directly inside a formation.
    pub fn sub_formations(&self, id: u64) -> (r: Vec<u64>)
        requires
            self.wf(),
        ensures
            forall|c: u64| r@.contains(c) <==> (#[trigger] self@.formation_parent.dom().contains(c)
                && self@.formation_parent[c] == Parent::Formation(id)),
            forall|q1: int, q2: int| 0 <= q1 < q2 < r@.len() ==> #[trigger] r@[q1] != #[trigger] r@[q2],
    {
        self.formations_with_parent(Parent::Formation(id))
    }

    /// The climbs directly inside an area.
    pub fn area_climbs(&self, id: u64) -> (r: Vec<u64>)
        requires
            self.wf(),
        ensures
            forall|c: u64| r@.contains(c) <==> (#[trigger] self@.climb_parent.dom().contains(c)
                && self@.climb_parent[c] == Parent::Area(id)),
            forall|q1: int, q2: int| 0 <= q1 < q2 < r@.len() ==> #[trigger] r@[q1] != #[trigger] r@[q2],
    {
        self.climbs_with_parent(Parent::Area(id))
    }

    /// The climbs directly on a formation.
    pub fn formation_climbs(&self, id: u64) -> (r: Vec<u64>)
        requires
            self.wf(),
        ensures
            forall|c: u64| r@.contains(c) <==> (#[trigger] self@.climb_parent.dom().contains(c)
                && self@.climb_parent[c] == Parent::Formation(id)),
            forall|q1: int, q2: int| 0 <= q1 < q2 < r@.len() ==> #[trigger] r@[q1] != #[trigger] r@[q2],
    {
        self.climbs_with_parent(Parent::Formation(id))
    }


    /// The full ancestor chain of a containment node, nearest parent
    /// first, ending at a root.
    pub fn ancestors_of(&self, start: Parent) -> (r: Vec<Parent>)
        requires
            self.wf(),
        ensures
            is_ancestor_chain(self@, node_parent(self@, start), r@),
    {
        let ghost fp = self@.formation_parent;
        let ghost ap = self@.area_parent;
        let ghost fe = formation_edges(fp);
        proof {
            self.formation_belongs_to.lemma_view();
            self.area_belongs_to.lemma_view();
            assert(fe.dom().subset_of(self.formation_belongs_to@.dom()));
            vstd::set_lib::lemma_len_subset(fe.dom(), self.formation_belongs_to@.dom());
            assert(ap.dom() =~= self.area_belongs_to@.dom());
        }
        let mut out: Vec<Parent> = Vec::new();
        let mut cur: Parent = start;
        let ghost mut fsteps: nat = 0nat;
        let ghost mut asteps: nat = 0nat;
        let ghost mut aroot: u64 = 0;
        let ghost mut froot: u64 = 0;
        proof {
            match start {
                Parent::Area(a) => {
                    aroot = a;
                },
                Parent::Formation(f) => {
                    froot = f;
                },
            }
        }
        loop
            invariant
                self.formation_belongs_to.wf(),
                self.area_belongs_to.wf(),
                fp == self@.formation_parent,
                ap == self@.area_parent,
                fe == formation_edges(fp),
                fe.dom().finite(),
                ap.dom().finite(),
                crate::forest::acyclic(fe),
                crate::forest::acyclic(ap),
                out@.len() == 0 ==> cur == start,
                out@.len() > 0 ==> Some(out@[0]) == parent_step(ap, fp, start),
                out@.len() > 0 ==> cur == out@[out@.len() - 1],
                forall|i: int|
                    1 <= i < out@.len() ==> Some(#[trigger] out@[i]) == parent_step(
                        ap,
                        fp,
                        out@[i - 1],
                    ),
                cur is Formation ==> pstep(fe, froot, fsteps) == Some(cur->Formation_0),
                cur is Formation ==> fsteps <= fe.dom().len(),
                cur is Area ==> pstep(ap, aroot, asteps) == Some(cur->Area_0),
                cur is Area ==> asteps <= ap.dom().len(),
            decreases (match cur {
                Parent::Formation(_) => 1int,
                Parent::Area(_) => 0int,
            }), (match cur {
                Parent::Formation(_) => fe.dom().len() - fsteps,
                Parent::Area(_) => ap.dom().len() - asteps,
            }),
        {
            let ghost out0 = out@;
            let ghost cur0 = cur;
            let parent: Option<Parent> = match cur {
                Parent::Formation(f) => {
                    match self.formation_belongs_to.get(&f) {
                        Some(row) => Some(row.parent),
                        None => None,
                    }
                },
                Parent::Area(a) => {
                    match self.area_belongs_to.get(&a) {
                        Some(row) => Some(Parent::Area(row.super_area_id)),
                        None => None,
                    }
                },
            };
            match parent {
                Some(p) => {
                    proof {
                        assert(parent_step(ap, fp, cur0) == Some(p));
                        match cur0 {
                            Parent::Formation(f) => {
                                match p {
                                    Parent::Formation(f2) => {
                                        assert(fe.dom().contains(f));
                                        assert(fe[f] == f2);
                                        assert(pstep(fe, froot, fsteps + 1) == Some(f2));
                                        lemma_chain_bounded(fe, froot, fsteps + 1);
                                        fsteps = fsteps + 1;
                                    },
                                    Parent::Area(a) => {
                                        aroot = a;
                                        asteps = 0nat;
                                    },
                                }
                            },
                            Parent::Area(a) => {
                                assert(ap.dom().contains(a));
                                assert(pstep(ap, aroot, asteps + 1) == Some(p->Area_0));
                                lemma_chain_bounded(ap, aroot, asteps + 1);
                                asteps = asteps + 1;
                            },
                        }
                    }
                    out.push(p);
                    cur = p;
                    proof {
                        assert(forall|q: int| 0 <= q < out0.len() ==> #[trigger] out@[q] == out0[
                            q
                        ]);
                        assert(out@[out@.len() - 1] == p);
                        assert forall|i: int|
                            1 <= i < out@.len() implies Some(#[trigger] out@[i]) == parent_step(
                            ap,
                            fp,
                            out@[i - 1],
                        ) by {
                            if i == out@.len() - 1 {
                                assert(out@[i - 1] == cur0);
                            }
                        }
                    }
                },
                None => {
                    proof {
                        assert(parent_step(ap, fp, cur0) is None);
                    }
                    return out;
                },
            }
        }
    }

    /// The full ancestor chain of a climb: its parent, then that node's
    /// ancestors, ending at a root.
    pub fn climb_ancestors(&self, id: u64) -> (r: Vec<Parent>)
        requires
            self.wf(),
        ensures
            is_ancestor_chain(self@, if self@.climb_parent.dom().contains(id) {
                Some(self@.climb_parent[id])
            } else {
                None::<Parent>
            }, r@),
    {
        let first = match self.climb_belongs_to.get(&id) {
            Some(row) => row.parent,
            None => {
                let out: Vec<Parent> = Vec::new();
                return out;
            },
        };
        let mut out: Vec<Parent> = Vec::new();
        out.push(first);
        let mut rest = self.ancestors_of(first);
        let ghost restv = rest@;
        out.append(&mut rest);
        proof {
            assert(out@.len() == 1 + restv.len());
            assert(out@[0] == first);
            assert(forall|i: int| 0 <= i < restv.len() ==> #[trigger] out@[i + 1] == restv[i]);
            assert forall|i: int|
                1 <= i < out@.len() implies Some(#[trigger] out@[i]) == node_parent(
                self@,
                out@[i - 1],
            ) by {
                if i == 1 {
                    assert(out@[1] == restv[0]);
                    assert(Some(restv[0]) == node_parent(self@, first));
                } else {
                    assert(out@[i] == restv[i - 1]);
                    assert(out@[i - 1] == restv[i - 2]);
                    assert(Some(restv[i - 1]) == node_parent(self@, restv[i - 2]));
                }
            }
            if restv.len() == 0 {
                assert(node_parent(self@, first) is None);
                assert(out@[out@.len() - 1] == first);
            } else {
                assert(out@[out@.len() - 1] == restv[restv.len() - 1]);
            }
        }
        out
    }

    /// The grade ids linked to a climb.
    pub fn climb_grade_ids(&self, climb_id: u64) -> (r: Vec<u64>)
        requires
            self.wf(),
        ensures
            forall|g: u64| r@.contains(g) <==> #[trigger] self@.climb_grades.contains(
                (climb_id, g),
            ),
            forall|q1: int, q2: int| 0 <= q1 < q2 < r@.len() ==> #[trigger] r@[q1] != #[trigger] r@[q2],
    {
        let mut r: Vec<u64> = Vec::new();
        let n = self.climb_grades.len();
        let mut i: usize = 0;
        while i < n
            invariant
                self.wf(),
                i <= n,
                n == self.climb_grades.seq().len(),
                forall|q: int|
                    0 <= q < r@.len() ==> self.climb_grades@.dom().contains(
                        (climb_id, #[trigger] r@[q]),
                    ),
                forall|p: int|
                    0 <= p < i && self.climb_grades.seq()[p].climb_id == climb_id ==> r@.contains(
                        #[trigger] self.climb_grades.seq()[p].grade_id,
                    ),
                forall|q1: int, q2: int| 0 <= q1 < q2 < r@.len() ==> #[trigger] r@[q1] != #[trigger] r@[q2],
            decreases n - i,
        {
            let ghost r0 = r@;
            let row = self.climb_grades.row_at(i);
            proof {
                self.climb_grades.lemma_view();
                assert(self.climb_grades.seq()[i as int].key() == (row.climb_id, row.grade_id));
                assert(self.climb_grades@.dom().contains((row.climb_id, row.grade_id)));
            }
            if row.climb_id == climb_id && !id_list_contains(&r, row.grade_id) {
                r.push(row.grade_id);
                proof {
                    assert(forall|q: int| 0 <= q < r0.len() ==> #[trigger] r@[q] == r0[q]);
                    assert(r@[r0.len() as int] == row.grade_id);
                    assert forall|q1: int, q2: int|
                        0 <= q1 < q2 < r@.len() implies #[trigger] r@[q1] != #[trigger] r@[q2] by {
                        if q2 == r0.len() as int && r@[q1] == r@[q2] {
                            assert(r0[q1] == row.grade_id);
                            assert(r0.contains(row.grade_id));
                            assert(false);
                        }
                    }
                }
            }
            proof {
                assert forall|p: int|
                    0 <= p < i + 1 && self.climb_grades.seq()[p].climb_id
                        == climb_id implies r@.contains(
                    #[trigger] self.climb_grades.seq()[p].grade_id,
                ) by {
                    if p < i {
                        assert(r0.contains(self.climb_grades.seq()[p].grade_id));
                        let q = choose|q: int|
                            0 <= q < r0.len() && r0[q] == self.climb_grades.seq()[p].grade_id;
                        assert(r@[q] == self.climb_grades.seq()[p].grade_id);
                    } else {
                        if r0.contains(row.grade_id) {
                            let q = choose|q: int| 0 <= q < r0.len() && r0[q] == row.grade_id;
                            assert(r@[q] == row.grade_id);
                        } else {
                            assert(r@[r0.len() as int] == row.grade_id);
                        }
                    }
                }
            }
            i = i + 1;
        }
        proof {
            self.climb_grades.lemma_view();
            assert forall|g: u64|
                r@.contains(g) <==> #[trigger] self@.climb_grades.contains((climb_id, g)) by {
                if r@.contains(g) {
                    let q = choose|q: int| 0 <= q < r@.len() && r@[q] == g;
                    assert(self.climb_grades@.dom().contains((climb_id, g)));
                } else {
                    if self@.climb_grades.contains((climb_id, g)) {
                        let p = choose|p: int|
                            0 <= p < self.climb_grades.seq().len()
                                && self.climb_grades.seq()[p].key() == (climb_id, g);
                        assert(self.climb_grades.seq()[p].climb_id == climb_id);
                        assert(r@.contains(self.climb_grades.seq()[p].grade_id));
                        assert(false);
                    }
                }
            }
        }
        r
    }

    /// The ascents recorded against a climb.
    pub fn climb_ascent_ids(&self, climb_id: u64) -> (r: Vec<u64>)
        requires
            self.wf(),
        ensures
            forall|c: u64| r@.contains(c) <==> (#[trigger] self@.ascents.dom().contains(c)
                && self@.ascents[c].climb_id == climb_id),
            forall|q1: int, q2: int| 0 <= q1 < q2 < r@.len() ==> #[trigger] r@[q1] != #[trigger] r@[q2],
    {
        let mut r: Vec<u64> = Vec::new();
        let n = self.ascents.len();
        let mut i: usize = 0;
        while i < n
            invariant
                self.wf(),
                i <= n,
                n == self.ascents.seq().len(),
                forall|q: int| 0 <= q < r@.len() ==> self.ascents@.dom().contains(#[trigger] r@[q])
                    && self.ascents@[r@[q]].climb_id == climb_id,
                forall|p: int|
                    0 <= p < i && self.ascents.seq()[p].climb_id == climb_id ==> r@.contains(
                        #[trigger] self.ascents.seq()[p].key(),
                    ),
                forall|q1: int, q2: int| 0 <= q1 < q2 < r@.len() ==> #[trigger] r@[q1] != #[trigger] r@[q2],
            decreases n - i,
        {
            let ghost r0 = r@;
            let row = self.ascents.row_at(i);
            proof {
                self.ascents.lemma_view();
                assert(self.ascents.seq()[i as int].key() == row.id);
                assert(self.ascents@.dom().contains(row.id));
                assert(self.ascents@[row.id] == *row);
            }
            if row.climb_id == climb_id && !id_list_contains(&r, row.id) {
                r.push(row.id);
                proof {
                    assert(forall|q: int| 0 <= q < r0.len() ==> #[trigger] r@[q] == r0[q]);
                    assert(r@[r0.len() as int] == row.id);
                    assert forall|q1: int, q2: int|
                        0 <= q1 < q2 < r@.len() implies #[trigger] r@[q1] != #[trigger] r@[q2] by {
                        if q2 == r0.len() as int && r@[q1] == r@[q2] {
                            assert(r0[q1] == row.id);
                            assert(r0.contains(row.id));
                            assert(false);
                        }
                    }
                }
            }
            proof {
                assert forall|p: int|
                    0 <= p < i + 1 && self.ascents.seq()[p].climb_id == climb_id implies r@.contains(
                    #[trigger] self.ascents.seq()[p].key(),
                ) by {
                    if p < i {
                        assert(r0.contains(self.ascents.seq()[p].key()));
                        let q = choose|q: int|
                            0 <= q < r0.len() && r0[q] == self.ascents.seq()[p].key();
                        assert(r@[q] == self.ascents.seq()[p].key());
                    } else {
                        if r0.contains(row.id) {
                            let q = choose|q: int| 0 <= q < r0.len() && r0[q] == row.id;
                            assert(r@[q] == row.id);
                        } else {
                            assert(r@[r0.len() as int] == row.id);
                        }
                    }
                }
            }
            i = i + 1;
        }
        proof {
            self.ascents.lemma_view();
            assert forall|c: u64|
                r@.contains(c) <==> (#[trigger] self@.ascents.dom().contains(c)
                    && self@.ascents[c].climb_id == climb_id) by {
                if r@.contains(c) {
                    let q = choose|q: int| 0 <= q < r@.len() && r@[q] == c;
                    assert(self.ascents@.dom().contains(c));
                    assert(self.ascents@[c].climb_id == climb_id);
                } else {
                    if self@.ascents.dom().contains(c) && self@.ascents[c].climb_id == climb_id {
                        let p = choose|p: int|
                            0 <= p < self.ascents.seq().len() && self.ascents.seq()[p].key() == c;
                        assert(self.ascents@[c] == self.ascents.seq()[p]);
                        assert(self.ascents.seq()[p].climb_id == climb_id);
                        assert(r@.contains(self.ascents.seq()[p].key()));
                        assert(false);
                    }
                }
            }
        }
        r
    }


    /// An area's names flattened for display, or nothing when the area
    /// does not exist.
    pub fn area_names(&self, id: u64) -> (r: Option<Vec<String>>)
        requires
            self.wf(),
        ensures
            match r {
                Some(v) => self@.areas.dom().contains(id) && v.deep_view() == flatten_names(
                    self@.areas[id],
                ),
                None => !self@.areas.dom().contains(id),
            },
    {
        match self.areas.get(&id) {
            Some(row) => Some(flatten_name_vec(&row.names)),
            None => None,
        }
    }

    /// A climb's names flattened for display, or nothing when the climb
    /// does not exist.
    pub fn climb_names(&self, id: u64) -> (r: Option<Vec<String>>)
        requires
            self.wf(),
        ensures
            match r {
                Some(v) => self@.climbs.dom().contains(id) && v.deep_view() == flatten_names(
                    self@.climbs[id],
                ),
                None => !self@.climbs.dom().contains(id),
            },
    {
        match self.climbs.get(&id) {
            Some(row) => Some(flatten_name_vec(&row.names)),
            None => None,
        }
    }

    /// A formation's names flattened for display, or nothing when the
    /// formation does not exist.
    pub fn formation_names(&self, id: u64) -> (r: Option<Vec<String>>)
        requires
            self.wf(),
        ensures
            match r {
                Some(v) => self@.formations.dom().contains(id) && v.deep_view() == flatten_names(
                    self@.formations[id].names,
                ),
                None => !self@.formations.dom().contains(id),
            },
    {
        match self.formations.get(&id) {
            Some(row) => Some(flatten_name_vec(&row.names)),
            None => None,
        }
    }

    /// A climb's descriptions, each as the pair of its category name and
    /// its text: one entry for exactly every description the climb
    /// carries.
    pub fn climb_descriptions_of(&self, climb_id: u64) -> (r: Vec<KVPair>)
        requires
            self.wf(),
        ensures
            forall|j: int|
                0 <= j < r@.len() ==> has_description(
                    self@,
                    climb_id,
                    (#[trigger] r@[j]).key@,
                    r@[j].value@,
                ),
            forall|t: u64| #[trigger]
                self@.climb_descriptions.dom().contains((climb_id, t)) ==> lists_pair(
                    r@,
                    self@.climb_description_types[t],
                    self@.climb_descriptions[(climb_id, t)],
                ),
    {
        let mut r: Vec<KVPair> = Vec::new();
        let ghost mut ts: Seq<u64> = Seq::empty();
        let n = self.climb_descriptions.len();
        let mut i: usize = 0;
        while i < n
            invariant
                self.wf(),
                i <= n,
                n == self.climb_descriptions.seq().len(),
                ts.len() == r@.len(),
                forall|j: int|
                    0 <= j < r@.len() ==> self@.climb_descriptions.dom().contains(
                        (climb_id, #[trigger] ts[j]),
                    ) && self@.climb_description_types[ts[j]] == r@[j].key@
                        && self@.climb_descriptions[(climb_id, ts[j])] == r@[j].value@,
                forall|p: int|
                    0 <= p < i && self.climb_descriptions.seq()[p].climb_id == climb_id
                        ==> ts.contains(
                        (#[trigger] self.climb_descriptions.seq()[p]).climb_description_type_id,
                    ),
            decreases n - i,
        {
            let ghost r0 = r@;
            let ghost ts0 = ts;
            let row = self.climb_descriptions.row_at(i);
            proof {
                self.climb_descriptions.lemma_view();
                assert(self.climb_descriptions.seq()[i as int].key() == (
                    row.climb_id,
                    row.climb_description_type_id,
                ));
                assert(self.climb_descriptions@.dom().contains(
                    (row.climb_id, row.climb_description_type_id),
                ));
                assert(self.climb_descriptions@[(row.climb_id, row.climb_description_type_id)]
                    == *row);
            }
            if row.climb_id == climb_id {
                proof {
                    assert(self@.climb_descriptions.dom().contains(
                        (climb_id, row.climb_description_type_id),
                    ));
                    assert(self@.climb_description_types.dom().contains(
                        row.climb_description_type_id,
                    ));
                    self.climb_description_types.lemma_view();
                }
                match self.climb_description_types.get(&row.climb_description_type_id) {
                    Some(ty) => {
                        r.push(KVPair { key: ty.name.clone(), value: row.value.clone() });
                        proof {
                            ts = ts0.push(row.climb_description_type_id);
                            assert(forall|q: int|
                                0 <= q < r0.len() ==> #[trigger] r@[q] == r0[q]);
                            assert(r@[r0.len() as int].key@ == ty.name@);
                            assert(r@[r0.len() as int].value@ == row.value@);
                            assert(ts[r0.len() as int] == row.climb_description_type_id);
                        }
                    },
                    None => {
                        proof {
                            assert(false);
                        }
                    },
                }
            }
            proof {
                assert forall|p: int|
                    0 <= p < i + 1 && self.climb_descriptions.seq()[p].climb_id
                        == climb_id implies ts.contains(
                    (#[trigger] self.climb_descriptions.seq()[p]).climb_description_type_id,
                ) by {
                    if p < i {
                        assert(ts0.contains(
                            self.climb_descriptions.seq()[p].climb_description_type_id,
                        ));
                        let q = choose|q: int|
                            0 <= q < ts0.len() && ts0[q] == self.climb_descriptions.seq()[
                                p
                            ].climb_description_type_id;
                        assert(ts[q] == ts0[q]);
                    } else {
                        assert(ts[ts.len() - 1] == self.climb_descriptions.seq()[
                            p
                        ].climb_description_type_id);
                    }
                }
            }
            i = i + 1;
        }
        proof {
            self.climb_descriptions.lemma_view();
            assert forall|t: u64| #[trigger]
                self@.climb_descriptions.dom().contains((climb_id, t)) implies lists_pair(
                r@,
                self@.climb_description_types[t],
                self@.climb_descriptions[(climb_id, t)],
            ) by {
                let p = choose|p: int|
                    0 <= p < self.climb_descriptions.seq().len()
                        && self.climb_descriptions.seq()[p].key() == (climb_id, t);
                assert(self.climb_descriptions.seq()[p].climb_id == climb_id);
                assert(self.climb_descriptions.seq()[p].climb_description_type_id == t);
                assert(ts.contains(t));
                let j = choose|j: int| 0 <= j < ts.len() && ts[j] == t;
                assert(self@.climb_description_types[ts[j]] == r@[j].key@);
                assert(self@.climb_descriptions[(climb_id, ts[j])] == r@[j].value@);
            }
            assert forall|j: int| 0 <= j < r@.len() implies has_description(
                self@,
                climb_id,
                (#[trigger] r@[j]).key@,
                r@[j].value@,
            ) by {
                assert(self@.climb_descriptions.dom().contains((climb_id, ts[j]))
                    && self@.climb_description_types[ts[j]] == r@[j].key@
                    && self@.climb_descriptions[(climb_id, ts[j])] == r@[j].value@);
            }
        }
        r
    }

}

} // verus!
