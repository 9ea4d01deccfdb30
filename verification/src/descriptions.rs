//! Climb descriptions: tagged free-text content, one entry per category and
//! climb.
//!
//! Categories are looked up by name; a batch of key/value pairs is applied
//! by resolving each key to its category (pairs with unknown keys are
//! skipped), refusing the whole batch if any resolved entry would duplicate
//! an existing one or another entry of the batch, and otherwise inserting
//! them all atomically.

use crate::db::Database;
use crate::errors::HierarchyError;
use crate::models::{ClimbDescription, ClimbDescriptionType, KVPair};
use crate::state::StoreModel;
use crate::table::Keyed;
use vstd::prelude::*;

verus! {

/// Whether category `t` is the one named `key`.
pub open spec fn resolves(types: Map<u64, Seq<char>>, key: Seq<char>, t: u64) -> bool {
    types.dom().contains(t) && types[t] == key
}

/// The key/value pairs of a batch, abstracted.
pub open spec fn kvs_view(v: Seq<KVPair>) -> Seq<(Seq<char>, Seq<char>)> {
    Seq::new(v.len(), |j: int| (v[j].key@, v[j].value@))
}

/// The description map after applying a batch for `climb_id`, in order:
/// each pair whose key names a category lands at that category; the rest
/// are skipped.
pub open spec fn descs_applied(
    m0: Map<(u64, u64), Seq<char>>,
    types: Map<u64, Seq<char>>,
    climb_id: u64,
    ds: Seq<(Seq<char>, Seq<char>)>,
) -> Map<(u64, u64), Seq<char>>
    decreases ds.len(),
{
    if ds.len() == 0 {
        m0
    } else {
        let prev = descs_applied(m0, types, climb_id, ds.drop_last());
        if exists|t: u64| resolves(types, ds.last().0, t) {
            prev.insert((climb_id, choose|t: u64| resolves(types, ds.last().0, t)), ds.last().1)
        } else {
            prev
        }
    }
}

/// Whether applying the batch would write a category twice — against an
/// existing row or an earlier pair of the same batch.
pub open spec fn descs_conflict(
    m0: Map<(u64, u64), Seq<char>>,
    types: Map<u64, Seq<char>>,
    climb_id: u64,
    ds: Seq<(Seq<char>, Seq<char>)>,
) -> bool
    decreases ds.len(),
{
    if ds.len() == 0 {
        false
    } else {
        descs_conflict(m0, types, climb_id, ds.drop_last()) || (exists|t: u64|
            resolves(types, ds.last().0, t) && descs_applied(
                m0,
                types,
                climb_id,
                ds.drop_last(),
            ).dom().contains((climb_id, t)))
    }
}

/// The outcome of `set_climb_descriptions`.
pub open spec fn set_climb_descriptions_spec(
    m: StoreModel,
    climb_id: u64,
    ds: Seq<(Seq<char>, Seq<char>)>,
) -> (StoreModel, Result<(), HierarchyError>) {
    if !m.climbs.dom().contains(climb_id) {
        (m, Err(HierarchyError::ForeignKeyViolation))
    } else if descs_conflict(m.climb_descriptions, m.climb_description_types, climb_id, ds) {
        (m, Err(HierarchyError::UniquenessViolation))
    } else {
        (
            StoreModel {
                climb_descriptions: descs_applied(
                    m.climb_descriptions,
                    m.climb_description_types,
                    climb_id,
                    ds,
                ),
                ..m
            },
            Ok(()),
        )
    }
}

/// The outcome of `upsert_climb_description_type`: the existing category of
/// that name, or a fresh one.
pub open spec fn upsert_desc_type_spec(m: StoreModel, name: Seq<char>) -> (StoreModel, u64) {
    if exists|t: u64| resolves(m.climb_description_types, name, t) {
        (m, choose|t: u64| resolves(m.climb_description_types, name, t))
    } else {
        (
            StoreModel {
                climb_description_types: m.climb_description_types.insert(
                    m.next_climb_description_type_id,
                    name,
                ),
                next_climb_description_type_id: (m.next_climb_description_type_id + 1) as u64,
                ..m
            },
            m.next_climb_description_type_id,
        )
    }
}

/// The outcome of `add_climb_description`: both endpoints must exist, and
/// the climb must not yet carry a description of that category.
pub open spec fn add_climb_description_spec(
    m: StoreModel,
    climb_id: u64,
    type_id: u64,
    value: Seq<char>,
) -> (StoreModel, Result<(), HierarchyError>) {
    if !m.climbs.dom().contains(climb_id) || !m.climb_description_types.dom().contains(type_id) {
        (m, Err(HierarchyError::ForeignKeyViolation))
    } else if m.climb_descriptions.dom().contains((climb_id, type_id)) {
        (m, Err(HierarchyError::UniquenessViolation))
    } else {
        (
            StoreModel {
                climb_descriptions: m.climb_descriptions.insert((climb_id, type_id), value),
                ..m
            },
            Ok(()),
        )
    }
}

/// The description map after inserting a sequence of resolved rows.
pub open spec fn rows_applied(m0: Map<(u64, u64), Seq<char>>, rs: Seq<ClimbDescription>) -> Map<
    (u64, u64),
    Seq<char>,
>
    decreases rs.len(),
{
    if rs.len() == 0 {
        m0
    } else {
        rows_applied(m0, rs.drop_last()).insert(
            (rs.last().climb_id, rs.last().climb_description_type_id),
            rs.last().value@,
        )
    }
}

/// What `rows_applied` puts in the map's domain.
pub proof fn lemma_rows_applied_dom(m0: Map<(u64, u64), Seq<char>>, rs: Seq<ClimbDescription>)
    ensures
        forall|k: (u64, u64)| #[trigger]
            rows_applied(m0, rs).dom().contains(k) <==> (m0.dom().contains(k) || exists|p: int|
                0 <= p < rs.len() && ((#[trigger] rs[p]).climb_id,
                rs[p].climb_description_type_id) == k),
    decreases rs.len(),
{
    if rs.len() > 0 {
        lemma_rows_applied_dom(m0, rs.drop_last());
        let last = rs.last();
        assert forall|k: (u64, u64)| #[trigger]
            rows_applied(m0, rs).dom().contains(k) implies (m0.dom().contains(k) || exists|p: int|
            0 <= p < rs.len() && ((#[trigger] rs[p]).climb_id, rs[p].climb_description_type_id)
                == k) by {
            if k == (last.climb_id, last.climb_description_type_id) {
                assert(rs[rs.len() - 1] == last);
            } else if !m0.dom().contains(k) {
                assert(rows_applied(m0, rs.drop_last()).dom().contains(k));
                let p = choose|p: int|
                    0 <= p < rs.drop_last().len() && ((rs.drop_last()[p]).climb_id,
                    rs.drop_last()[p].climb_description_type_id) == k;
                assert(0 <= p < rs.drop_last().len() && ((rs.drop_last()[p]).climb_id,
                rs.drop_last()[p].climb_description_type_id) == k);
                assert(rs.drop_last()[p] == rs[p]);
            }
        }
        assert forall|k: (u64, u64)|
            m0.dom().contains(k) || (exists|p: int|
                0 <= p < rs.len() && ((#[trigger] rs[p]).climb_id,
                rs[p].climb_description_type_id) == k) implies #[trigger] rows_applied(
            m0,
            rs,
        ).dom().contains(k) by {
            if m0.dom().contains(k) {
                assert(rows_applied(m0, rs.drop_last()).dom().contains(k));
            } else if !m0.dom().contains(k) && k != (last.climb_id, last.climb_description_type_id) {
                assert(rs[rs.len() - 1] == last);
                let p = choose|p: int|
                    0 <= p < rs.len() && ((rs[p]).climb_id, rs[p].climb_description_type_id) == k;
                assert(0 <= p < rs.len() && ((rs[p]).climb_id, rs[p].climb_description_type_id)
                    == k);
                assert(p < rs.len() - 1);
                assert(rs.drop_last()[p] == rs[p]);
                assert(rows_applied(m0, rs.drop_last()).dom().contains(k));
            }
        }
    }
}

impl Database {
    /// The id of the description category with the given name, if one
    /// exists.
    pub fn find_climb_description_type_by_name(&self, name: &String) -> (r: Option<u64>)
        requires
            self.wf(),
        ensures
            match r {
                Some(t) => resolves(self@.climb_description_types, name@, t),
                None => forall|t: u64| !resolves(self@.climb_description_types, name@, t),
            },
    {
        let n = self.climb_description_types.len();
        let mut i: usize = 0;
        while i < n
            invariant
                self.wf(),
                i <= n,
                n == self.climb_description_types.seq().len(),
                forall|j: int|
                    0 <= j < i ==> #[trigger] self.climb_description_types.seq()[j].name@ != name@,
            decreases n - i,
        {
            let row = self.climb_description_types.row_at(i);
            if row.name == *name {
                proof {
                    self.climb_description_types.lemma_view();
                    assert(self.climb_description_types.seq()[i as int].key() == row.id);
                    assert(self.climb_description_types@.dom().contains(row.id));
                    assert(self.climb_description_types@[row.id] == *row);
                }
                return Some(row.id);
            }
            i = i + 1;
        }
        proof {
            self.climb_description_types.lemma_view();
            assert forall|t: u64| !resolves(self@.climb_description_types, name@, t) by {
                if self@.climb_description_types.dom().contains(t) {
                    let j = choose|j: int|
                        0 <= j < self.climb_description_types.seq().len()
                            && self.climb_description_types.seq()[j].key() == t;
                    assert(self.climb_description_types.seq()[j].name@ != name@);
                }
            }
        }
        None
    }

    /// Looks up the description category of the given name, creating it
    /// when absent; returns its id either way.
    pub fn upsert_climb_description_type(&mut self, name: String) -> (r: u64)
        requires
            old(self).wf(),
            old(self)@.next_climb_description_type_id < u64::MAX,
        ensures
            final (self).wf(),
            (final (self)@, r) == upsert_desc_type_spec(old(self)@, name@),
    {
        match self.find_climb_description_type_by_name(&name) {
            Some(t) => {
                proof {
                    assert(resolves(self@.climb_description_types, name@, t));
                    assert(exists|tc: u64| resolves(self@.climb_description_types, name@, tc));
                    let tc = choose|tc: u64| resolves(self@.climb_description_types, name@, tc);
                    assert(resolves(self@.climb_description_types, name@, tc));
                    assert(self@.climb_description_types[t] == self@.climb_description_types[tc]);
                    assert(t == tc);
                }
                t
            },
            None => {
                let id = self.next_climb_description_type_id;
                self.next_climb_description_type_id = id + 1;
                let ghost nv = name@;
                self.climb_description_types.put(ClimbDescriptionType { id, name });
                proof {
                    let target = upsert_desc_type_spec(old(self)@, nv).0;
                    assert(self@.climb_description_types =~= old(
                        self,
                    )@.climb_description_types.insert(id, nv));
                    assert(self@ == target);
                    assert forall|d1: u64, d2: u64|
                        self@.climb_description_types.dom().contains(d1)
                            && self@.climb_description_types.dom().contains(d2) && d1
                            != d2 implies #[trigger] self@.climb_description_types[d1]
                        != #[trigger] self@.climb_description_types[d2] by {
                        if d1 == id {
                            assert(!resolves(old(self)@.climb_description_types, nv, d2));
                        } else if d2 == id {
                            assert(!resolves(old(self)@.climb_description_types, nv, d1));
                        }
                    }
                }
                id
            },
        }
    }

    /// Records a description of one category for a climb.  Both must exist,
    /// and the climb must not yet carry a description of that category.
    pub fn add_climb_description(&mut self, climb_id: u64, type_id: u64, value: String) -> (r:
        Result<(), HierarchyError>)
        requires
            old(self).wf(),
        ensures
            final (self).wf(),
            (final (self)@, r) == add_climb_description_spec(old(self)@, climb_id, type_id, value@),
    {
        if !self.climbs.contains_key(&climb_id) {
            return Err(HierarchyError::ForeignKeyViolation);
        }
        if !self.climb_description_types.contains_key(&type_id) {
            return Err(HierarchyError::ForeignKeyViolation);
        }
        if self.climb_descriptions.contains_key(&(climb_id, type_id)) {
            return Err(HierarchyError::UniquenessViolation);
        }
        let ghost vv = value@;
        self.climb_descriptions.put(
            ClimbDescription { climb_id, climb_description_type_id: type_id, value },
        );
        proof {
            assert(self@.climb_descriptions =~= old(self)@.climb_descriptions.insert(
                (climb_id, type_id),
                vv,
            ));
            assert(self@ == (StoreModel {
                climb_descriptions: old(self)@.climb_descriptions.insert((climb_id, type_id), vv),
                ..old(self)@
            }));
        }
        Ok(())
    }
}


/// A conflict in a prefix of the batch is a conflict of the whole batch.
pub proof fn lemma_conflict_monotone(
    m0: Map<(u64, u64), Seq<char>>,
    types: Map<u64, Seq<char>>,
    climb_id: u64,
    ds: Seq<(Seq<char>, Seq<char>)>,
    j: int,
)
    requires
        0 <= j <= ds.len(),
        descs_conflict(m0, types, climb_id, ds.take(j)),
    ensures
        descs_conflict(m0, types, climb_id, ds),
    decreases ds.len() - j,
{
    if j < ds.len() {
        assert(ds.take(j + 1).drop_last() =~= ds.take(j));
        assert(descs_conflict(m0, types, climb_id, ds.take(j + 1)));
        lemma_conflict_monotone(m0, types, climb_id, ds, j + 1);
    } else {
        assert(ds.take(j) =~= ds);
    }
}

/// Whether any of the resolved rows already carries the category `t`.
fn rows_contain_type(rows: &Vec<ClimbDescription>, t: u64) -> (r: bool)
    ensures
        r == exists|p: int|
            0 <= p < rows@.len() && (#[trigger] rows@[p]).climb_description_type_id == t,
{
    let n = rows.len();
    let mut i: usize = 0;
    while i < n
        invariant
            i <= n,
            n == rows@.len(),
            forall|p: int| 0 <= p < i ==> (#[trigger] rows@[p]).climb_description_type_id != t,
        decreases n - i,
    {
        if rows[i].climb_description_type_id == t {
            return true;
        }
        i = i + 1;
    }
    false
}

impl Database {
    /// Applies a batch of key/value descriptions to a climb, atomically.
    /// Each pair whose key names a category becomes that category's
    /// description; pairs with unknown keys are skipped.  The whole batch is
    /// refused — and nothing written — if the climb does not exist, or if a
    /// resolved entry would duplicate an existing description or another
    /// entry of the batch.
    pub fn set_climb_descriptions(&mut self, id: u64, descriptions: Vec<KVPair>) -> (r: Result<
        (),
        HierarchyError,
    >)
        requires
            old(self).wf(),
        ensures
            final (self).wf(),
            (final (self)@, r) == set_climb_descriptions_spec(
                old(self)@,
                id,
                kvs_view(descriptions@),
            ),
    {
        if !self.climbs.contains_key(&id) {
            return Err(HierarchyError::ForeignKeyViolation);
        }
        let ghost m0 = self@;
        let ghost ds = kvs_view(descriptions@);
        let ghost types = m0.climb_description_types;
        let mut rows: Vec<ClimbDescription> = Vec::new();
        let n = descriptions.len();
        let mut j: usize = 0;
        while j < n
            invariant
                self.wf(),
                *self == *old(self),
                m0 == self@,
                ds == kvs_view(descriptions@),
                types == m0.climb_description_types,
                n == descriptions@.len(),
                j <= n,
                m0.climbs.dom().contains(id),
                !descs_conflict(m0.climb_descriptions, types, id, ds.take(j as int)),
                rows_applied(m0.climb_descriptions, rows@) == descs_applied(
                    m0.climb_descriptions,
                    types,
                    id,
                    ds.take(j as int),
                ),
                forall|p: int| 0 <= p < rows@.len() ==> (#[trigger] rows@[p]).climb_id == id,
                forall|p: int|
                    0 <= p < rows@.len() ==> types.dom().contains(
                        (#[trigger] rows@[p]).climb_description_type_id,
                    ),
            decreases n - j,
        {
            let ghost dsj = ds.take(j as int);
            let ghost dsj1 = ds.take(j + 1);
            proof {
                assert(dsj1.drop_last() =~= dsj);
                assert(dsj1.last() == ds[j as int]);
            }
            let kv = &descriptions[j];
            let found = self.find_climb_description_type_by_name(&kv.key);
            match found {
                Some(t) => {
                    proof {
                        assert(resolves(types, dsj1.last().0, t));
                        assert(exists|tt: u64| resolves(types, dsj1.last().0, tt));
                        let tc = choose|tt: u64| resolves(types, dsj1.last().0, tt);
                        assert(resolves(types, dsj1.last().0, tc));
                        assert(types[t] == types[tc]);
                        assert(tc == t);
                        lemma_rows_applied_dom(m0.climb_descriptions, rows@);
                    }
                    let in_store = self.climb_descriptions.contains_key(&(id, t));
                    let in_batch = rows_contain_type(&rows, t);
                    if in_store || in_batch {
                        proof {
                            assert(descs_applied(m0.climb_descriptions, types, id, dsj)
                                == rows_applied(m0.climb_descriptions, rows@));
                            if in_store {
                                assert(rows_applied(m0.climb_descriptions, rows@).dom().contains(
                                    (id, t),
                                ));
                            } else {
                                let p = choose|p: int|
                                    0 <= p < rows@.len() && (
                                    #[trigger] rows@[p]).climb_description_type_id == t;
                                assert((rows@[p].climb_id, rows@[p].climb_description_type_id) == (
                                    id,
                                    t,
                                ));
                                assert(rows_applied(m0.climb_descriptions, rows@).dom().contains(
                                    (id, t),
                                ));
                            }
                            assert(resolves(types, dsj1.last().0, t) && descs_applied(
                                m0.climb_descriptions,
                                types,
                                id,
                                dsj,
                            ).dom().contains((id, t)));
                            assert(descs_conflict(m0.climb_descriptions, types, id, dsj1));
                            lemma_conflict_monotone(m0.climb_descriptions, types, id, ds, j + 1);
                        }
                        return Err(HierarchyError::UniquenessViolation);
                    }
                    let ghost rows_before = rows@;
                    let row = ClimbDescription {
                        climb_id: id,
                        climb_description_type_id: t,
                        value: kv.value.clone(),
                    };
                    proof {
                        assert(row.value@ == dsj1.last().1);
                    }
                    rows.push(row);
                    proof {
                        assert(rows@.drop_last() =~= rows_before);
                        assert(rows@.last() == row);
                        assert(rows_applied(m0.climb_descriptions, rows@) == rows_applied(
                            m0.climb_descriptions,
                            rows_before,
                        ).insert((id, t), row.value@));
                        assert(descs_applied(m0.climb_descriptions, types, id, dsj1)
                            == descs_applied(m0.climb_descriptions, types, id, dsj).insert(
                            (id, t),
                            dsj1.last().1,
                        ));
                        assert forall|tt: u64| !(resolves(types, dsj1.last().0, tt)
                            && descs_applied(m0.climb_descriptions, types, id, dsj).dom().contains(
                            (id, tt),
                        )) by {
                            if resolves(types, dsj1.last().0, tt) {
                                assert(types[tt] == types[t]);
                                assert(tt == t);
                                assert(!rows_applied(
                                    m0.climb_descriptions,
                                    rows_before,
                                ).dom().contains((id, t)));
                            }
                        }
                        assert(!descs_conflict(m0.climb_descriptions, types, id, dsj1));
                    }
                },
                None => {
                    proof {
                        assert(forall|tt: u64| !resolves(types, dsj1.last().0, tt));
                        assert(descs_applied(m0.climb_descriptions, types, id, dsj1)
                            == descs_applied(m0.climb_descriptions, types, id, dsj));
                        assert(!descs_conflict(m0.climb_descriptions, types, id, dsj1));
                    }
                },
            }
            j = j + 1;
        }
        proof {
            assert(ds.take(n as int) =~= ds);
        }
        let ghost rows0 = rows@;
        let ghost mut done: int = 0;
        while rows.len() > 0
            invariant
                0 <= done <= rows0.len(),
                rows@ == rows0.skip(done),
                m0 == old(self)@,
                m0.climbs.dom().contains(id),
                self.areas == old(self).areas,
                self.formations == old(self).formations,
                self.climbs == old(self).climbs,
                self.climbers == old(self).climbers,
                self.ascents == old(self).ascents,
                self.grade_types == old(self).grade_types,
                self.grades == old(self).grades,
                self.climb_description_types == old(self).climb_description_types,
                self.area_belongs_to == old(self).area_belongs_to,
                self.formation_belongs_to == old(self).formation_belongs_to,
                self.climb_belongs_to == old(self).climb_belongs_to,
                self.climb_grades == old(self).climb_grades,
                self.ascent_grades == old(self).ascent_grades,
                self.ascent_parties == old(self).ascent_parties,
                self.climb_variations == old(self).climb_variations,
                self.next_area_id == old(self).next_area_id,
                self.next_formation_id == old(self).next_formation_id,
                self.next_climb_id == old(self).next_climb_id,
                self.next_climber_id == old(self).next_climber_id,
                self.next_ascent_id == old(self).next_ascent_id,
                self.next_grade_type_id == old(self).next_grade_type_id,
                self.next_grade_id == old(self).next_grade_id,
                self.next_climb_description_type_id == old(self).next_climb_description_type_id,
                self.climb_descriptions.wf(),
                self@ == (StoreModel {
                    climb_descriptions: rows_applied(m0.climb_descriptions, rows0.take(done)),
                    ..m0
                }),
                forall|p: int| 0 <= p < rows0.len() ==> (#[trigger] rows0[p]).climb_id == id,
                forall|p: int|
                    0 <= p < rows0.len() ==> m0.climb_description_types.dom().contains(
                        (#[trigger] rows0[p]).climb_description_type_id,
                    ),
            decreases rows@.len(),
        {
            let row = rows.remove(0);
            proof {
                assert(rows0.skip(done)[0] == rows0[done]);
                assert(row == rows0[done]);
                assert(rows@ =~= rows0.skip(done + 1));
            }
            let ghost mprev = self@;
            let ghost rv = row.value@;
            let ghost rkey = (row.climb_id, row.climb_description_type_id);
            self.climb_descriptions.put(row);
            proof {
                done = done + 1;
                assert(rows0.take(done).drop_last() =~= rows0.take(done - 1));
                assert(rows0.take(done).last() == rows0[done - 1]);
                assert(self@.climb_descriptions =~= mprev.climb_descriptions.insert(rkey, rv));
                assert(self@.climb_descriptions == rows_applied(
                    m0.climb_descriptions,
                    rows0.take(done),
                ));
                assert(self@ == (StoreModel {
                    climb_descriptions: rows_applied(m0.climb_descriptions, rows0.take(done)),
                    ..m0
                }));
            }
        }
        proof {
            assert(done == rows0.len());
            assert(rows0.take(done) =~= rows0);
            let target = set_climb_descriptions_spec(m0, id, ds).0;
            assert(self@.climb_descriptions == descs_applied(
                m0.climb_descriptions,
                types,
                id,
                ds,
            ));
            assert(self@ == target);
            lemma_rows_applied_dom(m0.climb_descriptions, rows0);
            assert forall|k: (u64, u64)| #[trigger]
                self@.climb_descriptions.dom().contains(k) implies self@.climbs.dom().contains(k.0)
                && self@.climb_description_types.dom().contains(k.1) by {
                if !m0.climb_descriptions.dom().contains(k) {
                    let p = choose|p: int|
                        0 <= p < rows0.len() && ((rows0[p]).climb_id,
                        rows0[p].climb_description_type_id) == k;
                    assert(0 <= p < rows0.len() && ((rows0[p]).climb_id,
                    rows0[p].climb_description_type_id) == k);
                }
            }
        }
        Ok(())
    }
}


/// Applying a batch for one climb leaves every other climb's descriptions
/// untouched, and adds keys only for that climb.
pub proof fn lemma_descs_applied_frame(
    m0: Map<(u64, u64), Seq<char>>,
    types: Map<u64, Seq<char>>,
    climb_id: u64,
    ds: Seq<(Seq<char>, Seq<char>)>,
)
    ensures
        forall|k: (u64, u64)| #[trigger]
            descs_applied(m0, types, climb_id, ds).dom().contains(k) ==> (m0.dom().contains(k)
                || k.0 == climb_id),
        forall|k: (u64, u64)|
            k.0 != climb_id && m0.dom().contains(k) ==> #[trigger] descs_applied(
                m0,
                types,
                climb_id,
                ds,
            ).dom().contains(k) && descs_applied(m0, types, climb_id, ds)[k] == m0[k],
    decreases ds.len(),
{
    if ds.len() > 0 {
        lemma_descs_applied_frame(m0, types, climb_id, ds.drop_last());
        let prev = descs_applied(m0, types, climb_id, ds.drop_last());
        let full = descs_applied(m0, types, climb_id, ds);
        if exists|t: u64| resolves(types, ds.last().0, t) {
            let tc = choose|t: u64| resolves(types, ds.last().0, t);
            assert(full == prev.insert((climb_id, tc), ds.last().1));
            assert forall|k: (u64, u64)| #[trigger]
                full.dom().contains(k) implies (m0.dom().contains(k) || k.0 == climb_id) by {
                if k != (climb_id, tc) {
                    assert(prev.dom().contains(k));
                }
            }
            assert forall|k: (u64, u64)|
                k.0 != climb_id && m0.dom().contains(k) implies #[trigger] full.dom().contains(k)
                && full[k] == m0[k] by {
                assert(prev.dom().contains(k));
                assert(k != (climb_id, tc));
            }
        } else {
            assert(full == prev);
        }
    }
}

} // verus!