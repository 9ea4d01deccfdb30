//! Leaf attribute mutation: name arrays and formation locations.
//!
//! Names are ordered arrays of optional strings.  Appending adds a name
//! unconditionally, even when it is already present; removing deletes every
//! occurrence equal to the given name, keeping placeholders.  These are the
//! policies of the underlying array operations, chosen once and kept.

use crate::db::Database;
use crate::errors::HierarchyError;
use crate::models::{Area, Climb, Coordinate, Formation};
use crate::state::{FormationInfo, StoreModel};
use crate::table::Keyed;
use vstd::prelude::*;

verus! {

/// A plain string list as a name array: every entry present, in order.
pub open spec fn as_name_array(v: Seq<Seq<char>>) -> Seq<Option<Seq<char>>> {
    Seq::new(v.len(), |i: int| Some(v[i]))
}

/// The name array with every occurrence of `name` removed; placeholders
/// stay.
pub open spec fn names_without(names: Seq<Option<Seq<char>>>, name: Seq<char>) -> Seq<
    Option<Seq<char>>,
>
    decreases names.len(),
{
    if names.len() == 0 {
        names
    } else {
        let prev = names_without(names.drop_last(), name);
        if names.last() == Some(name) {
            prev
        } else {
            prev.push(names.last())
        }
    }
}

/// The outcome of `set_area_names`.
pub open spec fn set_area_names_spec(m: StoreModel, id: u64, nv: Seq<Seq<char>>) -> (
    StoreModel,
    Result<(), HierarchyError>,
) {
    if !m.areas.dom().contains(id) {
        (m, Err(HierarchyError::NotFound))
    } else {
        (StoreModel { areas: m.areas.insert(id, as_name_array(nv)), ..m }, Ok(()))
    }
}

/// The outcome of `add_area_name`.
pub open spec fn add_area_name_spec(m: StoreModel, id: u64, name: Seq<char>) -> (
    StoreModel,
    Result<(), HierarchyError>,
) {
    if !m.areas.dom().contains(id) {
        (m, Err(HierarchyError::NotFound))
    } else {
        (StoreModel { areas: m.areas.insert(id, m.areas[id].push(Some(name))), ..m }, Ok(()))
    }
}

/// The outcome of `remove_area_name`.
pub open spec fn remove_area_name_spec(m: StoreModel, id: u64, name: Seq<char>) -> (
    StoreModel,
    Result<(), HierarchyError>,
) {
    if !m.areas.dom().contains(id) {
        (m, Err(HierarchyError::NotFound))
    } else {
        (StoreModel { areas: m.areas.insert(id, names_without(m.areas[id], name)), ..m }, Ok(()))
    }
}

/// The outcome of `add_climb_name`.
pub open spec fn add_climb_name_spec(m: StoreModel, id: u64, name: Seq<char>) -> (
    StoreModel,
    Result<(), HierarchyError>,
) {
    if !m.climbs.dom().contains(id) {
        (m, Err(HierarchyError::NotFound))
    } else {
        (StoreModel { climbs: m.climbs.insert(id, m.climbs[id].push(Some(name))), ..m }, Ok(()))
    }
}

/// The outcome of `remove_climb_name`.
pub open spec fn remove_climb_name_spec(m: StoreModel, id: u64, name: Seq<char>) -> (
    StoreModel,
    Result<(), HierarchyError>,
) {
    if !m.climbs.dom().contains(id) {
        (m, Err(HierarchyError::NotFound))
    } else {
        (StoreModel { climbs: m.climbs.insert(id, names_without(m.climbs[id], name)), ..m }, Ok(()))
    }
}

/// The outcome of `add_formation_name`.
pub open spec fn add_formation_name_spec(m: StoreModel, id: u64, name: Seq<char>) -> (
    StoreModel,
    Result<(), HierarchyError>,
) {
    if !m.formations.dom().contains(id) {
        (m, Err(HierarchyError::NotFound))
    } else {
        (
            StoreModel {
                formations: m.formations.insert(
                    id,
                    FormationInfo {
                        names: m.formations[id].names.push(Some(name)),
                        location: m.formations[id].location,
                    },
                ),
                ..m
            },
            Ok(()),
        )
    }
}

/// The outcome of `remove_formation_name`.
pub open spec fn remove_formation_name_spec(m: StoreModel, id: u64, name: Seq<char>) -> (
    StoreModel,
    Result<(), HierarchyError>,
) {
    if !m.formations.dom().contains(id) {
        (m, Err(HierarchyError::NotFound))
    } else {
        (
            StoreModel {
                formations: m.formations.insert(
                    id,
                    FormationInfo {
                        names: names_without(m.formations[id].names, name),
                        location: m.formations[id].location,
                    },
                ),
                ..m
            },
            Ok(()),
        )
    }
}

/// The outcome of `set_formation_location` (with `None` for clearing).
pub open spec fn set_formation_location_spec(
    m: StoreModel,
    id: u64,
    location: Option<Coordinate>,
) -> (StoreModel, Result<(), HierarchyError>) {
    if !m.formations.dom().contains(id) {
        (m, Err(HierarchyError::NotFound))
    } else {
        (
            StoreModel {
                formations: m.formations.insert(
                    id,
                    FormationInfo { names: m.formations[id].names, location },
                ),
                ..m
            },
            Ok(()),
        )
    }
}

/// Wraps each string as a present name entry.
pub(crate) fn wrap_names(names: Vec<String>) -> (out: Vec<Option<String>>)
    ensures
        out.deep_view() == as_name_array(names.deep_view()),
{
    let mut out: Vec<Option<String>> = Vec::new();
    let n = names.len();
    let mut i: usize = 0;
    while i < n
        invariant
            i <= n,
            n == names@.len(),
            out@.len() == i,
            forall|p: int| 0 <= p < i ==> out@[p] == Some(names@[p]),
        decreases n - i,
    {
        out.push(Some(names[i].clone()));
        i = i + 1;
    }
    proof {
        assert(out.deep_view() =~= as_name_array(names.deep_view()));
    }
    out
}

/// A copy of `names` with every occurrence of `name` removed.
fn filter_names(names: &Vec<Option<String>>, name: &String) -> (out: Vec<Option<String>>)
    ensures
        out.deep_view() == names_without(names.deep_view(), name@),
{
    let ghost orig = names.deep_view();
    let mut out: Vec<Option<String>> = Vec::new();
    let n = names.len();
    let mut i: usize = 0;
    while i < n
        invariant
            i <= n,
            n == names@.len(),
            orig == names.deep_view(),
            out.deep_view() == names_without(orig.take(i as int), name@),
        decreases n - i,
    {
        let ghost out_before = out.deep_view();
        proof {
            assert(orig.take(i + 1).drop_last() =~= orig.take(i as int));
            assert(orig.take(i + 1).last() == orig[i as int]);
            assert(orig[i as int] == names@[i as int].deep_view());
        }
        match &names[i] {
            Some(s) => {
                if !(*s == *name) {
                    out.push(Some(s.clone()));
                    proof {
                        assert(out.deep_view() =~= out_before.push(Some(s@)));
                    }
                }
            },
            None => {
                out.push(None);
                proof {
                    assert(out.deep_view() =~= out_before.push(None));
                }
            },
        }
        i = i + 1;
    }
    proof {
        assert(orig.take(n as int) =~= orig);
    }
    out
}

impl Database {
    /// Replaces an area's name array with the given names, in order.
    pub fn set_area_names(&mut self, id: u64, names: Vec<String>) -> (r: Result<
        (),
        HierarchyError,
    >)
        requires
            old(self).wf(),
        ensures
            final (self).wf(),
            (final (self)@, r) == set_area_names_spec(old(self)@, id, names.deep_view()),
    {
        if !self.areas.contains_key(&id) {
            return Err(HierarchyError::NotFound);
        }
        let ghost m0 = self@;
        proof {
            assert(m0.areas.dom().contains(id));
        }
        let wrapped = wrap_names(names);
        let ghost wv = wrapped.deep_view();
        self.areas.put(Area { id, names: wrapped });
        proof {
            assert(self@.areas =~= m0.areas.insert(id, wv));
            assert(self@ == (StoreModel { areas: m0.areas.insert(id, wv), ..m0 }));
        }
        Ok(())
    }

    /// Appends a name to an area's name array, unconditionally.
    pub fn add_area_name(&mut self, id: u64, name: String) -> (r: Result<(), HierarchyError>)
        requires
            old(self).wf(),
        ensures
            final (self).wf(),
            (final (self)@, r) == add_area_name_spec(old(self)@, id, name@),
    {
        let mut row = match self.areas.take(&id) {
            Some(row) => row,
            None => {
                return Err(HierarchyError::NotFound);
            },
        };
        let ghost m0 = old(self)@;
        let ghost nv = name@;
        let ghost names0 = row.names.deep_view();
        row.names.push(Some(name));
        proof {
            assert(row.names.deep_view() =~= names0.push(Some(nv)));
        }
        let ghost target = add_area_name_spec(m0, id, nv).0;
        self.areas.put(row);
        proof {
            assert(names0 == m0.areas[id]);
            assert(self@.areas =~= target.areas);
            assert(self@ == target);
        }
        Ok(())
    }

    /// Removes every occurrence of a name from an area's name array.
    pub fn remove_area_name(&mut self, id: u64, name: String) -> (r: Result<(), HierarchyError>)
        requires
            old(self).wf(),
        ensures
            final (self).wf(),
            (final (self)@, r) == remove_area_name_spec(old(self)@, id, name@),
    {
        let row = match self.areas.take(&id) {
            Some(row) => row,
            None => {
                return Err(HierarchyError::NotFound);
            },
        };
        let ghost m0 = old(self)@;
        let filtered = filter_names(&row.names, &name);
        let ghost target = remove_area_name_spec(m0, id, name@).0;
        self.areas.put(Area { id, names: filtered });
        proof {
            assert(row.names.deep_view() == m0.areas[id]);
            assert(self@.areas =~= target.areas);
            assert(self@ == target);
        }
        Ok(())
    }

    /// Appends a name to a climb's name array, unconditionally.
    pub fn add_climb_name(&mut self, id: u64, name: String) -> (r: Result<(), HierarchyError>)
        requires
            old(self).wf(),
        ensures
            final (self).wf(),
            (final (self)@, r) == add_climb_name_spec(old(self)@, id, name@),
    {
        let mut row = match self.climbs.take(&id) {
            Some(row) => row,
            None => {
                return Err(HierarchyError::NotFound);
            },
        };
        let ghost m0 = old(self)@;
        let ghost nv = name@;
        let ghost names0 = row.names.deep_view();
        row.names.push(Some(name));
        proof {
            assert(row.names.deep_view() =~= names0.push(Some(nv)));
        }
        let ghost target = add_climb_name_spec(m0, id, nv).0;
        self.climbs.put(row);
        proof {
            assert(names0 == m0.climbs[id]);
            assert(self@.climbs =~= target.climbs);
            assert(self@ == target);
        }
        Ok(())
    }

    /// Removes every occurrence of a name from a climb's name array.
    pub fn remove_climb_name(&mut self, id: u64, name: String) -> (r: Result<(), HierarchyError>)
        requires
            old(self).wf(),
        ensures
            final (self).wf(),
            (final (self)@, r) == remove_climb_name_spec(old(self)@, id, name@),
    {
        let row = match self.climbs.take(&id) {
            Some(row) => row,
            None => {
                return Err(HierarchyError::NotFound);
            },
        };
        let ghost m0 = old(self)@;
        let filtered = filter_names(&row.names, &name);
        let ghost target = remove_climb_name_spec(m0, id, name@).0;
        self.climbs.put(Climb { id, names: filtered });
        proof {
            assert(row.names.deep_view() == m0.climbs[id]);
            assert(self@.climbs =~= target.climbs);
            assert(self@ == target);
        }
        Ok(())
    }

    /// Appends a name to a formation's name array, unconditionally.
    pub fn add_formation_name(&mut self, id: u64, name: String) -> (r: Result<(), HierarchyError>)
        requires
            old(self).wf(),
        ensures
            final (self).wf(),
            (final (self)@, r) == add_formation_name_spec(old(self)@, id, name@),
    {
        let mut row = match self.formations.take(&id) {
            Some(row) => row,
            None => {
                return Err(HierarchyError::NotFound);
            },
        };
        let ghost m0 = old(self)@;
        let ghost nv = name@;
        let ghost names0 = row.names.deep_view();
        row.names.push(Some(name));
        proof {
            assert(row.names.deep_view() =~= names0.push(Some(nv)));
        }
        let ghost target = add_formation_name_spec(m0, id, nv).0;
        self.formations.put(row);
        proof {
            assert(names0 == m0.formations[id].names);
            assert(self@.formations =~= target.formations);
            assert(self@ == target);
        }
        Ok(())
    }

    /// Removes every occurrence of a name from a formation's name array.
    pub fn remove_formation_name(&mut self, id: u64, name: String) -> (r: Result<
        (),
        HierarchyError,
    >)
        requires
            old(self).wf(),
        ensures
            final (self).wf(),
            (final (self)@, r) == remove_formation_name_spec(old(self)@, id, name@),
    {
        let row = match self.formations.take(&id) {
            Some(row) => row,
            None => {
                return Err(HierarchyError::NotFound);
            },
        };
        let ghost m0 = old(self)@;
        let filtered = filter_names(&row.names, &name);
        let ghost target = remove_formation_name_spec(m0, id, name@).0;
        self.formations.put(Formation { id, names: filtered, location: row.location });
        proof {
            assert(row.names.deep_view() == m0.formations[id].names);
            assert(row.location == m0.formations[id].location);
            assert(self@.formations =~= target.formations);
            assert(self@ == target);
        }
        Ok(())
    }

    /// Sets a formation's location.
    pub fn set_formation_location(&mut self, id: u64, location: Coordinate) -> (r: Result<
        (),
        HierarchyError,
    >)
        requires
            old(self).wf(),
        ensures
            final (self).wf(),
            (final (self)@, r) == set_formation_location_spec(old(self)@, id, Some(location)),
    {
        let mut row = match self.formations.take(&id) {
            Some(row) => row,
            None => {
                return Err(HierarchyError::NotFound);
            },
        };
        let ghost m0 = old(self)@;
        row.location = Some(location);
        let ghost target = set_formation_location_spec(m0, id, Some(location)).0;
        self.formations.put(row);
        proof {
            assert(self@.formations =~= target.formations);
            assert(self@ == target);
        }
        Ok(())
    }

    /// Clears a formation's location.
    pub fn clear_formation_location(&mut self, id: u64) -> (r: Result<(), HierarchyError>)
        requires
            old(self).wf(),
        ensures
            final (self).wf(),
            (final (self)@, r) == set_formation_location_spec(old(self)@, id, None),
    {
        let mut row = match self.formations.take(&id) {
            Some(row) => row,
            None => {
                return Err(HierarchyError::NotFound);
            },
        };
        let ghost m0 = old(self)@;
        row.location = None;
        let ghost target = set_formation_location_spec(m0, id, None).0;
        self.formations.put(row);
        proof {
            assert(self@.formations =~= target.formations);
            assert(self@ == target);
        }
        Ok(())
    }
}

} // verus!
