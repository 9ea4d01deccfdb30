//! Cascade helpers: purging association rows that mention a dying entity.
//!
//! Each pair of functions finds and removes every row of one association
//! table whose key mentions a given id on one side (or, for variations,
//! either side).  The purge leaves the table equal to the old one with
//! exactly the matching keys removed.

use crate::models::{Ascent, AscentGrade, AscentParty, ClimbDescription, ClimbGrade, ClimbVariation, Grade};
use crate::table::{Keyed, Table};
use vstd::prelude::*;

verus! {

/// Finds a row of the climb-to-grade table whose climb is `id`.
fn find_climb_grades_by_climb(t: &Table<ClimbGrade>, id: u64) -> (r: Option<(u64, u64)>)
    requires
        t.wf(),
    ensures
        match r {
            Some(k) => t@.dom().contains(k) && (k.0 == id),
            None => forall|k: (u64, u64)| #[trigger] t@.dom().contains(k) ==> !(k.0 == id),
        },
{
    let n = t.len();
    let mut i: usize = 0;
    while i < n
        invariant
            t.wf(),
            i <= n,
            n == t.seq().len(),
            forall|j: int| 0 <= j < i ==> !(#[trigger] t.seq()[j].climb_id == id),
        decreases n - i,
    {
        let row = t.row_at(i);
        if row.climb_id == id {
            proof {
                t.lemma_view();
                assert(t.seq()[i as int].key() == (row.climb_id, row.grade_id));
                assert(t@.dom().contains((row.climb_id, row.grade_id)));
            }
            return Some((row.climb_id, row.grade_id));
        }
        i = i + 1;
    }
    proof {
        t.lemma_view();
        assert forall|k: (u64, u64)| #[trigger] t@.dom().contains(k) implies !(k.0 == id) by {
            let j = choose|j: int| 0 <= j < t.seq().len() && t.seq()[j].key() == k;
            assert(t.seq()[j].key() == k);
        }
    }
    None
}

/// Removes every row of the climb-to-grade table whose climb is `id`.
pub(crate) fn purge_climb_grades_by_climb(t: &mut Table<ClimbGrade>, id: u64)
    requires
        old(t).wf(),
    ensures
        final (t).wf(),
        final (t)@ == old(t)@.remove_keys(Set::new(|k: (u64, u64)| k.0 == id)),
{
    loop
        invariant
            t.wf(),
            forall|k: (u64, u64)| #[trigger] t@.dom().contains(k) ==> old(t)@.dom().contains(k)
                && t@[k] == old(t)@[k],
            forall|k: (u64, u64)|
                old(t)@.dom().contains(k) && !(k.0 == id) ==> #[trigger] t@.dom().contains(k),
        ensures
            forall|k: (u64, u64)| #[trigger] t@.dom().contains(k) ==> !(k.0 == id),
            forall|k: (u64, u64)| #[trigger] t@.dom().contains(k) ==> old(t)@.dom().contains(k)
                && t@[k] == old(t)@[k],
            forall|k: (u64, u64)|
                old(t)@.dom().contains(k) && !(k.0 == id) ==> #[trigger] t@.dom().contains(k),
        decreases t.seq().len(),
    {
        match find_climb_grades_by_climb(t, id) {
            Some(k) => {
                t.delete(&k);
            },
            None => {
                break ;
            },
        }
    }
    proof {
        assert(t@ =~= old(t)@.remove_keys(Set::new(|k: (u64, u64)| k.0 == id)));
    }
}

/// Finds a row of the climb-to-grade table whose grade is `id`.
fn find_climb_grades_by_grade(t: &Table<ClimbGrade>, id: u64) -> (r: Option<(u64, u64)>)
    requires
        t.wf(),
    ensures
        match r {
            Some(k) => t@.dom().contains(k) && (k.1 == id),
            None => forall|k: (u64, u64)| #[trigger] t@.dom().contains(k) ==> !(k.1 == id),
        },
{
    let n = t.len();
    let mut i: usize = 0;
    while i < n
        invariant
            t.wf(),
            i <= n,
            n == t.seq().len(),
            forall|j: int| 0 <= j < i ==> !(#[trigger] t.seq()[j].grade_id == id),
        decreases n - i,
    {
        let row = t.row_at(i);
        if row.grade_id == id {
            proof {
                t.lemma_view();
                assert(t.seq()[i as int].key() == (row.climb_id, row.grade_id));
                assert(t@.dom().contains((row.climb_id, row.grade_id)));
            }
            return Some((row.climb_id, row.grade_id));
        }
        i = i + 1;
    }
    proof {
        t.lemma_view();
        assert forall|k: (u64, u64)| #[trigger] t@.dom().contains(k) implies !(k.1 == id) by {
            let j = choose|j: int| 0 <= j < t.seq().len() && t.seq()[j].key() == k;
            assert(t.seq()[j].key() == k);
        }
    }
    None
}

/// Removes every row of the climb-to-grade table whose grade is `id`.
pub(crate) fn purge_climb_grades_by_grade(t: &mut Table<ClimbGrade>, id: u64)
    requires
        old(t).wf(),
    ensures
        final (t).wf(),
        final (t)@ == old(t)@.remove_keys(Set::new(|k: (u64, u64)| k.1 == id)),
{
    loop
        invariant
            t.wf(),
            forall|k: (u64, u64)| #[trigger] t@.dom().contains(k) ==> old(t)@.dom().contains(k)
                && t@[k] == old(t)@[k],
            forall|k: (u64, u64)|
                old(t)@.dom().contains(k) && !(k.1 == id) ==> #[trigger] t@.dom().contains(k),
        ensures
            forall|k: (u64, u64)| #[trigger] t@.dom().contains(k) ==> !(k.1 == id),
            forall|k: (u64, u64)| #[trigger] t@.dom().contains(k) ==> old(t)@.dom().contains(k)
                && t@[k] == old(t)@[k],
            forall|k: (u64, u64)|
                old(t)@.dom().contains(k) && !(k.1 == id) ==> #[trigger] t@.dom().contains(k),
        decreases t.seq().len(),
    {
        match find_climb_grades_by_grade(t, id) {
            Some(k) => {
                t.delete(&k);
            },
            None => {
                break ;
            },
        }
    }
    proof {
        assert(t@ =~= old(t)@.remove_keys(Set::new(|k: (u64, u64)| k.1 == id)));
    }
}

/// Finds a row of the ascent-to-grade table whose ascent is `id`.
fn find_ascent_grades_by_ascent(t: &Table<AscentGrade>, id: u64) -> (r: Option<(u64, u64)>)
    requires
        t.wf(),
    ensures
        match r {
            Some(k) => t@.dom().contains(k) && (k.0 == id),
            None => forall|k: (u64, u64)| #[trigger] t@.dom().contains(k) ==> !(k.0 == id),
        },
{
    let n = t.len();
    let mut i: usize = 0;
    while i < n
        invariant
            t.wf(),
            i <= n,
            n == t.seq().len(),
            forall|j: int| 0 <= j < i ==> !(#[trigger] t.seq()[j].ascent_id == id),
        decreases n - i,
    {
        let row = t.row_at(i);
        if row.ascent_id == id {
            proof {
                t.lemma_view();
                assert(t.seq()[i as int].key() == (row.ascent_id, row.grade_id));
                assert(t@.dom().contains((row.ascent_id, row.grade_id)));
            }
            return Some((row.ascent_id, row.grade_id));
        }
        i = i + 1;
    }
    proof {
        t.lemma_view();
        assert forall|k: (u64, u64)| #[trigger] t@.dom().contains(k) implies !(k.0 == id) by {
            let j = choose|j: int| 0 <= j < t.seq().len() && t.seq()[j].key() == k;
            assert(t.seq()[j].key() == k);
        }
    }
    None
}

/// Removes every row of the ascent-to-grade table whose ascent is `id`.
pub(crate) fn purge_ascent_grades_by_ascent(t: &mut Table<AscentGrade>, id: u64)
    requires
        old(t).wf(),
    ensures
        final (t).wf(),
        final (t)@ == old(t)@.remove_keys(Set::new(|k: (u64, u64)| k.0 == id)),
{
    loop
        invariant
            t.wf(),
            forall|k: (u64, u64)| #[trigger] t@.dom().contains(k) ==> old(t)@.dom().contains(k)
                && t@[k] == old(t)@[k],
            forall|k: (u64, u64)|
                old(t)@.dom().contains(k) && !(k.0 == id) ==> #[trigger] t@.dom().contains(k),
        ensures
            forall|k: (u64, u64)| #[trigger] t@.dom().contains(k) ==> !(k.0 == id),
            forall|k: (u64, u64)| #[trigger] t@.dom().contains(k) ==> old(t)@.dom().contains(k)
                && t@[k] == old(t)@[k],
            forall|k: (u64, u64)|
                old(t)@.dom().contains(k) && !(k.0 == id) ==> #[trigger] t@.dom().contains(k),
        decreases t.seq().len(),
    {
        match find_ascent_grades_by_ascent(t, id) {
            Some(k) => {
                t.delete(&k);
            },
            None => {
                break ;
            },
        }
    }
    proof {
        assert(t@ =~= old(t)@.remove_keys(Set::new(|k: (u64, u64)| k.0 == id)));
    }
}

/// Finds a row of the ascent-to-grade table whose grade is `id`.
fn find_ascent_grades_by_grade(t: &Table<AscentGrade>, id: u64) -> (r: Option<(u64, u64)>)
    requires
        t.wf(),
    ensures
        match r {
            Some(k) => t@.dom().contains(k) && (k.1 == id),
            None => forall|k: (u64, u64)| #[trigger] t@.dom().contains(k) ==> !(k.1 == id),
        },
{
    let n = t.len();
    let mut i: usize = 0;
    while i < n
        invariant
            t.wf(),
            i <= n,
            n == t.seq().len(),
            forall|j: int| 0 <= j < i ==> !(#[trigger] t.seq()[j].grade_id == id),
        decreases n - i,
    {
        let row = t.row_at(i);
        if row.grade_id == id {
            proof {
                t.lemma_view();
                assert(t.seq()[i as int].key() == (row.ascent_id, row.grade_id));
                assert(t@.dom().contains((row.ascent_id, row.grade_id)));
            }
            return Some((row.ascent_id, row.grade_id));
        }
        i = i + 1;
    }
    proof {
        t.lemma_view();
        assert forall|k: (u64, u64)| #[trigger] t@.dom().contains(k) implies !(k.1 == id) by {
            let j = choose|j: int| 0 <= j < t.seq().len() && t.seq()[j].key() == k;
            assert(t.seq()[j].key() == k);
        }
    }
    None
}

/// Removes every row of the ascent-to-grade table whose grade is `id`.
pub(crate) fn purge_ascent_grades_by_grade(t: &mut Table<AscentGrade>, id: u64)
    requires
        old(t).wf(),
    ensures
        final (t).wf(),
        final (t)@ == old(t)@.remove_keys(Set::new(|k: (u64, u64)| k.1 == id)),
{
    loop
        invariant
            t.wf(),
            forall|k: (u64, u64)| #[trigger] t@.dom().contains(k) ==> old(t)@.dom().contains(k)
                && t@[k] == old(t)@[k],
            forall|k: (u64, u64)|
                old(t)@.dom().contains(k) && !(k.1 == id) ==> #[trigger] t@.dom().contains(k),
        ensures
            forall|k: (u64, u64)| #[trigger] t@.dom().contains(k) ==> !(k.1 == id),
            forall|k: (u64, u64)| #[trigger] t@.dom().contains(k) ==> old(t)@.dom().contains(k)
                && t@[k] == old(t)@[k],
            forall|k: (u64, u64)|
                old(t)@.dom().contains(k) && !(k.1 == id) ==> #[trigger] t@.dom().contains(k),
        decreases t.seq().len(),
    {
        match find_ascent_grades_by_grade(t, id) {
            Some(k) => {
                t.delete(&k);
            },
            None => {
                break ;
            },
        }
    }
    proof {
        assert(t@ =~= old(t)@.remove_keys(Set::new(|k: (u64, u64)| k.1 == id)));
    }
}

/// Finds a row of the ascent-to-climber table whose ascent is `id`.
fn find_ascent_parties_by_ascent(t: &Table<AscentParty>, id: u64) -> (r: Option<(u64, u64)>)
    requires
        t.wf(),
    ensures
        match r {
            Some(k) => t@.dom().contains(k) && (k.0 == id),
            None => forall|k: (u64, u64)| #[trigger] t@.dom().contains(k) ==> !(k.0 == id),
        },
{
    let n = t.len();
    let mut i: usize = 0;
    while i < n
        invariant
            t.wf(),
            i <= n,
            n == t.seq().len(),
            forall|j: int| 0 <= j < i ==> !(#[trigger] t.seq()[j].ascent_id == id),
        decreases n - i,
    {
        let row = t.row_at(i);
        if row.ascent_id == id {
            proof {
                t.lemma_view();
                assert(t.seq()[i as int].key() == (row.ascent_id, row.climber_id));
                assert(t@.dom().contains((row.ascent_id, row.climber_id)));
            }
            return Some((row.ascent_id, row.climber_id));
        }
        i = i + 1;
    }
    proof {
        t.lemma_view();
        assert forall|k: (u64, u64)| #[trigger] t@.dom().contains(k) implies !(k.0 == id) by {
            let j = choose|j: int| 0 <= j < t.seq().len() && t.seq()[j].key() == k;
            assert(t.seq()[j].key() == k);
        }
    }
    None
}

/// Removes every row of the ascent-to-climber table whose ascent is `id`.
pub(crate) fn purge_ascent_parties_by_ascent(t: &mut Table<AscentParty>, id: u64)
    requires
        old(t).wf(),
    ensures
        final (t).wf(),
        final (t)@ == old(t)@.remove_keys(Set::new(|k: (u64, u64)| k.0 == id)),
{
    loop
        invariant
            t.wf(),
            forall|k: (u64, u64)| #[trigger] t@.dom().contains(k) ==> old(t)@.dom().contains(k)
                && t@[k] == old(t)@[k],
            forall|k: (u64, u64)|
                old(t)@.dom().contains(k) && !(k.0 == id) ==> #[trigger] t@.dom().contains(k),
        ensures
            forall|k: (u64, u64)| #[trigger] t@.dom().contains(k) ==> !(k.0 == id),
            forall|k: (u64, u64)| #[trigger] t@.dom().contains(k) ==> old(t)@.dom().contains(k)
                && t@[k] == old(t)@[k],
            forall|k: (u64, u64)|
                old(t)@.dom().contains(k) && !(k.0 == id) ==> #[trigger] t@.dom().contains(k),
        decreases t.seq().len(),
    {
        match find_ascent_parties_by_ascent(t, id) {
            Some(k) => {
                t.delete(&k);
            },
            None => {
                break ;
            },
        }
    }
    proof {
        assert(t@ =~= old(t)@.remove_keys(Set::new(|k: (u64, u64)| k.0 == id)));
    }
}

/// Finds a row of the ascent-to-climber table whose climber is `id`.
fn find_ascent_parties_by_climber(t: &Table<AscentParty>, id: u64) -> (r: Option<(u64, u64)>)
    requires
        t.wf(),
    ensures
        match r {
            Some(k) => t@.dom().contains(k) && (k.1 == id),
            None => forall|k: (u64, u64)| #[trigger] t@.dom().contains(k) ==> !(k.1 == id),
        },
{
    let n = t.len();
    let mut i: usize = 0;
    while i < n
        invariant
            t.wf(),
            i <= n,
            n == t.seq().len(),
            forall|j: int| 0 <= j < i ==> !(#[trigger] t.seq()[j].climber_id == id),
        decreases n - i,
    {
        let row = t.row_at(i);
        if row.climber_id == id {
            proof {
                t.lemma_view();
                assert(t.seq()[i as int].key() == (row.ascent_id, row.climber_id));
                assert(t@.dom().contains((row.ascent_id, row.climber_id)));
            }
            return Some((row.ascent_id, row.climber_id));
        }
        i = i + 1;
    }
    proof {
        t.lemma_view();
        assert forall|k: (u64, u64)| #[trigger] t@.dom().contains(k) implies !(k.1 == id) by {
            let j = choose|j: int| 0 <= j < t.seq().len() && t.seq()[j].key() == k;
            assert(t.seq()[j].key() == k);
        }
    }
    None
}

/// Removes every row of the ascent-to-climber table whose climber is `id`.
pub(crate) fn purge_ascent_parties_by_climber(t: &mut Table<AscentParty>, id: u64)
    requires
        old(t).wf(),
    ensures
        final (t).wf(),
        final (t)@ == old(t)@.remove_keys(Set::new(|k: (u64, u64)| k.1 == id)),
{
    loop
        invariant
            t.wf(),
            forall|k: (u64, u64)| #[trigger] t@.dom().contains(k) ==> old(t)@.dom().contains(k)
                && t@[k] == old(t)@[k],
            forall|k: (u64, u64)|
                old(t)@.dom().contains(k) && !(k.1 == id) ==> #[trigger] t@.dom().contains(k),
        ensures
            forall|k: (u64, u64)| #[trigger] t@.dom().contains(k) ==> !(k.1 == id),
            forall|k: (u64, u64)| #[trigger] t@.dom().contains(k) ==> old(t)@.dom().contains(k)
                && t@[k] == old(t)@[k],
            forall|k: (u64, u64)|
                old(t)@.dom().contains(k) && !(k.1 == id) ==> #[trigger] t@.dom().contains(k),
        decreases t.seq().len(),
    {
        match find_ascent_parties_by_climber(t, id) {
            Some(k) => {
                t.delete(&k);
            },
            None => {
                break ;
            },
        }
    }
    proof {
        assert(t@ =~= old(t)@.remove_keys(Set::new(|k: (u64, u64)| k.1 == id)));
    }
}

/// Finds a row of the climb variation table that mentions `id` on either side.
fn find_climb_variations_touching(t: &Table<ClimbVariation>, id: u64) -> (r: Option<(u64, u64)>)
    requires
        t.wf(),
    ensures
        match r {
            Some(k) => t@.dom().contains(k) && (k.0 == id || k.1 == id),
            None => forall|k: (u64, u64)| #[trigger] t@.dom().contains(k) ==> !(k.0 == id || k.1 == id),
        },
{
    let n = t.len();
    let mut i: usize = 0;
    while i < n
        invariant
            t.wf(),
            i <= n,
            n == t.seq().len(),
            forall|j: int| 0 <= j < i ==> #[trigger] t.seq()[j].root_id != id,
            forall|j: int| 0 <= j < i ==> #[trigger] t.seq()[j].variation_id != id,
        decreases n - i,
    {
        let row = t.row_at(i);
        if row.root_id == id || row.variation_id == id {
            proof {
                t.lemma_view();
                assert(t.seq()[i as int].key() == (row.root_id, row.variation_id));
                assert(t@.dom().contains((row.root_id, row.variation_id)));
            }
            return Some((row.root_id, row.variation_id));
        }
        proof {
            assert(t.seq()[i as int].root_id != id && t.seq()[i as int].variation_id != id);
        }
        i = i + 1;
    }
    proof {
        t.lemma_view();
        assert forall|k: (u64, u64)| #[trigger] t@.dom().contains(k) implies !(k.0 == id || k.1 == id) by {
            let j = choose|j: int| 0 <= j < t.seq().len() && t.seq()[j].key() == k;
            assert(t.seq()[j].key() == k);
        }
    }
    None
}

/// Removes every row of the climb variation table that mentions `id` on either side.
pub(crate) fn purge_climb_variations_touching(t: &mut Table<ClimbVariation>, id: u64)
    requires
        old(t).wf(),
    ensures
        final (t).wf(),
        final (t)@ == old(t)@.remove_keys(Set::new(|k: (u64, u64)| k.0 == id || k.1 == id)),
{
    loop
        invariant
            t.wf(),
            forall|k: (u64, u64)| #[trigger] t@.dom().contains(k) ==> old(t)@.dom().contains(k)
                && t@[k] == old(t)@[k],
            forall|k: (u64, u64)|
                old(t)@.dom().contains(k) && !(k.0 == id || k.1 == id) ==> #[trigger] t@.dom().contains(k),
        ensures
            forall|k: (u64, u64)| #[trigger] t@.dom().contains(k) ==> !(k.0 == id || k.1 == id),
            forall|k: (u64, u64)| #[trigger] t@.dom().contains(k) ==> old(t)@.dom().contains(k)
                && t@[k] == old(t)@[k],
            forall|k: (u64, u64)|
                old(t)@.dom().contains(k) && !(k.0 == id || k.1 == id) ==> #[trigger] t@.dom().contains(k),
        decreases t.seq().len(),
    {
        match find_climb_variations_touching(t, id) {
            Some(k) => {
                t.delete(&k);
            },
            None => {
                break ;
            },
        }
    }
    proof {
        assert(t@ =~= old(t)@.remove_keys(Set::new(|k: (u64, u64)| k.0 == id || k.1 == id)));
    }
}

/// Finds a row of the climb description table whose climb is `id`.
fn find_climb_descriptions_by_climb(t: &Table<ClimbDescription>, id: u64) -> (r: Option<(u64, u64)>)
    requires
        t.wf(),
    ensures
        match r {
            Some(k) => t@.dom().contains(k) && (k.0 == id),
            None => forall|k: (u64, u64)| #[trigger] t@.dom().contains(k) ==> !(k.0 == id),
        },
{
    let n = t.len();
    let mut i: usize = 0;
    while i < n
        invariant
            t.wf(),
            i <= n,
            n == t.seq().len(),
            forall|j: int| 0 <= j < i ==> !(#[trigger] t.seq()[j].climb_id == id),
        decreases n - i,
    {
        let row = t.row_at(i);
        if row.climb_id == id {
            proof {
                t.lemma_view();
                assert(t.seq()[i as int].key() == (row.climb_id, row.climb_description_type_id));
                assert(t@.dom().contains((row.climb_id, row.climb_description_type_id)));
            }
            return Some((row.climb_id, row.climb_description_type_id));
        }
        i = i + 1;
    }
    proof {
        t.lemma_view();
        assert forall|k: (u64, u64)| #[trigger] t@.dom().contains(k) implies !(k.0 == id) by {
            let j = choose|j: int| 0 <= j < t.seq().len() && t.seq()[j].key() == k;
            assert(t.seq()[j].key() == k);
        }
    }
    None
}

/// Removes every row of the climb description table whose climb is `id`.
pub(crate) fn purge_climb_descriptions_by_climb(t: &mut Table<ClimbDescription>, id: u64)
    requires
        old(t).wf(),
    ensures
        final (t).wf(),
        final (t)@ == old(t)@.remove_keys(Set::new(|k: (u64, u64)| k.0 == id)),
{
    loop
        invariant
            t.wf(),
            forall|k: (u64, u64)| #[trigger] t@.dom().contains(k) ==> old(t)@.dom().contains(k)
                && t@[k] == old(t)@[k],
            forall|k: (u64, u64)|
                old(t)@.dom().contains(k) && !(k.0 == id) ==> #[trigger] t@.dom().contains(k),
        ensures
            forall|k: (u64, u64)| #[trigger] t@.dom().contains(k) ==> !(k.0 == id),
            forall|k: (u64, u64)| #[trigger] t@.dom().contains(k) ==> old(t)@.dom().contains(k)
                && t@[k] == old(t)@[k],
            forall|k: (u64, u64)|
                old(t)@.dom().contains(k) && !(k.0 == id) ==> #[trigger] t@.dom().contains(k),
        decreases t.seq().len(),
    {
        match find_climb_descriptions_by_climb(t, id) {
            Some(k) => {
                t.delete(&k);
            },
            None => {
                break ;
            },
        }
    }
    proof {
        assert(t@ =~= old(t)@.remove_keys(Set::new(|k: (u64, u64)| k.0 == id)));
    }
}

/// Finds a row of the climb description table whose category is `id`.
fn find_climb_descriptions_by_type(t: &Table<ClimbDescription>, id: u64) -> (r: Option<(u64, u64)>)
    requires
        t.wf(),
    ensures
        match r {
            Some(k) => t@.dom().contains(k) && (k.1 == id),
            None => forall|k: (u64, u64)| #[trigger] t@.dom().contains(k) ==> !(k.1 == id),
        },
{
    let n = t.len();
    let mut i: usize = 0;
    while i < n
        invariant
            t.wf(),
            i <= n,
            n == t.seq().len(),
            forall|j: int| 0 <= j < i ==> !(#[trigger] t.seq()[j].climb_description_type_id == id),
        decreases n - i,
    {
        let row = t.row_at(i);
        if row.climb_description_type_id == id {
            proof {
                t.lemma_view();
                assert(t.seq()[i as int].key() == (row.climb_id, row.climb_description_type_id));
                assert(t@.dom().contains((row.climb_id, row.climb_description_type_id)));
            }
            return Some((row.climb_id, row.climb_description_type_id));
        }
        i = i + 1;
    }
    proof {
        t.lemma_view();
        assert forall|k: (u64, u64)| #[trigger] t@.dom().contains(k) implies !(k.1 == id) by {
            let j = choose|j: int| 0 <= j < t.seq().len() && t.seq()[j].key() == k;
            assert(t.seq()[j].key() == k);
        }
    }
    None
}

/// Removes every row of the climb description table whose category is `id`.
pub(crate) fn purge_climb_descriptions_by_type(t: &mut Table<ClimbDescription>, id: u64)
    requires
        old(t).wf(),
    ensures
        final (t).wf(),
        final (t)@ == old(t)@.remove_keys(Set::new(|k: (u64, u64)| k.1 == id)),
{
    loop
        invariant
            t.wf(),
            forall|k: (u64, u64)| #[trigger] t@.dom().contains(k) ==> old(t)@.dom().contains(k)
                && t@[k] == old(t)@[k],
            forall|k: (u64, u64)|
                old(t)@.dom().contains(k) && !(k.1 == id) ==> #[trigger] t@.dom().contains(k),
        ensures
            forall|k: (u64, u64)| #[trigger] t@.dom().contains(k) ==> !(k.1 == id),
            forall|k: (u64, u64)| #[trigger] t@.dom().contains(k) ==> old(t)@.dom().contains(k)
                && t@[k] == old(t)@[k],
            forall|k: (u64, u64)|
                old(t)@.dom().contains(k) && !(k.1 == id) ==> #[trigger] t@.dom().contains(k),
        decreases t.seq().len(),
    {
        match find_climb_descriptions_by_type(t, id) {
            Some(k) => {
                t.delete(&k);
            },
            None => {
                break ;
            },
        }
    }
    proof {
        assert(t@ =~= old(t)@.remove_keys(Set::new(|k: (u64, u64)| k.1 == id)));
    }
}

/// Finds an ascent of the given climb, if any is recorded.
pub(crate) fn find_ascent_of_climb(t: &Table<Ascent>, climb_id: u64) -> (r: Option<u64>)
    requires
        t.wf(),
    ensures
        match r {
            Some(a) => t@.dom().contains(a) && t@[a].climb_id == climb_id,
            None => forall|a: u64| #[trigger] t@.dom().contains(a) ==> t@[a].climb_id != climb_id,
        },
{
    let n = t.len();
    let mut i: usize = 0;
    while i < n
        invariant
            t.wf(),
            i <= n,
            n == t.seq().len(),
            forall|j: int| 0 <= j < i ==> #[trigger] t.seq()[j].climb_id != climb_id,
        decreases n - i,
    {
        let row = t.row_at(i);
        if row.climb_id == climb_id {
            proof {
                t.lemma_view();
                assert(t.seq()[i as int].key() == row.id);
                assert(t@.dom().contains(row.id));
                assert(t@[row.id] == *row);
            }
            return Some(row.id);
        }
        i = i + 1;
    }
    proof {
        t.lemma_view();
        assert forall|a: u64| #[trigger] t@.dom().contains(a) implies t@[a].climb_id != climb_id by {
            let j = choose|j: int| 0 <= j < t.seq().len() && t.seq()[j].key() == a;
            assert(t.seq()[j].climb_id != climb_id);
        }
    }
    None
}

/// Finds a grade of the given grading system, if any is recorded.
pub(crate) fn find_grade_of_type(t: &Table<Grade>, grade_type_id: u64) -> (r: Option<u64>)
    requires
        t.wf(),
    ensures
        match r {
            Some(g) => t@.dom().contains(g) && t@[g].grade_type_id == grade_type_id,
            None => forall|g: u64| #[trigger]
                t@.dom().contains(g) ==> t@[g].grade_type_id != grade_type_id,
        },
{
    let n = t.len();
    let mut i: usize = 0;
    while i < n
        invariant
            t.wf(),
            i <= n,
            n == t.seq().len(),
            forall|j: int| 0 <= j < i ==> #[trigger] t.seq()[j].grade_type_id != grade_type_id,
        decreases n - i,
    {
        let row = t.row_at(i);
        if row.grade_type_id == grade_type_id {
            proof {
                t.lemma_view();
                assert(t.seq()[i as int].key() == row.id);
                assert(t@.dom().contains(row.id));
                assert(t@[row.id] == *row);
            }
            return Some(row.id);
        }
        i = i + 1;
    }
    proof {
        t.lemma_view();
        assert forall|g: u64| #[trigger]
            t@.dom().contains(g) implies t@[g].grade_type_id != grade_type_id by {
            let j = choose|j: int| 0 <= j < t.seq().len() && t.seq()[j].key() == g;
            assert(t.seq()[j].grade_type_id != grade_type_id);
        }
    }
    None
}

} // verus!
