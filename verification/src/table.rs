//! Keyed in-memory tables.
//!
//! Every relation of the store is held as a [`Table`]: a vector of rows with
//! pairwise distinct primary keys, viewed abstractly as a map from key to
//! row.  The row type says what its key is through the [`Keyed`] trait; keys
//! are plain integers or pairs of integers, so both entity tables and
//! composite-keyed association tables fit.

use vstd::prelude::*;

verus! {

/// A row type with a primary key of type `K`.
pub trait Keyed: Sized {
    /// The type of the primary key.
    type K;

    /// The primary key of the row.
    spec fn key(self) -> Self::K;

    /// Compares this row's key with `k`.
    fn key_matches(&self, k: &Self::K) -> (r: bool)
        ensures
            r == (self.key() == *k),
    ;

    /// Compares this row's key with another row's key.
    fn same_key(&self, other: &Self) -> (r: bool)
        ensures
            r == (self.key() == other.key()),
    ;
}

/// The keyed view of a row sequence; a later row would win, though a
/// well-formed table never holds two rows with one key.
pub open spec fn table_map<R: Keyed>(s: Seq<R>) -> Map<R::K, R>
    decreases s.len(),
{
    if s.len() == 0 {
        Map::empty()
    } else {
        table_map(s.drop_last()).insert(s.last().key(), s.last())
    }
}

/// Pairwise distinct keys.
pub open spec fn distinct_keys<R: Keyed>(s: Seq<R>) -> bool {
    forall|i: int, j: int| 0 <= i < j < s.len() ==> #[trigger] s[i].key() != #[trigger] s[j].key()
}

/// Domain and membership facts of `table_map`, independent of key
/// uniqueness.
pub proof fn lemma_table_map_basic<R: Keyed>(s: Seq<R>)
    ensures
        table_map(s).dom().finite(),
        table_map(s).dom().len() <= s.len(),
        forall|k: R::K| #[trigger]
            table_map(s).dom().contains(k) ==> exists|i: int| 0 <= i < s.len() && s[i].key() == k,
        forall|i: int| 0 <= i < s.len() ==> table_map(s).dom().contains(#[trigger] s[i].key()),
    decreases s.len(),
{
    if s.len() == 0 {
    } else {
        lemma_table_map_basic(s.drop_last());
        assert forall|i: int| 0 <= i < s.len() implies table_map(s).dom().contains(
            #[trigger] s[i].key(),
        ) by {
            if i < s.len() - 1 {
                assert(s.drop_last()[i] == s[i]);
            }
        }
        assert forall|k: R::K| #[trigger] table_map(s).dom().contains(k) implies exists|i: int|
            0 <= i < s.len() && s[i].key() == k by {
            if k != s.last().key() {
                let i = choose|i: int| 0 <= i < s.drop_last().len() && s.drop_last()[i].key() == k;
                assert(s[i].key() == k);
            } else {
                assert(s[s.len() - 1].key() == k);
            }
        }
    }
}

/// With distinct keys, each row is the map's value at its key.
pub proof fn lemma_table_map_index<R: Keyed>(s: Seq<R>, i: int)
    requires
        distinct_keys(s),
        0 <= i < s.len(),
    ensures
        table_map(s)[s[i].key()] == s[i],
    decreases s.len(),
{
    if i == s.len() - 1 {
    } else {
        assert(s.drop_last()[i] == s[i]);
        lemma_table_map_index(s.drop_last(), i);
    }
}

/// With distinct keys, the map is exactly as large as the row sequence.
pub proof fn lemma_table_map_uniq_len<R: Keyed>(s: Seq<R>)
    requires
        distinct_keys(s),
    ensures
        table_map(s).dom().len() == s.len(),
    decreases s.len(),
{
    if s.len() > 0 {
        lemma_table_map_uniq_len(s.drop_last());
        lemma_table_map_basic(s.drop_last());
        if table_map(s.drop_last()).dom().contains(s.last().key()) {
            let i = choose|i: int|
                0 <= i < s.drop_last().len() && s.drop_last()[i].key() == s.last().key();
            assert(s[i].key() == s[s.len() - 1].key());
        }
    }
}

/// Appending a fresh row inserts it into the view.
pub proof fn lemma_table_map_push<R: Keyed>(s: Seq<R>, r: R)
    ensures
        table_map(s.push(r)) == table_map(s).insert(r.key(), r),
{
    assert(s.push(r).drop_last() =~= s);
    assert(s.push(r).last() == r);
}

/// Removing the row at index `i` removes its key from the view.
pub proof fn lemma_table_map_remove<R: Keyed>(s: Seq<R>, i: int)
    requires
        distinct_keys(s),
        0 <= i < s.len(),
    ensures
        table_map(s.remove(i)) == table_map(s).remove(s[i].key()),
    decreases s.len(),
{
    lemma_table_map_basic(s.drop_last());
    if i == s.len() - 1 {
        assert(s.remove(i) =~= s.drop_last());
        if table_map(s.drop_last()).dom().contains(s.last().key()) {
            let j = choose|j: int|
                0 <= j < s.drop_last().len() && s.drop_last()[j].key() == s.last().key();
            assert(s[j].key() == s[s.len() - 1].key());
        }
        assert(table_map(s.drop_last()) =~= table_map(s).remove(s[i].key()));
    } else {
        assert(s.drop_last()[i] == s[i]);
        lemma_table_map_remove(s.drop_last(), i);
        assert(s.remove(i).drop_last() =~= s.drop_last().remove(i));
        assert(s.remove(i).last() == s.last());
        assert(s[i].key() != s.last().key());
        assert(table_map(s.remove(i)) == table_map(s.drop_last().remove(i)).insert(
            s.last().key(),
            s.last(),
        ));
        assert(table_map(s.drop_last().remove(i)).insert(s.last().key(), s.last()) =~= table_map(
            s,
        ).remove(s[i].key()));
    }
}

/// An in-memory table of rows with unique primary keys, seen abstractly as
/// a map from key to row.
pub struct Table<R> {
    rows: Vec<R>,
}

impl<R: Keyed> View for Table<R> {
    type V = Map<R::K, R>;

    closed spec fn view(&self) -> Map<R::K, R> {
        table_map(self.rows@)
    }
}

impl<R: Keyed> Table<R> {
    /// The rows, in storage order.
    pub closed spec fn seq(self) -> Seq<R> {
        self.rows@
    }

    /// Key uniqueness across the stored rows.
    pub open spec fn wf(self) -> bool {
        distinct_keys(self.seq())
    }

    /// The empty table.
    pub fn new() -> (t: Self)
        ensures
            t.wf(),
            t@ == Map::<R::K, R>::empty(),
            t.seq() == Seq::<R>::empty(),
    {
        Table { rows: Vec::new() }
    }

    /// The position of the row with key `k`, if any.
    fn index_of(&self, k: &R::K) -> (r: Option<usize>)
        ensures
            match r {
                Some(i) => i < self.seq().len() && self.seq()[i as int].key() == *k,
                None => forall|i: int| 0 <= i < self.seq().len() ==> self.seq()[i].key() != *k,
            },
    {
        let n = self.rows.len();
        let mut i: usize = 0;
        while i < n
            invariant
                i <= n,
                n == self.seq().len(),
                forall|j: int| 0 <= j < i ==> self.seq()[j].key() != *k,
            decreases n - i,
        {
            if self.rows[i].key_matches(k) {
                return Some(i);
            }
            i = i + 1;
        }
        None
    }

    /// Whether a row with key `k` exists.
    pub fn contains_key(&self, k: &R::K) -> (r: bool)
        requires
            self.wf(),
        ensures
            r == self@.dom().contains(*k),
    {
        proof {
            lemma_table_map_basic(self.seq());
        }
        match self.index_of(k) {
            Some(_i) => true,
            None => false,
        }
    }

    /// The row with key `k`, if any.
    pub fn get(&self, k: &R::K) -> (r: Option<&R>)
        requires
            self.wf(),
        ensures
            match r {
                Some(row) => self@.dom().contains(*k) && *row == self@[*k] && row.key() == *k,
                None => !self@.dom().contains(*k),
            },
    {
        proof {
            lemma_table_map_basic(self.seq());
        }
        match self.index_of(k) {
            Some(i) => {
                proof {
                    lemma_table_map_index(self.seq(), i as int);
                }
                Some(&self.rows[i])
            },
            None => None,
        }
    }

    /// The position of the row carrying `row`'s key, if any.
    fn index_of_row(&self, row: &R) -> (r: Option<usize>)
        ensures
            match r {
                Some(i) => i < self.seq().len() && self.seq()[i as int].key() == row.key(),
                None => forall|i: int| 0 <= i < self.seq().len() ==> self.seq()[i].key()
                    != row.key(),
            },
    {
        let n = self.rows.len();
        let mut i: usize = 0;
        while i < n
            invariant
                i <= n,
                n == self.seq().len(),
                forall|j: int| 0 <= j < i ==> self.seq()[j].key() != row.key(),
            decreases n - i,
        {
            if self.rows[i].same_key(row) {
                return Some(i);
            }
            i = i + 1;
        }
        None
    }

    /// Inserts `row`, replacing any row that already carries its key.
    pub fn put(&mut self, row: R)
        requires
            old(self).wf(),
        ensures
            final (self).wf(),
            final (self)@ == old(self)@.insert(row.key(), row),
            final (self).seq().len() <= old(self).seq().len() + 1,
    {
        let ghost s0 = self.rows@;
        match self.index_of_row(&row) {
            Some(i) => {
                // replace by removing the stale row and appending the new one
                proof {
                    lemma_table_map_remove(s0, i as int);
                }
                self.rows.remove(i);
                proof {
                    assert forall|p: int, q: int|
                        0 <= p < q < self.rows@.len() implies #[trigger] self.rows@[p].key()
                        != #[trigger] self.rows@[q].key() by {
                        s0.remove_ensures(i as int);
                    }
                    assert forall|p: int|
                        0 <= p < self.rows@.len() implies #[trigger] self.rows@[p].key()
                        != row.key() by {
                        s0.remove_ensures(i as int);
                    }
                    lemma_table_map_push(s0.remove(i as int), row);
                }
                self.rows.push(row);
                proof {
                    assert(table_map(self.rows@) =~= table_map(s0).insert(row.key(), row));
                }
            },
            None => {
                self.rows.push(row);
                proof {
                    lemma_table_map_push(s0, row);
                }
            },
        }
    }

    /// Deletes the row with key `k`; doing nothing when it is absent.
    pub fn delete(&mut self, k: &R::K)
        requires
            old(self).wf(),
        ensures
            final (self).wf(),
            final (self)@ == old(self)@.remove(*k),
            old(self)@.dom().contains(*k) ==> final (self).seq().len() == old(self).seq().len()
                - 1,
            !old(self)@.dom().contains(*k) ==> *final (self) == *old(self),
    {
        let ghost s0 = self.rows@;
        match self.index_of(k) {
            Some(i) => {
                self.rows.remove(i);
                proof {
                    lemma_table_map_basic(s0);
                    lemma_table_map_remove(s0, i as int);
                    assert forall|p: int, q: int|
                        0 <= p < q < self.rows@.len() implies #[trigger] self.rows@[p].key()
                        != #[trigger] self.rows@[q].key() by {
                        s0.remove_ensures(i as int);
                    }
                }
            },
            None => {
                proof {
                    lemma_table_map_basic(s0);
                    assert(table_map(s0) =~= table_map(s0).remove(*k));
                }
            },
        }
    }

    /// Removes and returns the row with key `k`, if any.
    pub fn take(&mut self, k: &R::K) -> (r: Option<R>)
        requires
            old(self).wf(),
        ensures
            final (self).wf(),
            match r {
                Some(row) => old(self)@.dom().contains(*k) && row == old(self)@[*k] && row.key()
                    == *k && final (self)@ == old(self)@.remove(*k),
                None => !old(self)@.dom().contains(*k) && *final (self) == *old(self),
            },
    {
        let ghost s0 = self.rows@;
        match self.index_of(k) {
            Some(i) => {
                proof {
                    lemma_table_map_basic(s0);
                    lemma_table_map_index(s0, i as int);
                    lemma_table_map_remove(s0, i as int);
                }
                let row = self.rows.remove(i);
                proof {
                    assert forall|p: int, q: int|
                        0 <= p < q < self.rows@.len() implies #[trigger] self.rows@[p].key()
                        != #[trigger] self.rows@[q].key() by {
                        s0.remove_ensures(i as int);
                    }
                }
                Some(row)
            },
            None => {
                proof {
                    lemma_table_map_basic(s0);
                }
                None
            },
        }
    }

    /// The number of stored rows.
    pub fn len(&self) -> (n: usize)
        ensures
            n == self.seq().len(),
    {
        self.rows.len()
    }

    /// The row at position `i`.
    pub fn row_at(&self, i: usize) -> (r: &R)
        requires
            i < self.seq().len(),
        ensures
            *r == self.seq()[i as int],
    {
        &self.rows[i]
    }

    /// The bridge between the row sequence and the map view: every row is
    /// the value at its key, and every key comes from a row.
    pub proof fn lemma_view(self)
        requires
            self.wf(),
        ensures
            self@.dom().finite(),
            self@.dom().len() == self.seq().len(),
            forall|i: int|
                0 <= i < self.seq().len() ==> self@.dom().contains(#[trigger] self.seq()[i].key())
                    && self@[self.seq()[i].key()] == self.seq()[i],
            forall|k: R::K| #[trigger]
                self@.dom().contains(k) ==> exists|i: int|
                    0 <= i < self.seq().len() && self.seq()[i].key() == k,
    {
        lemma_table_map_basic(self.seq());
        lemma_table_map_uniq_len(self.seq());
        assert forall|i: int| 0 <= i < self.seq().len() implies self@.dom().contains(
            #[trigger] self.seq()[i].key(),
        ) && self@[self.seq()[i].key()] == self.seq()[i] by {
            lemma_table_map_index(self.seq(), i);
        }
    }
}

} // verus!
