//! Per-reader progress: one row per reader, written insert-or-update.
//!
//! The store models the persistence interface the engine writes through:
//! `get` looks a reader's last passage up, `set` upserts it, keyed by the
//! reader's id, so repeated writes for one reader converge to exactly one
//! row. The engine never deletes a row.

use vstd::prelude::*;

verus! {

/// An instance of user progress through the story: the persisted row.
#[derive(Debug)]
pub struct UserProgress {
    /// Stable external identity of the reader.
    pub user_id: i64,
    /// Name of the last passage the user read.
    pub current_passage: String,
}

/// Mathematical model of a progress row.
pub struct ProgressModel {
    pub user_id: i64,
    pub current_passage: Seq<char>,
}

impl View for UserProgress {
    type V = ProgressModel;

    open spec fn view(&self) -> ProgressModel {
        ProgressModel { user_id: self.user_id, current_passage: self.current_passage@ }
    }
}

impl DeepView for UserProgress {
    type V = ProgressModel;

    open spec fn deep_view(&self) -> ProgressModel {
        self@
    }
}

/// No two rows share a reader id.
pub open spec fn ids_unique(rows: Seq<ProgressModel>) -> bool {
    forall|i: int, j: int| 0 <= i < j < rows.len() ==> rows[i].user_id != rows[j].user_id
}

/// The mapping a sequence of rows denotes, later rows winning.
pub open spec fn rows_map(rows: Seq<ProgressModel>) -> Map<int, Seq<char>>
    decreases rows.len(),
{
    if rows.len() == 0 {
        Map::empty()
    } else {
        rows_map(rows.drop_last()).insert(rows.last().user_id as int, rows.last().current_passage)
    }
}

/// How many rows of `rows` belong to reader `id`.
pub open spec fn count_id(rows: Seq<ProgressModel>, id: i64) -> nat
    decreases rows.len(),
{
    if rows.len() == 0 {
        0
    } else {
        count_id(rows.drop_last(), id) + if rows.last().user_id == id {
            1nat
        } else {
            0nat
        }
    }
}

proof fn lemma_rows_map_props(rows: Seq<ProgressModel>)
    ensures
        ids_unique(rows) ==> forall|i: int|
            0 <= i < rows.len() ==> rows_map(rows).contains_key(
                #[trigger] rows[i].user_id as int,
            ) && rows_map(rows)[rows[i].user_id as int] == rows[i].current_passage,
        forall|k: int|
            #[trigger] rows_map(rows).contains_key(k) ==> exists|i: int|
                0 <= i < rows.len() && #[trigger] (rows[i].user_id as int) == k,
    decreases rows.len(),
{
    if rows.len() > 0 {
        let front = rows.drop_last();
        lemma_rows_map_props(front);
        assert(forall|i: int| 0 <= i < front.len() ==> front[i] == rows[i]);
        assert(rows_map(rows) == rows_map(front).insert(
            rows.last().user_id as int,
            rows.last().current_passage,
        ));
        if ids_unique(rows) {
            assert(ids_unique(front));
            assert forall|i: int| 0 <= i < rows.len() implies rows_map(rows).contains_key(
                #[trigger] rows[i].user_id as int,
            ) && rows_map(rows)[rows[i].user_id as int] == rows[i].current_passage by {
                if i < rows.len() - 1 {
                    assert(front[i] == rows[i]);
                    assert(rows[i].user_id != rows.last().user_id);
                }
            }
        }
        assert forall|k: int| #[trigger] rows_map(rows).contains_key(k) implies exists|i: int|
            0 <= i < rows.len() && #[trigger] (rows[i].user_id as int) == k by {
            if k == rows.last().user_id as int {
                assert((rows[rows.len() - 1].user_id as int) == k);
            } else {
                let i = choose|i: int| 0 <= i < front.len() && #[trigger] (front[i].user_id as int)
                    == k;
                assert((rows[i].user_id as int) == k);
            }
        }
    }
}

proof fn lemma_count_unique(rows: Seq<ProgressModel>, id: i64)
    requires
        ids_unique(rows),
    ensures
        count_id(rows, id) == if exists|i: int| 0 <= i < rows.len() && #[trigger] rows[i].user_id
            == id {
            1nat
        } else {
            0nat
        },
    decreases rows.len(),
{
    if rows.len() > 0 {
        let front = rows.drop_last();
        assert(forall|i: int| 0 <= i < front.len() ==> front[i] == rows[i]);
        lemma_count_unique(front, id);
        if rows.last().user_id == id {
            assert(forall|i: int| 0 <= i < front.len() ==> #[trigger] front[i].user_id != id);
        }
    }
}

/// A per-reader progress store with insert-or-update writes.
pub struct ProgressStore {
    rows: Vec<UserProgress>,
}

impl View for ProgressStore {
    type V = Map<int, Seq<char>>;

    closed spec fn view(&self) -> Map<int, Seq<char>> {
        rows_map(self.rows.deep_view())
    }
}

impl ProgressStore {
    /// The rows the store holds, in insertion order.
    pub closed spec fn records(&self) -> Seq<ProgressModel> {
        self.rows.deep_view()
    }

    /// The store is well formed: one row per reader at most.
    pub open spec fn wf(&self) -> bool {
        ids_unique(self.records())
    }

    /// An empty store: no reader has progress yet.
    pub fn new() -> (s: Self)
        ensures
            s.wf(),
            s@ == Map::<int, Seq<char>>::empty(),
            s.records().len() == 0,
    {
        Self { rows: Vec::new() }
    }

    /// The last-known passage of the reader, if one is stored.
    pub fn get(&self, reader_id: i64) -> (r: Option<String>)
        requires
            self.wf(),
        ensures
            match r {
                Some(p) => self@.contains_key(reader_id as int) && self@[reader_id as int] == p@,
                None => !self@.contains_key(reader_id as int),
            },
    {
        proof {
            lemma_rows_map_props(self.records());
        }
        let ghost rows = self.records();
        let mut i: usize = 0;
        while i < self.rows.len()
            invariant
                rows == self.records(),
                ids_unique(rows),
                i <= rows.len(),
                forall|k: int| 0 <= k < i ==> #[trigger] rows[k].user_id != reader_id,
            decreases self.rows.len() - i,
        {
            if self.rows[i].user_id == reader_id {
                proof {
                    lemma_rows_map_props(rows);
                    assert((rows[i as int].user_id as int) == reader_id as int);
                }
                return Some(self.rows[i].current_passage.clone());
            }
            i = i + 1;
        }
        None
    }

    /// Stores `passage` as the reader's progress: inserts a row for a new
    /// reader, updates the existing row otherwise. Afterwards exactly one
    /// row belongs to the reader and it holds `passage`.
    pub fn set(&mut self, reader_id: i64, passage: String)
        requires
            old(self).wf(),
        ensures
            final(self).wf(),
            final(self)@ == old(self)@.insert(reader_id as int, passage@),
            count_id(final(self).records(), reader_id) == 1,
    {
        let ghost rows0 = self.records();
        let mut i: usize = 0;
        while i < self.rows.len()
            invariant
                rows0 == self.records(),
                rows0 == old(self).records(),
                ids_unique(rows0),
                i <= rows0.len(),
                forall|k: int| 0 <= k < i ==> #[trigger] rows0[k].user_id != reader_id,
            decreases self.rows.len() - i,
        {
            if self.rows[i].user_id == reader_id {
                let row = UserProgress { user_id: reader_id, current_passage: passage };
                let ghost rowm = row@;
                self.rows[i] = row;
                proof {
                    assert(self.records() =~= rows0.update(i as int, rowm));
                    lemma_update_is_insert(rows0, i as int, rowm);
                    assert(self.records()[i as int].user_id == reader_id);
                    lemma_count_unique(self.records(), reader_id);
                }
                return ;
            }
            i = i + 1;
        }
        let row = UserProgress { user_id: reader_id, current_passage: passage };
        let ghost rowm = row@;
        self.rows.push(row);
        proof {
            assert(self.records() =~= rows0.push(rowm));
            assert(self.records().drop_last() =~= rows0);
            assert(self.records()[rows0.len() as int].user_id == reader_id);
            lemma_count_unique(self.records(), reader_id);
        }
    }

    /// How many rows belong to the reader.
    pub fn row_count(&self, reader_id: i64) -> (c: usize)
        ensures
            c as nat == count_id(self.records(), reader_id),
    {
        let ghost rows = self.records();
        let mut c: usize = 0;
        let mut i: usize = 0;
        while i < self.rows.len()
            invariant
                rows == self.records(),
                i <= rows.len(),
                c as nat == count_id(rows.take(i as int), reader_id),
                c <= i,
            decreases self.rows.len() - i,
        {
            proof {
                assert(rows.take(i as int + 1).drop_last() =~= rows.take(i as int));
                assert(rows.take(i as int + 1).last() == rows[i as int]);
            }
            if self.rows[i].user_id == reader_id {
                c = c + 1;
            }
            i = i + 1;
        }
        proof {
            assert(rows.take(rows.len() as int) =~= rows);
        }
        c
    }
}

proof fn lemma_update_is_insert(rows: Seq<ProgressModel>, i: int, row: ProgressModel)
    requires
        ids_unique(rows),
        0 <= i < rows.len(),
        rows[i].user_id == row.user_id,
    ensures
        ids_unique(rows.update(i, row)),
        rows_map(rows.update(i, row)) == rows_map(rows).insert(
            row.user_id as int,
            row.current_passage,
        ),
    decreases rows.len(),
{
    let updated = rows.update(i, row);
    if i == rows.len() - 1 {
        assert(updated.drop_last() =~= rows.drop_last());
        assert(rows_map(updated) =~= rows_map(rows).insert(
            row.user_id as int,
            row.current_passage,
        ));
    } else {
        let front = rows.drop_last();
        assert(forall|a: int, b: int| 0 <= a < b < front.len() ==> front[a].user_id
            != front[b].user_id);
        lemma_update_is_insert(front, i, row);
        assert(updated.drop_last() =~= front.update(i, row));
        assert(updated.last() == rows.last());
        assert(rows.last().user_id != row.user_id);
        assert(rows_map(updated) =~= rows_map(rows).insert(
            row.user_id as int,
            row.current_passage,
        ));
    }
}

} // verus!
